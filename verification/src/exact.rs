//! Sums in any order, over elements whose arithmetic is exact.

use crate::tensor::Element;
use vstd::prelude::*;

verus! {

/// Elements whose sums and products can be taken in any order: integers, where they wrap around.
/// Floats round, and are none.
pub trait Exact: Element {
    /// The laws of a commutative ring.
    proof fn ring_laws(a: Self, b: Self, c: Self)
        ensures
            a.spec_plus(b) == b.spec_plus(a),
            a.spec_plus(b).spec_plus(c) == a.spec_plus(b.spec_plus(c)),
            a.spec_times(b) == b.spec_times(a),
            a.spec_times(b).spec_times(c) == a.spec_times(b.spec_times(c)),
            a.spec_times(b.spec_plus(c)) == a.spec_times(b).spec_plus(a.spec_times(c)),
    ;
}

/// Remainders of sums and products depend on the remainders of the operands only.
proof fn lemma_remainders(a: int, b: int, c: int, d: int, m: int)
    requires
        m > 0,
        a % m == c % m,
        b % m == d % m,
    ensures
        (a + b) % m == (c + d) % m,
        (a * b) % m == (c * d) % m,
{
    vstd::arithmetic::div_mod::lemma_add_mod_noop(a, b, m);
    vstd::arithmetic::div_mod::lemma_add_mod_noop(c, d, m);
    vstd::arithmetic::div_mod::lemma_mul_mod_noop(a, b, m);
    vstd::arithmetic::div_mod::lemma_mul_mod_noop(c, d, m);
}

/// Wrapping around keeps the remainder.
proof fn lemma_wrapped_i64(a: i64, b: i64)
    ensures
        a.spec_plus(b) as int % 0x1_0000_0000_0000_0000 == (a + b) % 0x1_0000_0000_0000_0000,
        a.spec_times(b) as int % 0x1_0000_0000_0000_0000 == (a * b) % 0x1_0000_0000_0000_0000,
{
    let p = a * b;
    assert(p % 0x1_0000_0000_0000_0000 == a * b % 0x1_0000_0000_0000_0000);
}

/// Two values with the same remainder are the same.
proof fn lemma_same_i64(a: i64, b: i64)
    requires
        a as int % 0x1_0000_0000_0000_0000 == b as int % 0x1_0000_0000_0000_0000,
    ensures
        a == b,
{
}

/// Products can be taken in any order.
proof fn lemma_products_i64(a: i64, b: i64, c: i64)
    ensures
        a.spec_times(b).spec_times(c) == a.spec_times(b.spec_times(c)),
{
    let m = 0x1_0000_0000_0000_0000int;
    let (ab, bc) = (a.spec_times(b), b.spec_times(c));
    let (x, y, z) = (a as int, b as int, c as int);
    assert(ab as int % m == (x * y) % m && bc as int % m == (y * z) % m) by {
        lemma_wrapped_i64(a, b);
        lemma_wrapped_i64(b, c);
    }
    assert(ab.spec_times(c) as int % m == (ab * z) % m && a.spec_times(bc) as int % m == (x * bc)
        % m) by {
        lemma_wrapped_i64(ab, c);
        lemma_wrapped_i64(a, bc);
    }
    assert((ab * z) % m == ((x * y) * z) % m && (x * bc) % m == (x * (y * z)) % m) by {
        lemma_remainders(ab as int, z, x * y, z, m);
        lemma_remainders(x, bc as int, x, y * z, m);
    }
    assert((x * y) * z == x * (y * z)) by (nonlinear_arith);
    lemma_same_i64(ab.spec_times(c), a.spec_times(bc));
}

/// A factor of a sum is a factor of both terms.
proof fn lemma_distribute_i64(a: i64, b: i64, c: i64)
    ensures
        a.spec_times(b.spec_plus(c)) == a.spec_times(b).spec_plus(a.spec_times(c)),
{
    let m = 0x1_0000_0000_0000_0000int;
    let (ab, ac, s) = (a.spec_times(b), a.spec_times(c), b.spec_plus(c));
    let (x, y, z) = (a as int, b as int, c as int);
    assert(ab as int % m == (x * y) % m && ac as int % m == (x * z) % m && s as int % m == (y + z)
        % m) by {
        lemma_wrapped_i64(a, b);
        lemma_wrapped_i64(a, c);
        lemma_wrapped_i64(b, c);
    }
    assert(a.spec_times(s) as int % m == (x * s) % m && ab.spec_plus(ac) as int % m == (ab + ac)
        % m) by {
        lemma_wrapped_i64(a, s);
        lemma_wrapped_i64(ab, ac);
    }
    assert((x * s) % m == (x * (y + z)) % m && (ab + ac) % m == (x * y + x * z) % m) by {
        lemma_remainders(x, s as int, x, y + z, m);
        lemma_remainders(ab as int, ac as int, x * y, x * z, m);
    }
    assert(x * (y + z) == x * y + x * z) by (nonlinear_arith);
    lemma_same_i64(a.spec_times(s), ab.spec_plus(ac));
}

impl Exact for i64 {
    proof fn ring_laws(a: i64, b: i64, c: i64) {
        assert(a * b == b * a) by (nonlinear_arith);
        lemma_products_i64(a, b, c);
        lemma_distribute_i64(a, b, c);
    }
}

/// Wrapping around keeps the remainder.
proof fn lemma_wrapped_u32(a: u32, b: u32)
    ensures
        a.spec_plus(b) as int % 0x1_0000_0000 == (a + b) % 0x1_0000_0000,
        a.spec_times(b) as int % 0x1_0000_0000 == (a * b) % 0x1_0000_0000,
{
    let p = a * b;
    assert(p >= 0) by (nonlinear_arith)
        requires
            p == a * b,
    ;
    assert((a as nat * b as nat) as int == p);
    assert(a.spec_times(b) == p % 0x1_0000_0000);
}

impl Exact for u32 {
    proof fn ring_laws(a: u32, b: u32, c: u32) {
        let m = 0x1_0000_0000int;
        lemma_wrapped_u32(a, b);
        lemma_wrapped_u32(b, a);
        lemma_wrapped_u32(b, c);
        lemma_wrapped_u32(a, c);
        let (ab, bc, ac) = (a.spec_times(b), b.spec_times(c), a.spec_times(c));
        let (sab, sbc) = (a.spec_plus(b), b.spec_plus(c));
        lemma_wrapped_u32(ab, c);
        lemma_wrapped_u32(a, bc);
        lemma_wrapped_u32(sab, c);
        lemma_wrapped_u32(a, sbc);
        lemma_wrapped_u32(ab, ac);
        let (x, y, z) = (a as int, b as int, c as int);
        lemma_remainders(ab as int, z, x * y, z, m);
        lemma_remainders(x, bc as int, x, y * z, m);
        lemma_remainders(sab as int, z, x + y, z, m);
        lemma_remainders(x, sbc as int, x, y + z, m);
        lemma_remainders(ab as int, ac as int, x * y, x * z, m);
        assert(x * y == y * x) by (nonlinear_arith);
        assert((x * y) * z == x * (y * z)) by (nonlinear_arith);
        assert(x * (y + z) == x * y + x * z) by (nonlinear_arith);
    }
}

/// The sum of `f` over the first `n` indices.
pub open spec fn total<E: Element>(f: spec_fn(int) -> E, n: nat) -> E
    decreases n,
{
    if n == 0 {
        E::spec_zero()
    } else {
        total(f, (n - 1) as nat).spec_plus(f(n - 1))
    }
}

/// The sum depends on the terms in range only.
pub proof fn lemma_total_congruent<E: Element>(
    f: spec_fn(int) -> E,
    g: spec_fn(int) -> E,
    n: nat,
)
    requires
        forall|i: int| 0 <= i < n ==> #[trigger] f(i) == g(i),
    ensures
        total(f, n) == total(g, n),
    decreases n,
{
    if n > 0 {
        lemma_total_congruent(f, g, (n - 1) as nat);
        assert(f(n - 1) == g(n - 1));
    }
}

/// A sum of which only the term at `at` can be other than zero is that term.
pub proof fn lemma_total_single<E: Element>(f: spec_fn(int) -> E, n: nat, at: int)
    requires
        forall|i: int| 0 <= i < n && i != at ==> #[trigger] f(i) == E::spec_zero(),
    ensures
        total(f, n) == if 0 <= at < n {
            f(at)
        } else {
            E::spec_zero()
        },
    decreases n,
{
    if n > 0 {
        lemma_total_single(f, (n - 1) as nat, at);
        f(n - 1).zero_laws();
        if n - 1 != at {
            assert(f(n - 1) == E::spec_zero());
            f(at).zero_laws();
        }
    }
}

/// A sum of sums is the sum of both.
pub proof fn lemma_total_plus<E: Exact>(f: spec_fn(int) -> E, g: spec_fn(int) -> E, n: nat)
    ensures
        total(|i: int| f(i).spec_plus(g(i)), n) == total(f, n).spec_plus(total(g, n)),
    decreases n,
{
    if n == 0 {
        E::spec_zero().zero_laws();
    } else {
        let m = (n - 1) as nat;
        lemma_total_plus(f, g, m);
        let (a, b, c, d) = (total(f, m), total(g, m), f(n - 1), g(n - 1));
        E::ring_laws(a.spec_plus(b), c, d);
        E::ring_laws(a, b, c);
        E::ring_laws(a, c, b);
        E::ring_laws(b, c, d);
        E::ring_laws(a.spec_plus(c), b, d);
    }
}

/// A factor of a sum is a factor of every term.
pub proof fn lemma_total_times<E: Exact>(a: E, f: spec_fn(int) -> E, n: nat)
    ensures
        total(|i: int| a.spec_times(f(i)), n) == a.spec_times(total(f, n)),
    decreases n,
{
    if n == 0 {
        a.zero_laws();
        E::ring_laws(a, E::spec_zero(), a);
    } else {
        let m = (n - 1) as nat;
        lemma_total_times(a, f, m);
        E::ring_laws(a, total(f, m), f(n - 1));
    }
}

/// Sums of sums can be taken in either order.
pub proof fn lemma_total_swap<E: Exact>(f: spec_fn(int, int) -> E, n: nat, m: nat)
    ensures
        total(|i: int| total(|j: int| f(i, j), m), n) == total(
            |j: int| total(|i: int| f(i, j), n),
            m,
        ),
    decreases n,
{
    let left = |i: int| total(|j: int| f(i, j), m);
    let right = |j: int| total(|i: int| f(i, j), n);
    if n == 0 {
        assert forall|j: int| 0 <= j < m && j != -1 implies #[trigger] right(j)
            == E::spec_zero() by {
            assert(total(|i: int| f(i, j), 0) == E::spec_zero());
        }
        lemma_total_single(right, m, -1);
    } else {
        let k = (n - 1) as nat;
        lemma_total_swap(f, k, m);
        let before = |j: int| total(|i: int| f(i, j), k);
        let last = |j: int| f(n - 1, j);
        lemma_total_plus(before, last, m);
        let both = |j: int| before(j).spec_plus(last(j));
        assert forall|j: int| 0 <= j < m implies #[trigger] right(j) == both(j) by {
            let column = |i: int| f(i, j);
            assert(total(column, n) == total(column, k).spec_plus(column(n - 1)));
        }
        lemma_total_congruent(right, both, m);
        assert(left(n - 1) == total(last, m)) by {
            lemma_total_congruent(|j: int| f(n - 1, j), last, m);
        }
    }
}

/// A sum over `n * m` indices is a sum of `n` sums over `m` indices each.
pub proof fn lemma_total_nest<E: Exact>(f: spec_fn(int) -> E, n: nat, m: nat)
    ensures
        total(f, n * m) == total(|i: int| total(|j: int| f(i * m + j), m), n),
    decreases n,
{
    if n == 0 {
        assert(n * m == 0) by (nonlinear_arith)
            requires
                n == 0,
        ;
    } else {
        let k = (n - 1) as nat;
        lemma_total_nest(f, k, m);
        assert(n * m == k * m + m) by (nonlinear_arith)
            requires
                n == k + 1,
        ;
        lemma_total_append(f, k * m, m);
        let row = |j: int| f(k * m + j);
        lemma_total_congruent(row, |j: int| f((n - 1) * m + j), m);
    }
}

/// The sum over the first indices and the sum over the next ones make the sum over all.
pub proof fn lemma_total_append<E: Exact>(f: spec_fn(int) -> E, n: nat, m: nat)
    ensures
        total(f, n + m) == total(f, n).spec_plus(total(|j: int| f(n + j), m)),
    decreases m,
{
    if m == 0 {
        total(f, n).zero_laws();
    } else {
        let k = (m - 1) as nat;
        lemma_total_append(f, n, k);
        let next = |j: int| f(n + j);
        E::ring_laws(total(f, n), total(next, k), next(m - 1));
        assert(total(f, n + m) == total(f, n + k).spec_plus(f(n + m - 1)));
    }
}

/// A sum over pairs of indices is a sum over the pairs in row-major order.
pub proof fn lemma_total_pairs<E: Exact>(f: spec_fn(int, int) -> E, n: nat, m: nat)
    ensures
        total(|q: int| f(q / m as int, q % m as int), n * m) == total(
            |i: int| total(|j: int| f(i, j), m),
            n,
        ),
{
    let flat = |q: int| f(q / m as int, q % m as int);
    lemma_total_nest(flat, n, m);
    let rows = |i: int| total(|j: int| flat(i * m + j), m);
    let want = |i: int| total(|j: int| f(i, j), m);
    assert forall|i: int| 0 <= i < n implies #[trigger] rows(i) == want(i) by {
        let (a, b) = (|j: int| flat(i * m + j), |j: int| f(i, j));
        assert forall|j: int| 0 <= j < m implies #[trigger] a(j) == b(j) by {
            crate::arith::lemma_index_split(i, j, m as int);
        }
        lemma_total_congruent(a, b, m);
    }
    lemma_total_congruent(rows, want, n);
}

/// A matrix and its transpose are adjoint: it does not matter which side it is applied to.
pub proof fn lemma_bilinear<E: Exact>(
    x: spec_fn(int) -> E,
    y: spec_fn(int) -> E,
    a: spec_fn(int, int) -> E,
    applied: spec_fn(int) -> E,
    transposed: spec_fn(int) -> E,
    n: nat,
    m: nat,
)
    requires
        forall|u: int|
            0 <= u < m ==> #[trigger] applied(u) == total(|v: int| x(v).spec_times(a(u, v)), n),
        forall|v: int|
            0 <= v < n ==> #[trigger] transposed(v) == total(|u: int| y(u).spec_times(a(u, v)), m),
    ensures
        total(|v: int| x(v).spec_times(transposed(v)), n) == total(
            |u: int| applied(u).spec_times(y(u)),
            m,
        ),
{
    let f = |v: int, u: int| x(v).spec_times(y(u).spec_times(a(u, v)));
    let (left, rows) = (
        |v: int| x(v).spec_times(transposed(v)),
        |v: int| total(|u: int| f(v, u), m),
    );
    assert forall|v: int| 0 <= v < n implies #[trigger] left(v) == rows(v) by {
        let g = |u: int| y(u).spec_times(a(u, v));
        assert(transposed(v) == total(g, m));
        lemma_total_times(x(v), g, m);
        lemma_total_congruent(|u: int| x(v).spec_times(g(u)), |u: int| f(v, u), m);
    }
    lemma_total_congruent(left, rows, n);
    lemma_total_swap(f, n, m);
    let (right, columns) = (
        |u: int| applied(u).spec_times(y(u)),
        |u: int| total(|v: int| f(v, u), n),
    );
    assert forall|u: int| 0 <= u < m implies #[trigger] right(u) == columns(u) by {
        let g = |v: int| x(v).spec_times(a(u, v));
        assert(applied(u) == total(g, n));
        E::ring_laws(applied(u), y(u), y(u));
        lemma_total_times(y(u), g, n);
        let (one, other) = (|v: int| y(u).spec_times(g(v)), |v: int| f(v, u));
        assert forall|v: int| 0 <= v < n implies #[trigger] one(v) == other(v) by {
            E::ring_laws(y(u), x(v), a(u, v));
            E::ring_laws(x(v), y(u), a(u, v));
        }
        lemma_total_congruent(one, other, n);
    }
    lemma_total_congruent(right, columns, m);
}

} // verus!
