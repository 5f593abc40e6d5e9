//! Facts about products, quotients and flattened indices that the rest of the library leans on.

use vstd::prelude::*;

verus! {

/// The smallest whole number of blocks of `b` that covers `m`.
pub open spec fn ceil_div(m: int, b: int) -> int {
    (m + b - 1) / b
}

/// The larger of two naturals.
pub open spec fn max_nat(a: nat, b: nat) -> nat {
    if a >= b {
        a
    } else {
        b
    }
}

/// The smaller of two integers.
pub open spec fn min_int(a: int, b: int) -> int {
    if a <= b {
        a
    } else {
        b
    }
}

/// The product of the extents in `s`; one for the empty sequence.
pub open spec fn product(s: Seq<usize>) -> nat
    decreases s.len(),
{
    if s.len() == 0 {
        1
    } else {
        s[0] as nat * product(s.drop_first())
    }
}

/// The product of the extents in `s`, an extent of zero counting as one. It bounds the product of
/// every selection of the extents.
pub open spec fn span(s: Seq<usize>) -> nat
    decreases s.len(),
{
    if s.len() == 0 {
        1
    } else {
        max_nat(s[0] as nat, 1) * span(s.drop_first())
    }
}

/// How many positions a window of `k` taps, `dilation` apart, takes along `len` elements that are
/// padded on both sides, when it moves by `stride`.
pub open spec fn window_positions(
    len: int,
    padding: int,
    dilation: int,
    k: int,
    stride: int,
) -> int {
    (len + 2 * padding - dilation * (k - 1) - 1) / stride + 1
}

/// The window fits in the padded elements, and what is computed on the way fits in a machine
/// word.
pub open spec fn window_fits(
    len: int,
    padding: int,
    dilation: int,
    k: int,
    stride: int,
) -> bool {
    &&& k >= 1
    &&& stride >= 1
    &&& dilation * (k - 1) + 1 <= len + 2 * padding <= usize::MAX
}

/// The positions of a window, and one is always taken where the window fits.
pub proof fn lemma_window_positions(len: int, padding: int, dilation: int, k: int, stride: int)
    requires
        window_fits(len, padding, dilation, k, stride),
        dilation >= 0,
    ensures
        1 <= window_positions(len, padding, dilation, k, stride) <= len + 2 * padding,
{
    let slack = len + 2 * padding - dilation * (k - 1) - 1;
    assert(dilation * (k - 1) >= 0) by (nonlinear_arith)
        requires
            dilation >= 0,
            k >= 1,
    ;
    assert(0 <= slack / stride <= slack) by (nonlinear_arith)
        requires
            slack >= 0,
            stride >= 1,
    ;
}

/// A window takes every position at which it lies within the padded elements, and no other: at the
/// last one its last tap is still inside, and one stride further it would not be.
pub proof fn law_windows_fill_the_padded_length(
    len: int,
    padding: int,
    dilation: int,
    k: int,
    stride: int,
)
    requires
        window_fits(len, padding, dilation, k, stride),
        dilation >= 0,
    ensures
        ({
            let n = window_positions(len, padding, dilation, k, stride);
            &&& 1 <= n <= usize::MAX
            &&& (n - 1) * stride + (k - 1) * dilation < len + 2 * padding
            &&& len + 2 * padding <= n * stride + (k - 1) * dilation
        }),
{
    lemma_window_positions(len, padding, dilation, k, stride);
    let slack = len + 2 * padding - dilation * (k - 1) - 1;
    let q = slack / stride;
    vstd::arithmetic::div_mod::lemma_fundamental_div_mod(slack, stride);
    vstd::arithmetic::div_mod::lemma_mod_bound(slack, stride);
    assert(dilation * (k - 1) == (k - 1) * dilation) by (nonlinear_arith);
    assert(stride * q == q * stride && (q + 1) * stride == q * stride + stride)
        by (nonlinear_arith);
}

/// The positions of a window.
pub fn count_window_positions(
    len: usize,
    padding: usize,
    dilation: usize,
    k: usize,
    stride: usize,
) -> (r: usize)
    requires
        window_fits(len as int, padding as int, dilation as int, k as int, stride as int),
    ensures
        r == window_positions(
            len as int,
            padding as int,
            dilation as int,
            k as int,
            stride as int,
        ),
        r >= 1,
{
    proof {
        lemma_window_positions(
            len as int,
            padding as int,
            dilation as int,
            k as int,
            stride as int,
        );
    }
    (len + 2 * padding - dilation * (k - 1) - 1) / stride + 1
}

/// `m / b`, rounded up.
pub fn divide(m: usize, b: usize) -> (r: usize)
    requires
        b > 0,
    ensures
        r == ceil_div(m as int, b as int),
{
    let q: usize = m / b;
    let rem: usize = m % b;
    proof {
        lemma_ceil_div(m as int, b as int);
    }
    if rem == 0 {
        q
    } else {
        proof {
            vstd::arithmetic::div_mod::lemma_fundamental_div_mod(m as int, b as int);
            assert(q < m) by (nonlinear_arith)
                requires
                    m == b * q + rem,
                    b >= 1,
                    rem >= 1,
                    q >= 0,
            ;
        }
        q + 1
    }
}

/// Rounds `x` up to a multiple of sixteen.
pub fn pad16(x: usize) -> (r: usize)
    requires
        x + 15 <= usize::MAX,
    ensures
        r == ceil_div(x as int, 16) * 16,
        r % 16 == 0,
        x <= r < x + 16,
{
    divide(x, 16) * 16
}

/// Rounding up is the quotient, plus one where something is left over.
pub proof fn lemma_ceil_div(m: int, b: int)
    requires
        m >= 0,
        b > 0,
    ensures
        ceil_div(m, b) == if m % b == 0 {
            m / b
        } else {
            m / b + 1
        },
{
    let q = m / b;
    let rem = m % b;
    vstd::arithmetic::div_mod::lemma_fundamental_div_mod(m, b);
    vstd::arithmetic::div_mod::lemma_mod_bound(m, b);
    if rem == 0 {
        vstd::arithmetic::div_mod::lemma_fundamental_div_mod_converse(m + b - 1, b, q, b - 1);
    } else {
        assert(m + b - 1 == (q + 1) * b + (rem - 1)) by (nonlinear_arith)
            requires
                m == b * q + rem,
        ;
        vstd::arithmetic::div_mod::lemma_fundamental_div_mod_converse(m + b - 1, b, q + 1, rem - 1);
    }
}

/// The blocks cover `m`, and one block fewer would not.
pub proof fn lemma_ceil_div_covers(m: int, b: int)
    requires
        m >= 0,
        b > 0,
    ensures
        m <= ceil_div(m, b) * b,
        m > (ceil_div(m, b) - 1) * b,
        ceil_div(m, b) >= 0,
{
    lemma_ceil_div(m, b);
    vstd::arithmetic::div_mod::lemma_fundamental_div_mod(m, b);
    vstd::arithmetic::div_mod::lemma_mod_bound(m, b);
    let q = m / b;
    assert(q >= 0) by (nonlinear_arith)
        requires
            m >= 0,
            b > 0,
            q == m / b,
    ;
    assert(q * b == b * q) by (nonlinear_arith);
    assert((q + 1) * b == q * b + b) by (nonlinear_arith);
    assert((q - 1) * b == q * b - b) by (nonlinear_arith);
}

/// A span is positive.
pub proof fn lemma_span_positive(s: Seq<usize>)
    ensures
        span(s) >= 1,
    decreases s.len(),
{
    if s.len() > 0 {
        lemma_span_positive(s.drop_first());
        assert(max_nat(s[0] as nat, 1) * span(s.drop_first()) >= 1) by (nonlinear_arith)
            requires
                max_nat(s[0] as nat, 1) >= 1,
                span(s.drop_first()) >= 1,
        ;
    }
}

/// A span bounds the span of every suffix.
pub proof fn lemma_span_suffix(s: Seq<usize>, i: int)
    requires
        0 <= i <= s.len(),
    ensures
        span(s.skip(i)) <= span(s),
    decreases s.len(),
{
    if i == 0 {
        assert(s.skip(0) =~= s);
    } else {
        lemma_span_suffix(s.drop_first(), i - 1);
        assert(s.drop_first().skip(i - 1) =~= s.skip(i));
        lemma_span_positive(s.drop_first());
        assert(max_nat(s[0] as nat, 1) * span(s.drop_first()) >= span(s.drop_first()))
            by (nonlinear_arith)
            requires
                max_nat(s[0] as nat, 1) >= 1,
                span(s.drop_first()) >= 1,
        ;
    }
}

/// A span bounds the product.
pub proof fn lemma_product_le_span(s: Seq<usize>)
    ensures
        product(s) <= span(s),
    decreases s.len(),
{
    if s.len() > 0 {
        lemma_product_le_span(s.drop_first());
        assert(s[0] as nat * product(s.drop_first()) <= max_nat(s[0] as nat, 1) * span(
            s.drop_first(),
        )) by (nonlinear_arith)
            requires
                s[0] as nat <= max_nat(s[0] as nat, 1),
                product(s.drop_first()) <= span(s.drop_first()),
        ;
    }
}

/// A span bounds every extent.
pub proof fn lemma_extent_le_span(s: Seq<usize>, i: int)
    requires
        0 <= i < s.len(),
    ensures
        s[i] <= span(s),
{
    lemma_span_suffix(s, i);
    let t = s.skip(i);
    lemma_span_positive(t.drop_first());
    assert(t[0] <= max_nat(t[0] as nat, 1) * span(t.drop_first())) by (nonlinear_arith)
        requires
            t[0] <= max_nat(t[0] as nat, 1),
            span(t.drop_first()) >= 1,
    ;
}

/// The span of two extents.
pub proof fn lemma_span_two(a: usize, b: usize)
    ensures
        span(seq![a, b]) == max_nat(a as nat, 1) * max_nat(b as nat, 1),
        a <= span(seq![a, b]),
        b <= span(seq![a, b]),
        product(seq![a, b]) == a * b,
        a * b <= span(seq![a, b]),
{
    let s = seq![a, b];
    assert(s.drop_first() =~= seq![b]);
    assert(s.drop_first().drop_first() =~= Seq::<usize>::empty());
    let (x, y) = (max_nat(a as nat, 1), max_nat(b as nat, 1));
    assert(span(seq![b]) == y) by {
        assert(seq![b].drop_first() =~= Seq::<usize>::empty());
        assert(y * span(Seq::<usize>::empty()) == y) by (nonlinear_arith)
            requires
                span(Seq::<usize>::empty()) == 1,
        ;
    }
    assert(product(seq![b]) == b) by {
        assert(seq![b].drop_first() =~= Seq::<usize>::empty());
        assert(b as nat * product(Seq::<usize>::empty()) == b) by (nonlinear_arith)
            requires
                product(Seq::<usize>::empty()) == 1,
        ;
    }
    lemma_extent_le_span(s, 0);
    lemma_extent_le_span(s, 1);
    lemma_product_le_span(s);
}

/// The span of three extents bounds every product of some of them.
pub proof fn lemma_span_three(a: usize, b: usize, c: usize)
    ensures
        span(seq![a, b, c]) == max_nat(a as nat, 1) * (max_nat(b as nat, 1) * max_nat(
            c as nat,
            1,
        )),
        a <= span(seq![a, b, c]),
        b <= span(seq![a, b, c]),
        c <= span(seq![a, b, c]),
        a * b <= span(seq![a, b, c]),
        b * c <= span(seq![a, b, c]),
        product(seq![a, b, c]) == a * (b * c),
        a * (b * c) <= span(seq![a, b, c]),
{
    let s = seq![a, b, c];
    assert(s.drop_first() =~= seq![b, c]);
    lemma_span_two(b, c);
    lemma_extent_le_span(s, 0);
    lemma_extent_le_span(s, 1);
    lemma_extent_le_span(s, 2);
    lemma_product_le_span(s);
    lemma_suffix_fits(s, 1);
    assert(s.skip(1) =~= seq![b, c]);
    lemma_prefix_fits(s, 2);
    assert(s.take(2) =~= seq![a, b]);
    lemma_span_two(a, b);
}

/// Every suffix of extents whose span fits in a machine word has a product that fits.
pub proof fn lemma_suffix_fits(s: Seq<usize>, i: int)
    requires
        0 <= i <= s.len(),
    ensures
        product(s.skip(i)) <= span(s),
{
    lemma_span_suffix(s, i);
    lemma_product_le_span(s.skip(i));
}

/// Every prefix of extents whose span fits in a machine word has a product that fits.
pub proof fn lemma_prefix_fits(s: Seq<usize>, i: int)
    requires
        0 <= i <= s.len(),
    ensures
        product(s.take(i)) <= span(s),
{
    lemma_product_le_span(s.take(i));
    assert(s =~= s.take(i) + s.skip(i));
    lemma_span_concat(s.take(i), s.skip(i));
    lemma_span_positive(s.skip(i));
    lemma_span_positive(s.take(i));
    assert(span(s.take(i)) <= span(s.take(i)) * span(s.skip(i))) by (nonlinear_arith)
        requires
            span(s.skip(i)) >= 1,
            span(s.take(i)) >= 1,
    ;
}

/// The product of a prefix, extended by one extent.
pub proof fn lemma_product_prefix_step(s: Seq<usize>, i: int)
    requires
        0 <= i < s.len(),
    ensures
        product(s.take(i + 1)) == product(s.take(i)) * s[i] as nat,
{
    assert(s.take(i + 1) =~= s.take(i) + seq![s[i]]);
    lemma_product_concat(s.take(i), seq![s[i]]);
    assert(seq![s[i]].drop_first() =~= Seq::<usize>::empty());
    assert(product(seq![s[i]]) == s[i] as nat) by {
        assert(s[i] as nat * product(Seq::<usize>::empty()) == s[i] as nat) by (nonlinear_arith)
            requires
                product(Seq::<usize>::empty()) == 1,
        ;
    }
}

/// The product of a suffix, unfolded by one extent.
pub proof fn lemma_product_suffix_step(s: Seq<usize>, i: int)
    requires
        0 <= i < s.len(),
    ensures
        product(s.skip(i)) == s[i] as nat * product(s.skip(i + 1)),
{
    assert(s.skip(i).drop_first() =~= s.skip(i + 1));
}

/// Products multiply over concatenation.
pub proof fn lemma_product_concat(a: Seq<usize>, b: Seq<usize>)
    ensures
        product(a + b) == product(a) * product(b),
    decreases a.len(),
{
    if a.len() == 0 {
        assert(a + b =~= b);
        assert(product(a) * product(b) == product(b)) by (nonlinear_arith)
            requires
                product(a) == 1,
        ;
    } else {
        lemma_product_concat(a.drop_first(), b);
        assert((a + b).drop_first() =~= a.drop_first() + b);
        let (x, y, z) = (a[0] as nat, product(a.drop_first()), product(b));
        assert(product(a + b) == x * (y * z));
        assert(x * (y * z) == (x * y) * z) by (nonlinear_arith);
    }
}

/// Spans multiply over concatenation.
pub proof fn lemma_span_concat(a: Seq<usize>, b: Seq<usize>)
    ensures
        span(a + b) == span(a) * span(b),
    decreases a.len(),
{
    if a.len() == 0 {
        assert(a + b =~= b);
        assert(span(a) * span(b) == span(b)) by (nonlinear_arith)
            requires
                span(a) == 1,
        ;
    } else {
        lemma_span_concat(a.drop_first(), b);
        assert((a + b).drop_first() =~= a.drop_first() + b);
        let (x, y, z) = (max_nat(a[0] as nat, 1), span(a.drop_first()), span(b));
        assert(span(a + b) == x * (y * z));
        assert(x * (y * z) == (x * y) * z) by (nonlinear_arith);
    }
}

/// The product of extents, split around position `d`.
pub proof fn lemma_product_split(s: Seq<usize>, d: int)
    requires
        0 <= d < s.len(),
    ensures
        product(s) == product(s.take(d)) * (s[d] as nat * product(s.skip(d + 1))),
{
    assert(s =~= s.take(d) + s.skip(d));
    lemma_product_concat(s.take(d), s.skip(d));
    lemma_product_suffix_step(s, d);
}

/// The span of extents, split around position `d`.
pub proof fn lemma_span_split(s: Seq<usize>, d: int)
    requires
        0 <= d < s.len(),
    ensures
        span(s) == span(s.take(d)) * (max_nat(s[d] as nat, 1) * span(s.skip(d + 1))),
{
    assert(s =~= s.take(d) + s.skip(d));
    lemma_span_concat(s.take(d), s.skip(d));
    assert(s.skip(d).drop_first() =~= s.skip(d + 1));
}

/// A smaller extent makes no larger span.
pub proof fn lemma_span_update(s: Seq<usize>, d: int, v: usize)
    requires
        0 <= d < s.len(),
        v <= s[d],
    ensures
        span(s.update(d, v)) <= span(s),
{
    let t = s.update(d, v);
    lemma_span_split(s, d);
    lemma_span_split(t, d);
    assert(t.take(d) =~= s.take(d));
    assert(t.skip(d + 1) =~= s.skip(d + 1));
    let (a, b) = (span(s.take(d)), span(s.skip(d + 1)));
    let (x, y) = (max_nat(v as nat, 1), max_nat(s[d] as nat, 1));
    assert(a * (x * b) <= a * (y * b)) by (nonlinear_arith)
        requires
            x <= y,
            0 <= a,
            0 <= b,
    ;
}

/// The product of extents one of which is replaced, split around it.
pub proof fn lemma_product_update(s: Seq<usize>, d: int, v: usize)
    requires
        0 <= d < s.len(),
    ensures
        product(s.update(d, v)) == product(s.take(d)) * (v as nat * product(s.skip(d + 1))),
{
    let t = s.update(d, v);
    lemma_product_split(t, d);
    assert(t.take(d) =~= s.take(d));
    assert(t.skip(d + 1) =~= s.skip(d + 1));
}

/// A flattened index stays below the product of its extents.
pub proof fn lemma_index_bound(hi: int, lo: int, n: int, m: int)
    requires
        0 <= hi < n,
        0 <= lo < m,
    ensures
        0 <= hi * m + lo < n * m,
{
    assert(0 <= hi * m + lo < n * m) by (nonlinear_arith)
        requires
            0 <= hi < n,
            0 <= lo < m,
    ;
}

/// A flattened index divides back into its parts.
pub proof fn lemma_index_split(hi: int, lo: int, m: int)
    requires
        0 <= lo < m,
    ensures
        (hi * m + lo) / m == hi,
        (hi * m + lo) % m == lo,
{
    vstd::arithmetic::div_mod::lemma_fundamental_div_mod_converse(hi * m + lo, m, hi, lo);
}

/// The parts of a flattened index put it back together, and are in range.
pub proof fn lemma_index_join(i: int, n: int, m: int)
    requires
        0 <= i < n * m,
        m > 0,
    ensures
        (i / m) * m + i % m == i,
        0 <= i / m < n,
        0 <= i % m < m,
{
    vstd::arithmetic::div_mod::lemma_fundamental_div_mod(i, m);
    vstd::arithmetic::div_mod::lemma_mod_bound(i, m);
    assert(m * (i / m) == (i / m) * m) by (nonlinear_arith);
    assert(0 <= i / m < n) by (nonlinear_arith)
        requires
            0 <= i < n * m,
            m > 0,
            i == m * (i / m) + i % m,
            0 <= i % m < m,
    ;
}

} // verus!
