//! Tensors that are carried along from call to call, and caches that grow.

use crate::arith::{product, span};
use crate::dtype::DType;
use crate::error::{Error, Refusal, Result};
use crate::shape::{copy_dims, count};
use crate::tensor::{appendable, appended, appended_dims, within, Tensor};
use vstd::prelude::*;

verus! {

/// A tensor that a layer carries along, with the type that its elements have on the device.
#[derive(Debug)]
pub struct State<E> {
    pub dtype: DType,
    pub tensor: Tensor<E>,
}

/// What a carried tensor amounts to.
pub ghost struct StateView<E> {
    pub dtype: DType,
    pub dims: Seq<usize>,
    pub data: Seq<E>,
}

impl<E> StateView<E> {
    /// The bytes that the elements take.
    pub open spec fn bytes(self) -> nat {
        product(self.dims) * self.dtype.bytes()
    }
}

impl<E> View for State<E> {
    type V = StateView<E>;

    open spec fn view(&self) -> StateView<E> {
        StateView { dtype: self.dtype, dims: self.tensor.dims@, data: self.tensor.data@ }
    }
}

impl<E> State<E> {
    /// The tensor is well formed, and its bytes can be counted.
    pub open spec fn wf(&self) -> bool {
        self.tensor.wf() && span(self.tensor.dims@) * self.dtype.bytes() <= usize::MAX
    }

    /// The bytes that the elements take.
    pub fn size_in_bytes(&self) -> (r: usize)
        requires
            self.wf(),
        ensures
            r == self@.bytes(),
    {
        let size: usize = self.dtype.size_in_bytes();
        let elems: usize = count(self.tensor.dims.as_slice());
        proof {
            crate::arith::lemma_product_le_span(self.tensor.dims@);
            assert(elems * size <= span(self.tensor.dims@) * size) by (nonlinear_arith)
                requires
                    elems <= span(self.tensor.dims@),
                    size >= 0,
            ;
        }
        elems * size
    }
}

impl<E: Copy> State<E> {
    /// A copy that shares nothing with this one.
    pub fn copy(&self) -> (r: Self)
        requires
            self.wf(),
        ensures
            r@ == self@,
            r.wf(),
            r.tensor.backend == self.tensor.backend,
            !r.tensor.differentiable(),
    {
        State { dtype: self.dtype, tensor: self.tensor.copy() }
    }
}

/// What a tensor that may be missing amounts to.
pub open spec fn maybe<E>(o: Option<State<E>>) -> Option<StateView<E>> {
    match o {
        Some(s) => Some(s@),
        None => None,
    }
}

/// A tensor that may be missing is well formed where it is there.
pub open spec fn maybe_wf<E>(o: Option<State<E>>) -> bool {
    o matches Some(s) ==> s.wf()
}

/// The bytes of a tensor that may be missing.
pub open spec fn maybe_bytes<E>(o: Option<StateView<E>>) -> nat {
    match o {
        Some(s) => s.bytes(),
        None => 0,
    }
}

/// A copy of a tensor that may be missing.
pub fn copy_maybe<E: Copy>(o: &Option<State<E>>) -> (r: Option<State<E>>)
    requires
        maybe_wf(*o),
    ensures
        maybe(r) == maybe(*o),
        maybe_wf(r),
{
    match o {
        Some(s) => Some(s.copy()),
        None => None,
    }
}

/// The bytes of a tensor that may be missing.
pub fn count_maybe<E>(o: &Option<State<E>>) -> (r: usize)
    requires
        maybe_wf(*o),
    ensures
        r == maybe_bytes(maybe(*o)),
{
    match o {
        Some(s) => s.size_in_bytes(),
        None => 0,
    }
}

/// The keys and values of the tokens so far, which new ones are put behind.
#[derive(Debug)]
pub struct ConcatKvCache<E> {
    pub dim: usize,
    pub k: Option<State<E>>,
    pub v: Option<State<E>>,
}

/// What a cache holds once `new` is put behind what it held.
pub open spec fn grown<E>(
    after: Option<State<E>>,
    before: Option<State<E>>,
    new: State<E>,
    dim: usize,
) -> bool {
    match before {
        None => maybe(after) == Some(new@),
        Some(old) => after matches Some(s) && s.dtype == old.dtype && appended(
            s.tensor,
            old.tensor,
            new.tensor,
            dim,
        ),
    }
}

/// Why new keys or values cannot be put behind those that a cache holds.
pub open spec fn grow_refusal<E>(
    before: Option<State<E>>,
    new: State<E>,
    dim: usize,
) -> Option<Refusal> {
    match before {
        None => None,
        Some(old) => {
            let (a, b) = (old.tensor.dims@, new.tensor.dims@);
            if !appendable(a, b, dim as int) {
                Some(Refusal::Shapes { left: a, right: b, op: "cat"@ })
            } else if old.dtype != new.dtype {
                Some(Refusal::DTypes { lhs: old.dtype, rhs: new.dtype, op: "cat"@ })
            } else {
                None
            }
        },
    }
}

/// The extents of what a cache holds once `new` is put behind what it held.
pub open spec fn grown_dims<E>(before: Option<State<E>>, new: State<E>, dim: usize) -> Seq<usize> {
    match before {
        None => new.tensor.dims@,
        Some(old) => appended_dims(old.tensor.dims@, new.tensor.dims@, dim as int),
    }
}

/// What a cache would hold can be counted.
pub open spec fn growth_fits<E>(before: Option<State<E>>, new: State<E>, dim: usize) -> bool {
    &&& dim < new.tensor.dims@.len()
    &&& before matches Some(old) ==> {
        let (a, b) = (old.tensor.dims@, new.tensor.dims@);
        appendable(a, b, dim as int) ==> {
            &&& a[dim as int] + b[dim as int] <= usize::MAX
            &&& span(appended_dims(a, b, dim as int)) * old.dtype.bytes() <= usize::MAX
        }
    }
}

/// A tensor with `new` put behind it.
pub fn put_behind<E: Copy>(old: &State<E>, new: &State<E>, dim: usize) -> (r: Result<State<E>>)
    requires
        old.wf(),
        new.wf(),
        growth_fits(Some(*old), *new, dim),
    ensures
        match grow_refusal(Some(*old), *new, dim) {
            Some(why) => r matches Err(e) && why.is(e),
            None => r matches Ok(s) && grown(Some(s), Some(*old), *new, dim) && s.wf(),
        },
{
    if old.tensor.dims.len() != new.tensor.dims.len() {
        return Err(
            Error::ShapeMismatchBinaryOp {
                lhs: copy_dims(old.tensor.dims.as_slice()),
                rhs: copy_dims(new.tensor.dims.as_slice()),
                op: "cat",
            },
        );
    }
    proof {
        let (a, b) = (old.tensor.dims@, new.tensor.dims@);
        if appendable(a, b, dim as int) {
            let s = span(appended_dims(a, b, dim as int));
            let size = old.dtype.bytes();
            assert(s <= s * size) by (nonlinear_arith)
                requires
                    size >= 1,
                    s >= 0,
            ;
        }
    }
    let tensor: Tensor<E> = old.tensor.append(&new.tensor, dim)?;
    if old.dtype != new.dtype {
        return Err(Error::DTypeMismatchBinaryOp { lhs: old.dtype, rhs: new.dtype, op: "cat" });
    }
    Ok(State { dtype: old.dtype, tensor })
}

/// What a cache holds once `new` is put behind what it held.
fn grow<E: Copy>(before: &Option<State<E>>, new: &State<E>, dim: usize) -> (r: Result<State<E>>)
    requires
        maybe_wf(*before),
        new.wf(),
        growth_fits(*before, *new, dim),
    ensures
        match grow_refusal(*before, *new, dim) {
            Some(why) => r matches Err(e) && why.is(e),
            None => r matches Ok(s) && grown(Some(s), *before, *new, dim) && s.wf(),
        },
{
    match before {
        None => Ok(new.copy()),
        Some(old) => put_behind(old, new, dim),
    }
}

/// What putting keys and values behind those that a cache holds hands back and leaves in it.
pub open spec fn append_outcome<E>(
    r: Result<()>,
    before: ConcatKvCache<E>,
    after: ConcatKvCache<E>,
    k: State<E>,
    v: State<E>,
) -> bool {
    match grow_refusal(before.k, k, before.dim) {
        Some(why) => r matches Err(e) && why.is(e) && after == before,
        None => {
            &&& grown(after.k, before.k, k, before.dim)
            &&& match grow_refusal(before.v, v, before.dim) {
                Some(why) => r matches Err(e) && why.is(e) && after.v == before.v,
                None => r is Ok && grown(after.v, before.v, v, before.dim),
            }
        },
    }
}

/// How many positions are held along a dimension.
pub open spec fn held<E>(s: Option<State<E>>, dim: usize) -> int {
    match s {
        Some(s) => s.tensor.dims@[dim as int] as int,
        None => 0,
    }
}

/// `after` holds what `before` held, and `new` behind it along a dimension.
pub open spec fn holds_behind<E>(
    after: Option<State<E>>,
    before: Option<State<E>>,
    new: State<E>,
    dim: usize,
) -> bool {
    let d = dim as int;
    &&& after matches Some(s) && {
        &&& s.tensor.dims@.len() == new.tensor.dims@.len()
        &&& s.tensor.dims@[d] == held(before, dim) + new.tensor.dims@[d]
        &&& forall|o: int, i: int, t: int|
            within(new.tensor.dims@, d, o, i, t) ==> #[trigger] new.tensor.along(d, o, i, t)
                == s.tensor.along(d, o, held(before, dim) + i, t)
        &&& before matches Some(old) ==> forall|o: int, i: int, t: int|
            within(old.tensor.dims@, d, o, i, t) ==> #[trigger] old.tensor.along(d, o, i, t)
                == s.tensor.along(d, o, i, t)
    }
}

/// What has grown holds what it held, and what is new behind it.
pub proof fn lemma_grown_holds<E>(
    after: Option<State<E>>,
    before: Option<State<E>>,
    new: State<E>,
    dim: usize,
)
    requires
        grown(after, before, new, dim),
        grow_refusal(before, new, dim) is None,
        dim < new.tensor.dims@.len(),
        growth_fits(before, new, dim),
    ensures
        holds_behind(after, before, new, dim),
{
    let d = dim as int;
    let s = after->Some_0;
    match before {
        None => {
            assert(s@ == new@);
        },
        Some(old) => {
            let (a, b, c) = (old.tensor.dims@, new.tensor.dims@, s.tensor.dims@);
            assert(a.take(d) =~= c.take(d) && b.take(d) =~= c.take(d));
            assert(a.skip(d + 1) =~= c.skip(d + 1) && b.skip(d + 1) =~= c.skip(d + 1));
            let n = a[d] as int;
            assert forall|o: int, i: int, t: int| within(b, d, o, i, t) implies #[trigger] new.tensor.along(
                d,
                o,
                i,
                t,
            ) == s.tensor.along(d, o, n + i, t) by {
                assert(within(c, d, o, n + i, t));
            }
            assert forall|o: int, i: int, t: int| within(a, d, o, i, t) implies #[trigger] old.tensor.along(
                d,
                o,
                i,
                t,
            ) == s.tensor.along(d, o, i, t) by {
                assert(within(c, d, o, i, t));
            }
        },
    }
}

/// Keys are kept behind the keys and values behind the values: what was put in can be read back from
/// where its own kind was at its end, and what was there before is where it was.
pub proof fn law_keys_and_values_are_kept<E>(
    before: ConcatKvCache<E>,
    after: ConcatKvCache<E>,
    k: State<E>,
    v: State<E>,
)
    requires
        append_outcome(Ok(()), before, after, k, v),
        before.dim < k.tensor.dims@.len(),
        before.dim < v.tensor.dims@.len(),
        growth_fits(before.k, k, before.dim),
        growth_fits(before.v, v, before.dim),
    ensures
        holds_behind(after.k, before.k, k, before.dim),
        holds_behind(after.v, before.v, v, before.dim),
{
    lemma_grown_holds(after.k, before.k, k, before.dim);
    lemma_grown_holds(after.v, before.v, v, before.dim);
}

impl<E: Copy> ConcatKvCache<E> {
    /// An empty cache, which grows along a dimension.
    pub fn new(dim: usize) -> (r: Self)
        ensures
            r == (ConcatKvCache::<E> { dim, k: None, v: None }),
    {
        ConcatKvCache { dim, k: None, v: None }
    }

    /// What is held is well formed.
    pub open spec fn wf(&self) -> bool {
        maybe_wf(self.k) && maybe_wf(self.v)
    }

    /// Forgets all tokens.
    pub fn reset(&mut self)
        ensures
            *final(self) == (ConcatKvCache::<E> { dim: old(self).dim, k: None, v: None }),
    {
        self.k = None;
        self.v = None;
    }

    /// Puts the keys and values of new tokens behind those so far. Keys that do not fit leave
    /// everything as it was; values that do not fit are found out after the keys were taken.
    pub fn append(&mut self, k: &State<E>, v: &State<E>) -> (r: Result<()>)
        requires
            old(self).wf(),
            k.wf(),
            v.wf(),
            growth_fits(old(self).k, *k, old(self).dim),
            growth_fits(old(self).v, *v, old(self).dim),
        ensures
            final(self).wf(),
            final(self).dim == old(self).dim,
            append_outcome(r, *old(self), *final(self), *k, *v),
    {
        let keys: State<E> = grow(&self.k, k, self.dim)?;
        self.k = Some(keys);
        let values: State<E> = grow(&self.v, v, self.dim)?;
        self.v = Some(values);
        Ok(())
    }
}

/// Keys or values that come in two steps are kept as if they came in one.
pub proof fn law_growth_in_steps<E>(
    before: Option<State<E>>,
    a: State<E>,
    b: State<E>,
    ab: State<E>,
    first: Option<State<E>>,
    second: Option<State<E>>,
    whole: Option<State<E>>,
    dim: usize,
)
    requires
        dim < a.tensor.dims@.len(),
        a.tensor.wf(),
        appendable(a.tensor.dims@, b.tensor.dims@, dim as int),
        before matches Some(s) ==> appendable(s.tensor.dims@, a.tensor.dims@, dim as int)
            && s.tensor.dims@[dim as int] + a.tensor.dims@[dim as int] + b.tensor.dims@[dim as int]
            <= usize::MAX,
        a.tensor.dims@[dim as int] + b.tensor.dims@[dim as int] <= usize::MAX,
        ab.dtype == a.dtype,
        appended(ab.tensor, a.tensor, b.tensor, dim),
        grown(first, before, a, dim),
        grown(second, first, b, dim),
        grown(whole, before, ab, dim),
    ensures
        maybe(second) == maybe(whole),
{
    let d = dim as int;
    let (s1, s2, sw) = (first->Some_0, second->Some_0, whole->Some_0);
    match before {
        Some(s) => {
            crate::tensor::law_appending_in_steps(
                s.tensor,
                a.tensor,
                b.tensor,
                ab.tensor,
                s1.tensor,
                s2.tensor,
                sw.tensor,
                dim,
            );
        },
        None => {
            let (x, y) = (s2.tensor, ab.tensor);
            assert(x.dims@ =~= y.dims@);
            assert forall|o: int, i: int, t: int|
                crate::tensor::within(x.dims@, d, o, i, t) implies #[trigger] x.along(d, o, i, t)
                == y.along(d, o, i, t) by {
                assert(y.along(d, o, i, t) == if i < a.tensor.dims@[d] {
                    a.tensor.along(d, o, i, t)
                } else {
                    b.tensor.along(d, o, i - a.tensor.dims@[d], t)
                });
            }
            crate::tensor::lemma_same_elements(x, y, d);
        },
    }
}

} // verus!
