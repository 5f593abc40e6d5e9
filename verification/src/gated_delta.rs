//! The fused gated delta recurrence over a whole sequence, as one launch.
//!
//! The recurrence has six inputs and two outputs. Both outputs are written into one packed buffer,
//! the sequence first and the final state behind it, and are cut out of it without a copy.

use crate::arith::span;
use crate::dtype::DType;
use crate::error::{first_of, Error, Refusal, Result};
use crate::kernels::gated_delta::{call_gated_delta, gated_delta_outcome};
use crate::kernels::launch::{Arg, Dispatch, Launch, Source};
use crate::shape::{Layout, Shape};
use crate::text::{list, list_text};
use vstd::prelude::*;
use vstd::string::*;

verus! {

/// Where a tensor's elements are.
#[derive(Debug, Clone, Copy, PartialEq, Eq, Structural)]
pub enum Location {
    Cpu,
    Metal,
}

/// What is known of an operand without reading it.
#[derive(Debug)]
pub struct Operand {
    pub location: Location,
    pub dtype: DType,
    pub layout: Layout,
}

/// A part in the launch that a buffer plays.
#[derive(Debug, Clone, Copy, PartialEq, Eq, Structural)]
pub enum Part {
    Q,
    K,
    V,
    G,
    Beta,
    StateIn,
    /// Both outputs, one behind the other.
    Packed,
}

/// Three operands of the recurrence and the elements of its first output. The queries, keys and
/// values are given to it.
#[derive(Debug)]
pub struct GatedDelta {
    pub g: Operand,
    pub beta: Operand,
    pub state_in: Operand,
    /// Where the final state starts in the packed output.
    pub y_elems: usize,
}

/// A range of the packed output, with the extents of what it holds.
#[derive(Debug)]
pub struct Output {
    pub start: usize,
    pub len: usize,
    pub dims: Vec<usize>,
}

/// The launch, and where its outputs are in the packed buffer.
#[derive(Debug)]
pub struct Recurrence {
    pub launch: Launch<'static, Part>,
    /// The elements of the packed buffer.
    pub packed_elems: usize,
    pub y: Output,
    pub state_out: Output,
}

/// What is known of an operand, as far as it matters here.
pub ghost struct Given {
    pub location: Location,
    pub dtype: DType,
    pub dims: Seq<usize>,
    /// The elements lie densely packed.
    pub dense: bool,
    /// The element at which they start.
    pub start: usize,
}

impl View for Operand {
    type V = Given;

    open spec fn view(&self) -> Given {
        Given {
            location: self.location,
            dtype: self.dtype,
            dims: self.layout.shape@,
            dense: self.layout.dense(),
            start: self.layout.start_offset,
        }
    }
}

/// The operands that ride along, as far as they matter here.
pub ghost struct GivenSide {
    pub g: Given,
    pub beta: Given,
    pub state_in: Given,
    pub y_elems: usize,
}

impl View for GatedDelta {
    type V = GivenSide;

    open spec fn view(&self) -> GivenSide {
        GivenSide {
            g: self.g@,
            beta: self.beta@,
            state_in: self.state_in@,
            y_elems: self.y_elems,
        }
    }
}

/// An argument is not contiguous.
pub open spec fn contiguity(name: Seq<char>, o: Given) -> Option<Refusal> {
    if !o.dense {
        Some(Refusal::Says("gated_delta: "@ + name + " must be contiguous"@))
    } else {
        None
    }
}

/// An operand is not of 32-bit floats.
pub open spec fn floats(name: Seq<char>, dtype: DType) -> Option<Refusal> {
    if dtype != DType::F32 {
        Some(
            Refusal::Says("gated_delta: "@ + name + " must be f32, got "@ + dtype.label()),
        )
    } else {
        None
    }
}

/// A shape has another rank.
pub open spec fn rank(o: Given, expected: usize) -> Option<Refusal> {
    if o.dims.len() != expected {
        Some(Refusal::Rank { expected, got: o.dims.len() as usize })
    } else {
        None
    }
}

/// An operand besides the arguments is somewhere else, or is not contiguous.
pub open spec fn placement(o: Given) -> Option<Refusal> {
    if o.location != Location::Metal {
        Some(Refusal::Says("gated_delta: expected a metal tensor"@))
    } else if !o.dense {
        Some(Refusal::Says("gated_delta: inputs must be contiguous"@))
    } else {
        None
    }
}

/// A condition does not hold.
pub open spec fn unless(ok: bool, text: Seq<char>) -> Option<Refusal> {
    if ok {
        None
    } else {
        Some(Refusal::Says(text))
    }
}

/// Why extents are not those that follow from the queries'.
pub open spec fn expected_text(
    name: Seq<char>,
    dims: Seq<usize>,
    expected: Seq<usize>,
) -> Seq<char> {
    "gated_delta: "@ + name + " "@ + list_text(dims) + ", expected "@ + list_text(expected)
}

/// Why the queries, keys and values are turned down, if they are.
pub open spec fn argument_refusal(q: Given, k: Given, v: Given) -> Option<Refusal> {
    let (qs, ks, vs) = (q.dims, k.dims, v.dims);
    let k_text = "gated_delta: k "@ + list_text(ks) + " must match q "@ + list_text(qs);
    let v_text = "gated_delta: v "@ + list_text(vs) + " disagrees with q "@ + list_text(qs);
    let layouts = first_of(
        contiguity("q"@, q),
        first_of(contiguity("k"@, k), contiguity("v"@, v)),
    );
    let dtypes = first_of(
        floats("q"@, q.dtype),
        first_of(floats("k"@, k.dtype), floats("v"@, v.dtype)),
    );
    let keys = first_of(
        rank(q, 4),
        first_of(rank(k, 4), unless(ks == qs, k_text)),
    );
    let values = first_of(rank(v, 4), unless(vs.take(3) == qs.take(3), v_text));
    first_of(layouts, first_of(dtypes, first_of(keys, values)))
}

/// Why the other operands are turned down, if they are.
pub open spec fn side_refusal(op: GivenSide, q: Given, v: Given) -> Option<Refusal> {
    let (qs, vs) = (q.dims, v.dims);
    let (gs, bs, ss) = (op.g.dims, op.beta.dims, op.state_in.dims);
    let step = seq![qs[0], qs[1], qs[2]];
    let state = seq![qs[0], qs[2], qs[3], vs[3]];
    let places = first_of(
        placement(op.g),
        first_of(placement(op.beta), placement(op.state_in)),
    );
    let steps = first_of(
        first_of(rank(op.g, 3), unless(gs == step, expected_text("g"@, gs, step))),
        first_of(rank(op.beta, 3), unless(bs == step, expected_text("beta"@, bs, step))),
    );
    let states = first_of(
        rank(op.state_in, 4),
        unless(ss == state, expected_text("state_in"@, ss, state)),
    );
    let dtypes = first_of(
        floats("g"@, op.g.dtype),
        first_of(floats("beta"@, op.beta.dtype), floats("state_in"@, op.state_in.dtype)),
    );
    let elems = unless(
        qs[0] * qs[1] * qs[2] * vs[3] == op.y_elems,
        "gated_delta: internal y_elems mismatch"@,
    );
    first_of(places, first_of(steps, first_of(states, first_of(dtypes, elems))))
}

/// Why the operands of the recurrence are turned down, if they are.
pub open spec fn refusal(op: GivenSide, q: Given, k: Given, v: Given) -> Option<Refusal> {
    first_of(argument_refusal(q, k, v), side_refusal(op, q, v))
}

/// What is read of an operand starts where its layout does, in bytes of 32-bit floats.
pub open spec fn part(p: Part, o: Given) -> (Part, usize) {
    (p, (o.start * 4) as usize)
}

/// What the recurrence reads and writes can be addressed in bytes.
pub open spec fn addressable(op: GivenSide, q: Given, k: Given, v: Given) -> bool {
    let (qs, vs) = (q.dims, v.dims);
    &&& q.start * 4 <= usize::MAX
    &&& k.start * 4 <= usize::MAX
    &&& v.start * 4 <= usize::MAX
    &&& op.g.start * 4 <= usize::MAX
    &&& op.beta.start * 4 <= usize::MAX
    &&& op.state_in.start * 4 <= usize::MAX
    &&& qs.len() == 4 && vs.len() == 4 ==> (span(seq![qs[0], qs[1], qs[2], vs[3]]) + span(
        seq![qs[0], qs[2], qs[3], vs[3]],
    )) * 4 <= usize::MAX
}

/// Words the refusal of one operand by name.
fn named(name: &str, what: &str) -> (r: Error)
    ensures
        r.says("gated_delta: "@ + name@ + what@),
{
    let mut text: String = "gated_delta: ".to_owned();
    text.append(name);
    text.append(what);
    Error::Msg(text)
}

/// Refuses an argument that is not contiguous.
fn check_contiguous(name: &str, o: &Operand) -> (r: Result<()>)
    requires
        o.layout.wf(),
    ensures
        match contiguity(name@, o@) {
            Some(why) => r matches Err(e) && why.is(e),
            None => r is Ok,
        },
{
    if o.layout.is_contiguous() {
        Ok(())
    } else {
        Err(named(name, " must be contiguous"))
    }
}

/// Refuses an operand that is not of 32-bit floats.
fn check_floats(name: &str, dtype: DType) -> (r: Result<()>)
    ensures
        match floats(name@, dtype) {
            Some(why) => r matches Err(e) && why.is(e),
            None => r is Ok,
        },
{
    if dtype == DType::F32 {
        Ok(())
    } else {
        let mut text: String = "gated_delta: ".to_owned();
        text.append(name);
        text.append(" must be f32, got ");
        text.append(dtype.name());
        Err(Error::Msg(text))
    }
}

/// Refuses an operand that is somewhere else, or is not contiguous.
fn metal_storage_of(o: &Operand) -> (r: Result<()>)
    requires
        o.layout.wf(),
    ensures
        match placement(o@) {
            Some(why) => r matches Err(e) && why.is(e),
            None => r is Ok,
        },
{
    if o.location != Location::Metal {
        return Err(Error::Msg("gated_delta: expected a metal tensor".to_owned()));
    }
    if !o.layout.is_contiguous() {
        return Err(Error::Msg("gated_delta: inputs must be contiguous".to_owned()));
    }
    Ok(())
}

/// Words the refusal of extents that are not those expected.
fn unexpected(name: &str, dims: &[usize], expected: &[usize]) -> (r: Error)
    ensures
        r.says(expected_text(name@, dims@, expected@)),
{
    let mut text: String = "gated_delta: ".to_owned();
    text.append(name);
    text.append(" ");
    text.append(list(dims).as_str());
    text.append(", expected ");
    text.append(list(expected).as_str());
    Error::Msg(text)
}

/// Words the disagreement of two operands.
fn disagreement(head: &str, dims: &[usize], middle: &str, q: &[usize]) -> (r: Error)
    ensures
        r.says(head@ + list_text(dims@) + middle@ + list_text(q@)),
{
    let mut text: String = head.to_owned();
    text.append(list(dims).as_str());
    text.append(middle);
    text.append(list(q).as_str());
    Error::Msg(text)
}

/// The same extents, in the same order.
fn same_dims(a: &[usize], b: &[usize]) -> (r: bool)
    ensures
        r == (a@ == b@),
{
    if a.len() != b.len() {
        return false;
    }
    let mut i: usize = 0;
    while i < a.len()
        invariant
            i <= a.len(),
            a@.len() == b@.len(),
            forall|j: int| 0 <= j < i ==> a@[j] == b@[j],
        decreases a.len() - i,
    {
        if a[i] != b[i] {
            return false;
        }
        i = i + 1;
    }
    assert(a@ =~= b@);
    true
}

/// The operands have layouts that can be counted.
pub open spec fn countable(op: GatedDelta, q: Operand, k: Operand, v: Operand) -> bool {
    &&& q.layout.wf()
    &&& k.layout.wf()
    &&& v.layout.wf()
    &&& op.g.layout.wf()
    &&& op.beta.layout.wf()
    &&& op.state_in.layout.wf()
}

/// What the recurrence hands back for operands that are on the device: the launch and the
/// elements of the packed output.
pub open spec fn metal_outcome(
    r: Result<(Launch<'static, Part>, usize)>,
    op: GivenSide,
    q: Given,
    k: Given,
    v: Given,
) -> bool {
    let (qs, vs) = (q.dims, v.dims);
    let (b, t, h, dk, dv) = (qs[0], qs[1], qs[2], qs[3], vs[3]);
    match refusal(op, q, k, v) {
        Some(why) => r matches Err(e) && why.is(e),
        None => {
            let parts = (
                part(Part::Q, q),
                part(Part::K, k),
                part(Part::V, v),
                part(Part::G, op.g),
                part(Part::Beta, op.beta),
                part(Part::StateIn, op.state_in),
            );
            let y = (Part::Packed, 0usize);
            let state = (Part::Packed, (op.y_elems * 4) as usize);
            match r {
                Ok((launch, elems)) => elems == op.y_elems + b * h * dk * dv && gated_delta_outcome(
                    Ok(launch),
                    b,
                    t,
                    h,
                    dk,
                    dv,
                    parts.0,
                    parts.1,
                    parts.2,
                    parts.3,
                    parts.4,
                    parts.5,
                    y,
                    state,
                ),
                Err(Error::Metal(e)) => gated_delta_outcome(
                    Err(e),
                    b,
                    t,
                    h,
                    dk,
                    dv,
                    parts.0,
                    parts.1,
                    parts.2,
                    parts.3,
                    parts.4,
                    parts.5,
                    y,
                    state,
                ),
                Err(_) => false,
            }
        },
    }
}

/// The products of four extents, multiplied from the left.
proof fn lemma_four(a: usize, b: usize, c: usize, d: usize)
    ensures
        a * b <= span(seq![a, b, c, d]),
        a * b * c <= span(seq![a, b, c, d]),
        a * b * c * d <= span(seq![a, b, c, d]),
{
    let s = seq![a, b, c, d];
    crate::arith::lemma_prefix_fits(s, 2);
    crate::arith::lemma_prefix_fits(s, 3);
    crate::arith::lemma_prefix_fits(s, 4);
    assert(s.take(2) =~= seq![a, b]);
    crate::arith::lemma_span_two(a, b);
    crate::arith::lemma_product_prefix_step(s, 2);
    crate::arith::lemma_product_prefix_step(s, 3);
}

impl GatedDelta {
    /// The name of the operation.
    pub fn name(&self) -> (r: &'static str)
        ensures
            r@ == "metal-gated-delta"@,
    {
        "metal-gated-delta"
    }

    /// There is no evaluation on the host on purpose: whoever measures the fused recurrence would
    /// measure another one without knowing.
    pub fn cpu_fwd(&self) -> (r: Result<(Launch<'static, Part>, usize)>)
        ensures
            r matches Err(e) && e.says(
                "gated_delta has no cpu impl; use the chunked scan on CPU"@,
            ),
    {
        Err(Error::Msg("gated_delta has no cpu impl; use the chunked scan on CPU".to_owned()))
    }

    /// The launch for operands that are on the device, and the elements of its packed output.
    pub fn metal_fwd(&self, q: &Operand, k: &Operand, v: &Operand) -> (r: Result<
        (Launch<'static, Part>, usize),
    >)
        requires
            countable(*self, *q, *k, *v),
            addressable(self@, q@, k@, v@),
        ensures
            metal_outcome(r, self@, q@, k@, v@),
    {
        check_contiguous("q", q)?;
        check_contiguous("k", k)?;
        check_contiguous("v", v)?;
        check_floats("q", q.dtype)?;
        check_floats("k", k.dtype)?;
        check_floats("v", v.dtype)?;
        let (b, t, h, dk) = q.layout.shape.dims4()?;
        k.layout.shape.dims4()?;
        if !same_dims(k.layout.dims(), q.layout.dims()) {
            return Err(
                disagreement("gated_delta: k ", k.layout.dims(), " must match q ", q.layout.dims()),
            );
        }
        let (vb, vt, vh, dv) = v.layout.shape.dims4()?;
        let ghost (qs, vs) = (q.layout.shape@, v.layout.shape@);
        if vb != b || vt != t || vh != h {
            assert(vs.take(3) != qs.take(3)) by {
                assert(vs.take(3)[0] == vb && vs.take(3)[1] == vt && vs.take(3)[2] == vh);
                assert(qs.take(3)[0] == b && qs.take(3)[1] == t && qs.take(3)[2] == h);
            }
            return Err(
                disagreement(
                    "gated_delta: v ",
                    v.layout.dims(),
                    " disagrees with q ",
                    q.layout.dims(),
                ),
            );
        }
        assert(vs.take(3) =~= qs.take(3));
        assert(argument_refusal(q@, k@, v@) is None);
        metal_storage_of(&self.g)?;
        metal_storage_of(&self.beta)?;
        metal_storage_of(&self.state_in)?;
        let step: Vec<usize> = vec![b, t, h];
        assert(step@ =~= seq![qs[0], qs[1], qs[2]]);
        self.g.layout.shape.dims3()?;
        if !same_dims(self.g.layout.dims(), step.as_slice()) {
            return Err(unexpected("g", self.g.layout.dims(), step.as_slice()));
        }
        self.beta.layout.shape.dims3()?;
        if !same_dims(self.beta.layout.dims(), step.as_slice()) {
            return Err(unexpected("beta", self.beta.layout.dims(), step.as_slice()));
        }
        let state: Vec<usize> = vec![b, h, dk, dv];
        assert(state@ =~= seq![qs[0], qs[2], qs[3], vs[3]]);
        self.state_in.layout.shape.dims4()?;
        if !same_dims(self.state_in.layout.dims(), state.as_slice()) {
            return Err(unexpected("state_in", self.state_in.layout.dims(), state.as_slice()));
        }
        check_floats("g", self.g.dtype)?;
        check_floats("beta", self.beta.dtype)?;
        check_floats("state_in", self.state_in.dtype)?;
        proof {
            lemma_four(b, t, h, dv);
            lemma_four(b, h, dk, dv);
        }
        let y_elems: usize = b * t * h * dv;
        let state_elems: usize = b * h * dk * dv;
        if y_elems != self.y_elems {
            return Err(Error::Msg("gated_delta: internal y_elems mismatch".to_owned()));
        }
        assert(refusal(self@, q@, k@, v@) is None);
        match call_gated_delta(
            b,
            t,
            h,
            dk,
            dv,
            (Part::Q, q.layout.start_offset * 4),
            (Part::K, k.layout.start_offset * 4),
            (Part::V, v.layout.start_offset * 4),
            (Part::G, self.g.layout.start_offset * 4),
            (Part::Beta, self.beta.layout.start_offset * 4),
            (Part::StateIn, self.state_in.layout.start_offset * 4),
            (Part::Packed, 0),
            (Part::Packed, y_elems * 4),
        ) {
            Ok(launch) => Ok((launch, y_elems + state_elems)),
            Err(e) => Err(Error::Metal(e)),
        }
    }
}

/// The contiguous form of an operand: the same one where it is contiguous already, and otherwise
/// a copy that starts where its allocation does.
pub open spec fn packed(o: Given) -> Given {
    Given {
        dense: true,
        start: if o.dense {
            o.start
        } else {
            0
        },
        ..o
    }
}

impl Operand {
    /// The contiguous form of this operand.
    pub fn contiguous(&self) -> (r: Operand)
        requires
            self.layout.wf(),
        ensures
            r@ == packed(self@),
            r.layout.wf(),
    {
        let shape: Shape = Shape::from_dims(self.layout.dims());
        let mut layout: Layout = Layout::contiguous(shape);
        if self.layout.is_contiguous() {
            layout = Layout {
                shape: layout.shape,
                stride: layout.stride,
                start_offset: self.layout.start_offset,
            };
        }
        Operand { location: self.location, dtype: self.dtype, layout }
    }
}

/// The operands that ride along, given to the recurrence in their contiguous form.
pub open spec fn packed_side(g: Given, beta: Given, state_in: Given, y_elems: usize) -> GivenSide {
    GivenSide { g: packed(g), beta: packed(beta), state_in: packed(state_in), y_elems }
}

/// What `gated_delta` hands back.
pub open spec fn recurrence_outcome(
    r: Result<Recurrence>,
    q: Given,
    k: Given,
    v: Given,
    g: Given,
    beta: Given,
    state_in: Given,
) -> bool {
    if q.dims.len() != 4 {
        r == Err::<Recurrence, Error>(
            Error::UnexpectedNumberOfDims { expected: 4, got: q.dims.len() as usize },
        )
    } else if v.dims.len() <= 3 {
        r == Err::<Recurrence, Error>(
            Error::DimOutOfRange { dim: 3, rank: v.dims.len() as usize },
        )
    } else if state_in.dims.len() <= 2 {
        r == Err::<Recurrence, Error>(
            Error::DimOutOfRange { dim: 2, rank: state_in.dims.len() as usize },
        )
    } else if k.location != q.location || v.location != q.location {
        r matches Err(Error::DeviceMismatchBinaryOp { op }) && op@ == "metal-gated-delta"@
    } else if q.location == Location::Cpu {
        r matches Err(e) && e.says("gated_delta has no cpu impl; use the chunked scan on CPU"@)
    } else {
        let (b, t, h) = (q.dims[0], q.dims[1], q.dims[2]);
        let (dk, dv) = (state_in.dims[2], v.dims[3]);
        let (y, s) = (b * t * h * dv, b * h * dk * dv);
        let side = packed_side(g, beta, state_in, y as usize);
        match r {
            Ok(c) => {
                &&& metal_outcome(
                    Ok((c.launch, c.packed_elems)),
                    side,
                    packed(q),
                    packed(k),
                    packed(v),
                )
                &&& c.y.start == 0
                &&& c.y.len == y
                &&& c.y.dims@ == seq![b, t, h, dv]
                &&& c.state_out.start == y
                &&& c.state_out.len == s
                &&& c.state_out.dims@ == seq![b, h, dk, dv]
            },
            Err(e) => metal_outcome(Err(e), side, packed(q), packed(k), packed(v)),
        }
    }
}

/// What `gated_delta` computes fits in a machine word.
pub open spec fn recurrence_countable(q: Given, k: Given, v: Given, state_in: Given) -> bool {
    q.dims.len() == 4 && v.dims.len() > 3 && state_in.dims.len() > 2 ==> {
        let (b, t, h) = (q.dims[0], q.dims[1], q.dims[2]);
        let (dk, dv) = (state_in.dims[2], v.dims[3]);
        &&& (span(seq![b, t, h, dv]) + span(seq![b, h, dk, dv])) * 4 <= usize::MAX
        &&& (span(seq![b, t, h, dv]) + span(seq![b, h, q.dims[3], dv])) * 4 <= usize::MAX
    }
}

/// One fused launch of the gated delta recurrence over all steps.
///
/// The head counts of queries, keys and values are the same. The queries are scaled already and
/// the queries and keys normalized, and `g` is the decay itself:
///
/// - `q` and `k` are `[b, t, h, dk]`, and `v` is `[b, t, h, dv]`;
/// - `g` and `beta` are `[b, t, h]`;
/// - `state_in` is `[b, h, dk, dv]`.
///
/// The outputs are `[b, t, h, dv]` and the final state, `[b, h, dk, dv]`.
pub fn gated_delta(
    q: &Operand,
    k: &Operand,
    v: &Operand,
    g: &Operand,
    beta: &Operand,
    state_in: &Operand,
) -> (r: Result<Recurrence>)
    requires
        q.layout.wf(),
        k.layout.wf(),
        v.layout.wf(),
        g.layout.wf(),
        beta.layout.wf(),
        state_in.layout.wf(),
        q.layout.start_offset * 4 <= usize::MAX,
        k.layout.start_offset * 4 <= usize::MAX,
        v.layout.start_offset * 4 <= usize::MAX,
        g.layout.start_offset * 4 <= usize::MAX,
        beta.layout.start_offset * 4 <= usize::MAX,
        state_in.layout.start_offset * 4 <= usize::MAX,
        recurrence_countable(q@, k@, v@, state_in@),
    ensures
        recurrence_outcome(r, q@, k@, v@, g@, beta@, state_in@),
{
    let (b, t, h, _dk) = q.layout.shape.dims4()?;
    let v_dims: &[usize] = v.layout.dims();
    if v_dims.len() <= 3 {
        return Err(Error::DimOutOfRange { dim: 3, rank: v_dims.len() });
    }
    let dv: usize = v_dims[3];
    let state_dims: &[usize] = state_in.layout.dims();
    if state_dims.len() <= 2 {
        return Err(Error::DimOutOfRange { dim: 2, rank: state_dims.len() });
    }
    let dk: usize = state_dims[2];
    proof {
        lemma_four(b, t, h, dv);
        lemma_four(b, h, dk, dv);
    }
    let y_elems: usize = b * t * h * dv;
    let state_elems: usize = b * h * dk * dv;
    let op: GatedDelta = GatedDelta {
        g: g.contiguous(),
        beta: beta.contiguous(),
        state_in: state_in.contiguous(),
        y_elems,
    };
    let (q, k, v) = (q.contiguous(), k.contiguous(), v.contiguous());
    if k.location != q.location || v.location != q.location {
        return Err(Error::DeviceMismatchBinaryOp { op: op.name() });
    }
    let packed: Result<(Launch<'static, Part>, usize)> = match q.location {
        Location::Cpu => op.cpu_fwd(),
        Location::Metal => op.metal_fwd(&q, &k, &v),
    };
    let (launch, packed_elems) = packed?;
    let y_dims: Vec<usize> = vec![b, t, h, dv];
    let state_out_dims: Vec<usize> = vec![b, h, dk, dv];
    assert(y_dims@ =~= seq![b, t, h, dv]);
    assert(state_out_dims@ =~= seq![b, h, dk, dv]);
    Ok(
        Recurrence {
            launch,
            packed_elems,
            y: Output { start: 0, len: y_elems, dims: y_dims },
            state_out: Output { start: y_elems, len: state_elems, dims: state_out_dims },
        },
    )
}

/// The two outputs are all of the packed buffer, one behind the other, and each holds as many
/// elements as its extents say. The kernel writes the state where the second one starts.
pub proof fn law_outputs_partition_packed(
    c: Recurrence,
    q: Given,
    k: Given,
    v: Given,
    g: Given,
    beta: Given,
    state_in: Given,
)
    requires
        recurrence_outcome(Ok(c), q, k, v, g, beta, state_in),
        recurrence_countable(q, k, v, state_in),
    ensures
        c.y.start == 0,
        c.state_out.start == c.y.len,
        c.state_out.start + c.state_out.len == c.packed_elems,
        c.y.len == crate::arith::product(c.y.dims@),
        c.state_out.len == crate::arith::product(c.state_out.dims@),
        c.launch.args@[6] == (crate::kernels::launch::Arg::Output(Part::Packed, 0usize)),
        c.launch.args@[7] == (crate::kernels::launch::Arg::Output(
            Part::Packed,
            (c.state_out.start * 4) as usize,
        )),
{
    let (b, t, h) = (q.dims[0], q.dims[1], q.dims[2]);
    let (dk, dv) = (state_in.dims[2], v.dims[3]);
    lemma_four(b, t, h, dv);
    lemma_four(b, h, dk, dv);
    let (y, s) = (seq![b, t, h, dv], seq![b, h, dk, dv]);
    crate::conv2d::lemma_product_four(y);
    crate::conv2d::lemma_product_four(s);
    assert(b * t * h * dv == b * (t * (h * dv))) by (nonlinear_arith);
    assert(b * h * dk * dv == b * (h * (dk * dv))) by (nonlinear_arith);
    let side = packed_side(g, beta, state_in, (b * t * h * dv) as usize);
    assert(refusal(side, packed(q), packed(k), packed(v)) is None);
    assert(state_in.dims == seq![b, h, q.dims[3], dv]);
}

/// The element count that `gated_delta` tells the recurrence is the one that the recurrence
/// computes: it is never turned down for it.
pub proof fn law_element_counts_agree(
    q: Given,
    k: Given,
    v: Given,
    g: Given,
    beta: Given,
    state_in: Given,
)
    requires
        q.dims.len() == 4,
        v.dims.len() > 3,
        state_in.dims.len() > 2,
        recurrence_countable(q, k, v, state_in),
    ensures
        ({
            let y = q.dims[0] * q.dims[1] * q.dims[2] * v.dims[3];
            packed(q).dims[0] * packed(q).dims[1] * packed(q).dims[2] * packed(v).dims[3]
                == packed_side(g, beta, state_in, y as usize).y_elems
        }),
{
    lemma_four(q.dims[0], q.dims[1], q.dims[2], v.dims[3]);
}

/// The operand that the recurrence kernel declares in each of its first six places.
pub open spec fn declared(i: int) -> Part {
    if i == 0 {
        Part::Q
    } else if i == 1 {
        Part::K
    } else if i == 2 {
        Part::V
    } else if i == 3 {
        Part::G
    } else if i == 4 {
        Part::Beta
    } else {
        Part::StateIn
    }
}

/// The operand that a part stands for.
pub open spec fn operand_of(
    p: Part,
    q: Given,
    k: Given,
    v: Given,
    g: Given,
    beta: Given,
    state_in: Given,
) -> Given {
    match p {
        Part::Q => q,
        Part::K => k,
        Part::V => v,
        Part::G => g,
        Part::Beta => beta,
        _ => state_in,
    }
}

/// Each of the first six places of the kernel gets the operand that it declares there, and is
/// read from where that operand starts, which is the start of its allocation where it had to be
/// copied. The operands have the extents that the kernel goes by, the kernel is told the steps and
/// the heads in that order, and there is a row of lanes for every value of every head.
pub proof fn law_kernel_reads_what_it_declares(
    c: Recurrence,
    q: Given,
    k: Given,
    v: Given,
    g: Given,
    beta: Given,
    state_in: Given,
)
    requires
        recurrence_outcome(Ok(c), q, k, v, g, beta, state_in),
        recurrence_countable(q, k, v, state_in),
        forall|i: int|
            0 <= i < 6 ==> 4 * (#[trigger] operand_of(
                declared(i),
                q,
                k,
                v,
                g,
                beta,
                state_in,
            )).start <= usize::MAX,
    ensures
        forall|i: int|
            0 <= i < 6 ==> ((#[trigger] c.launch.args@[i]) matches Arg::Input(from, offset) && {
                let o = operand_of(from, q, k, v, g, beta, state_in);
                &&& from == declared(i)
                &&& o.dense ==> offset == 4 * o.start
                &&& !o.dense ==> offset == 0
            }),
        k.dims == q.dims,
        v.dims == seq![q.dims[0], q.dims[1], q.dims[2], v.dims[3]],
        g.dims == seq![q.dims[0], q.dims[1], q.dims[2]],
        beta.dims == g.dims,
        state_in.dims == seq![q.dims[0], q.dims[2], q.dims[3], v.dims[3]],
        c.y.dims@ == v.dims,
        c.state_out.dims@ == state_in.dims,
        q.dims[1] <= i32::MAX ==> c.launch.args@[8] == Arg::<'static, Part>::I32(
            q.dims[1] as i32,
        ),
        q.dims[2] <= i32::MAX ==> c.launch.args@[9] == Arg::<'static, Part>::I32(
            q.dims[2] as i32,
        ),
        c.launch.args@.len() == 10,
        c.launch.source == Source::GatedDelta,
        c.launch.name@ == "gated_delta_f32_dk128_dv128"@,
        c.launch.threadgroup_memory is None,
        c.launch.dispatch matches Dispatch::Threads { grid, group } && {
            &&& grid.height == v.dims[3]
            &&& q.dims[0] * q.dims[2] <= usize::MAX ==> grid.depth == q.dims[0] * q.dims[2]
            &&& grid.width == 32 && group.width == 32
            &&& q.dims[3] as int % grid.width as int == 0
            &&& v.dims[3] as int % group.height as int == 0
        },
{
    let (b, t, h) = (q.dims[0], q.dims[1], q.dims[2]);
    let (dk, dv) = (state_in.dims[2], v.dims[3]);
    lemma_four(b, t, h, dv);
    lemma_four(b, h, dk, dv);
    let side = packed_side(g, beta, state_in, (b * t * h * dv) as usize);
    assert(refusal(side, packed(q), packed(k), packed(v)) is None);
    assert(state_in.dims == seq![b, h, q.dims[3], dv]);
    // Each operand starts where it can be addressed.
    let os = (
        operand_of(declared(0), q, k, v, g, beta, state_in),
        operand_of(declared(1), q, k, v, g, beta, state_in),
        operand_of(declared(2), q, k, v, g, beta, state_in),
        operand_of(declared(3), q, k, v, g, beta, state_in),
        operand_of(declared(4), q, k, v, g, beta, state_in),
        operand_of(declared(5), q, k, v, g, beta, state_in),
    );
    assert forall|i: int| 0 <= i < 3 implies v.dims[i] == #[trigger] q.dims[i] by {
        assert(v.dims.take(3)[i] == q.dims.take(3)[i]);
    }
    assert(v.dims =~= seq![b, t, h, dv]);
    assert(dv == 128 && q.dims[3] == 128);
    assert(128int % 32 == 0 && 128int % 4 == 0);
}

/// The recurrence is run just where it can be: six operands of 32-bit floats on the device, whose
/// extents agree, with heads of the sizes that there is a kernel for.
pub proof fn law_recurrence_accepts(
    r: Result<Recurrence>,
    q: Given,
    k: Given,
    v: Given,
    g: Given,
    beta: Given,
    state_in: Given,
)
    requires
        recurrence_outcome(r, q, k, v, g, beta, state_in),
        recurrence_countable(q, k, v, state_in),
    ensures
        r is Ok <==> {
            &&& q.dims.len() == 4 && q.dims[3] == 128
            &&& k.dims == q.dims
            &&& v.dims == seq![q.dims[0], q.dims[1], q.dims[2], 128usize]
            &&& g.dims == seq![q.dims[0], q.dims[1], q.dims[2]]
            &&& beta.dims == seq![q.dims[0], q.dims[1], q.dims[2]]
            &&& state_in.dims == seq![q.dims[0], q.dims[2], 128usize, 128usize]
            &&& q.dtype == DType::F32 && k.dtype == DType::F32 && v.dtype == DType::F32
            &&& g.dtype == DType::F32 && beta.dtype == DType::F32 && state_in.dtype == DType::F32
            &&& q.location == Location::Metal && k.location == Location::Metal
            &&& v.location == Location::Metal && g.location == Location::Metal
            &&& beta.location == Location::Metal && state_in.location == Location::Metal
        },
{
    if q.dims.len() == 4 && v.dims.len() > 3 && state_in.dims.len() > 2 {
        let (b, t, h) = (q.dims[0], q.dims[1], q.dims[2]);
        let (dk, dv) = (state_in.dims[2], v.dims[3]);
        lemma_four(b, t, h, dv);
        lemma_four(b, h, dk, dv);
        let side = packed_side(g, beta, state_in, (b * t * h * dv) as usize);
        if v.dims.len() == 4 {
            assert(v.dims.take(3) == q.dims.take(3) <==> v.dims =~= seq![b, t, h, dv]) by {
                if v.dims.take(3) == q.dims.take(3) {
                    assert forall|i: int| 0 <= i < 3 implies v.dims[i] == #[trigger] q.dims[i] by {
                        assert(v.dims.take(3)[i] == q.dims.take(3)[i]);
                    }
                }
                if v.dims =~= seq![b, t, h, dv] {
                    assert(v.dims.take(3) =~= q.dims.take(3));
                }
            }
        }
    }
}

} // verus!
