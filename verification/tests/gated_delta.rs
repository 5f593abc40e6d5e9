//! The fused gated delta recurrence as one launch.

use candle::dtype::DType;
use candle::error::Error;
use candle::gated_delta::{gated_delta, GatedDelta, Location, Operand, Part};
use candle::kernels::launch::Arg;
use candle::models::state::State;
use candle::shape::{Layout, Shape};
use candle::tensor::{Backend, Tensor};

const DK: usize = 128;
const DV: usize = 128;

fn operand(dims: &[usize]) -> Operand {
    Operand {
        location: Location::Metal,
        dtype: DType::F32,
        layout: Layout::contiguous(Shape::from_dims(dims)),
    }
}

struct Inputs {
    q: Operand,
    k: Operand,
    v: Operand,
    g: Operand,
    beta: Operand,
    state: Operand,
}

fn inputs(b: usize, t: usize, h: usize) -> Inputs {
    Inputs {
        q: operand(&[b, t, h, DK]),
        k: operand(&[b, t, h, DK]),
        v: operand(&[b, t, h, DV]),
        g: operand(&[b, t, h]),
        beta: operand(&[b, t, h]),
        state: operand(&[b, h, DK, DV]),
    }
}

fn refusal(i: &Inputs) -> Error {
    gated_delta(&i.q, &i.k, &i.v, &i.g, &i.beta, &i.state)
        .map(|_| ())
        .unwrap_err()
}

fn text(e: Error) -> String {
    match e {
        Error::Msg(text) => text,
        other => panic!("unexpected {other:?}"),
    }
}

#[test]
fn final_state_lies_behind_the_outputs() {
    let (b, t, h) = (1, 5184, 32);
    let i = inputs(b, t, h);
    let r = gated_delta(&i.q, &i.k, &i.v, &i.g, &i.beta, &i.state).unwrap();
    assert_eq!(r.y.start, 0);
    assert_eq!(r.y.dims, vec![b, t, h, DV]);
    assert_eq!(r.state_out.start, b * t * h * DV);
    assert_eq!(r.state_out.start, 21_233_664);
    assert_eq!(r.state_out.dims, vec![b, h, DK, DV]);
    assert_eq!(r.state_out.start + r.state_out.len, r.packed_elems);
    assert!(matches!(
        r.launch.args[7],
        Arg::Output(Part::Packed, at) if at == 4 * 21_233_664
    ));
}

#[test]
fn restored_state_survives_copy_at_the_real_offset() {
    let (b, h) = (1, 32);
    let (t_prefix, t_suffix) = (5184, 120);
    let run = |i: &Inputs| gated_delta(&i.q, &i.k, &i.v, &i.g, &i.beta, &i.state).unwrap();
    let prefix = run(&inputs(b, t_prefix, h));
    assert_eq!(
        prefix.state_out.start,
        b * t_prefix * h * DV,
        "state_out is expected to be a view at the end of the packed buffer"
    );
    // What is carried on is a copy of the view, and a copy of that when it is restored.
    let carried = State {
        dtype: DType::F32,
        tensor: Tensor::from_vec(
            (0..prefix.state_out.len as i64).collect(),
            &prefix.state_out.dims,
            Backend::Split,
        )
        .unwrap(),
    };
    let restored = carried.copy().copy();
    assert_eq!(restored.tensor.dims, carried.tensor.dims);
    assert_eq!(
        restored.tensor.data, carried.tensor.data,
        "deep-copying the state view changed it"
    );

    let mut live = inputs(b, t_suffix, h);
    live.state.layout.start_offset = prefix.state_out.start;
    let live = run(&live);
    let copied = run(&inputs(b, t_suffix, h));
    assert!(matches!(
        live.launch.args[5],
        Arg::Input(Part::StateIn, at) if at == 4 * prefix.state_out.start
    ));
    assert!(matches!(copied.launch.args[5], Arg::Input(Part::StateIn, 0)));
    assert_eq!(
        (live.y.start, live.y.len, live.y.dims),
        (copied.y.start, copied.y.len, copied.y.dims),
        "y differs between the live state view and its deep copy"
    );
    assert_eq!(
        (live.state_out.start, live.state_out.len, live.state_out.dims),
        (copied.state_out.start, copied.state_out.len, copied.state_out.dims),
        "state differs between the live state view and its deep copy"
    );
    assert_eq!(live.launch.dispatch, copied.launch.dispatch);
}

#[test]
fn operands_are_read_from_where_they_start() {
    let mut i = inputs(1, 4, 2);
    i.k.layout.start_offset = 10;
    i.state.layout.start_offset = 7;
    let r = gated_delta(&i.q, &i.k, &i.v, &i.g, &i.beta, &i.state).unwrap();
    assert!(matches!(r.launch.args[0], Arg::Input(Part::Q, 0)));
    assert!(matches!(r.launch.args[1], Arg::Input(Part::K, 40)));
    assert!(matches!(r.launch.args[5], Arg::Input(Part::StateIn, 28)));
    assert!(matches!(r.launch.args[8], Arg::I32(4)));
    assert!(matches!(r.launch.args[9], Arg::I32(2)));
}

#[test]
fn recurrence_says_what_does_not_fit() {
    let mut i = inputs(1, 4, 2);
    i.q = operand(&[4, 2, DK]);
    assert_eq!(
        refusal(&i),
        Error::UnexpectedNumberOfDims {
            expected: 4,
            got: 3
        }
    );
    let mut i = inputs(1, 4, 2);
    i.v = operand(&[4, 2, DV]);
    assert_eq!(refusal(&i), Error::DimOutOfRange { dim: 3, rank: 3 });
    let mut i = inputs(1, 4, 2);
    i.state = operand(&[4, 2]);
    assert_eq!(refusal(&i), Error::DimOutOfRange { dim: 2, rank: 2 });
    let mut i = inputs(1, 4, 2);
    i.k = operand(&[1, 4, 3, DK]);
    let t = text(refusal(&i));
    assert!(t.contains("k ") && t.contains("must match q"), "{t}");
    let mut i = inputs(1, 4, 2);
    i.q.dtype = DType::BF16;
    let t = text(refusal(&i));
    assert!(t.contains("BF16"), "{t}");
}

#[test]
fn recurrence_does_not_run_on_the_host() {
    let mut i = inputs(1, 4, 2);
    i.k.location = Location::Cpu;
    assert_eq!(
        refusal(&i),
        Error::DeviceMismatchBinaryOp {
            op: "metal-gated-delta"
        }
    );
    i.q.location = Location::Cpu;
    i.v.location = Location::Cpu;
    assert_eq!(
        text(refusal(&i)),
        "gated_delta has no cpu impl; use the chunked scan on CPU"
    );
    let op = GatedDelta {
        g: i.g,
        beta: i.beta,
        state_in: i.state,
        y_elems: 0,
    };
    assert_eq!(op.name(), "metal-gated-delta");
}
