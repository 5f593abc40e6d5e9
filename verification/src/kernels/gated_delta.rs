//! Launch of the fused gated delta recurrence.

use crate::error::MetalKernelError;
use crate::kernels::launch::{Arg, Dispatch, Launch, MTLSize, Source};
use crate::text::{decimal, decimal_text};
use vstd::prelude::*;
use vstd::string::*;

verus! {

/// Why there is no kernel for the head sizes.
pub open spec fn no_kernel_text(dk: usize, dv: usize) -> Seq<char> {
    "gated_delta: no kernel instantiated for dk="@ + decimal_text(dk as nat) + " dv="@
        + decimal_text(dv as nat)
        + " (have dk=128 dv=128). Add an instantiate_gated_delta line rather than falling back."@
}

/// `l` runs the recurrence over `t` steps of `h` heads.
pub open spec fn launches_gated_delta<'a, B>(
    l: Launch<'a, B>,
    b: usize,
    t: usize,
    h: usize,
    dv: usize,
    q: (B, usize),
    k: (B, usize),
    v: (B, usize),
    g: (B, usize),
    beta: (B, usize),
    state_in: (B, usize),
    y: (B, usize),
    state_out: (B, usize),
) -> bool {
    l.encodes(
        Source::GatedDelta,
        "gated_delta_f32_dk128_dv128"@,
        seq![
            Arg::Input(q.0, q.1),
            Arg::Input(k.0, k.1),
            Arg::Input(v.0, v.1),
            Arg::Input(g.0, g.1),
            Arg::Input(beta.0, beta.1),
            Arg::Input(state_in.0, state_in.1),
            Arg::Output(y.0, y.1),
            Arg::Output(state_out.0, state_out.1),
            Arg::I32(t as i32),
            Arg::I32(h as i32),
        ],
        None,
        Dispatch::Threads {
            grid: (MTLSize { width: 32, height: dv, depth: (b * h) as usize }),
            group: (MTLSize { width: 32, height: 4, depth: 1 }),
        },
    )
}

/// What `call_gated_delta` hands back.
pub open spec fn gated_delta_outcome<'a, B>(
    r: core::result::Result<Launch<'a, B>, MetalKernelError>,
    b: usize,
    t: usize,
    h: usize,
    dk: usize,
    dv: usize,
    q: (B, usize),
    k: (B, usize),
    v: (B, usize),
    g: (B, usize),
    beta: (B, usize),
    state_in: (B, usize),
    y: (B, usize),
    state_out: (B, usize),
) -> bool {
    if dk == 128 && dv == 128 {
        r matches Ok(l) && launches_gated_delta(
            l,
            b,
            t,
            h,
            dv,
            q,
            k,
            v,
            g,
            beta,
            state_in,
            y,
            state_out,
        )
    } else {
        r matches Err(e) && e.is_missing(no_kernel_text(dk, dv))
    }
}

/// One launch of the fused recurrence. All operands are contiguous floats, the buffers given
/// with a byte offset each:
///
/// - `q` and `k` are `[b, t, h, dk]`, and `v` is `[b, t, h, dv]`;
/// - `g`, the decay and not its logarithm, and `beta` are `[b, t, h]`;
/// - `state_in` is `[b, h, dk, dv]`;
/// - `y` is `[b, t, h, dv]` and `state_out` is `[b, h, dk, dv]`. They may lie in one buffer.
///
/// The head sizes are compiled into the kernel. Those without one are an error, and never served
/// by a slower path. A row of the state is spread over one group of 32 lanes.
pub fn call_gated_delta<'a, B>(
    b: usize,
    t: usize,
    h: usize,
    dk: usize,
    dv: usize,
    q: (B, usize),
    k: (B, usize),
    v: (B, usize),
    g: (B, usize),
    beta: (B, usize),
    state_in: (B, usize),
    y: (B, usize),
    state_out: (B, usize),
) -> (r: core::result::Result<Launch<'a, B>, MetalKernelError>)
    requires
        b * h <= usize::MAX,
    ensures
        gated_delta_outcome(r, b, t, h, dk, dv, q, k, v, g, beta, state_in, y, state_out),
{
    if dk != 128 || dv != 128 {
        let mut text: String = "gated_delta: no kernel instantiated for dk=".to_owned();
        text.append(decimal(dk).as_str());
        text.append(" dv=");
        text.append(decimal(dv).as_str());
        text.append(
            " (have dk=128 dv=128). Add an instantiate_gated_delta line rather than falling back.",
        );
        return Err(MetalKernelError::LoadFunctionError(text));
    }
    Ok(
        Launch {
            source: Source::GatedDelta,
            name: "gated_delta_f32_dk128_dv128",
            args: vec![
                Arg::Input(q.0, q.1),
                Arg::Input(k.0, k.1),
                Arg::Input(v.0, v.1),
                Arg::Input(g.0, g.1),
                Arg::Input(beta.0, beta.1),
                Arg::Input(state_in.0, state_in.1),
                Arg::Output(y.0, y.1),
                Arg::Output(state_out.0, state_out.1),
                Arg::I32(t as i32),
                Arg::I32(h as i32),
            ],
            threadgroup_memory: None,
            dispatch: Dispatch::Threads {
                grid: MTLSize { width: 32, height: dv, depth: b * h },
                group: MTLSize { width: 32, height: 4, depth: 1 },
            },
        },
    )
}

} // verus!
