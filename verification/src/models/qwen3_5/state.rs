//! The state of a layer: everything that makes a call depend on the tokens before it.

use crate::error::{Error, Result};
use crate::models::state::{copy_maybe, count_maybe, maybe, maybe_bytes, maybe_wf, State, StateView};
use crate::text::{decimal_text, push_decimal};
use vstd::prelude::*;
use vstd::string::*;

verus! {

/// The state of one layer.
///
/// The keys and values of attention grow with the context. A delta state has a fixed size, and
/// cannot be cut back to a shorter prefix: what is restored must match exactly.
#[derive(Debug)]
pub enum LayerState<E> {
    /// The keys and values of all tokens so far; missing while there are none.
    Kv { k: Option<State<E>>, v: Option<State<E>> },
    /// The window of the causal convolution, and the recurrent state.
    Delta { conv: Option<State<E>>, recurrent: Option<State<E>> },
}

/// What the state of a layer amounts to.
pub ghost enum LayerView<E> {
    Kv { k: Option<StateView<E>>, v: Option<StateView<E>> },
    Delta { conv: Option<StateView<E>>, recurrent: Option<StateView<E>> },
}

impl<E> LayerView<E> {
    /// Both halves are there, or neither is.
    pub open spec fn complete(self) -> bool {
        match self {
            LayerView::Kv { k, v } => k is Some == v is Some,
            LayerView::Delta { conv, recurrent } => conv is Some == recurrent is Some,
        }
    }

    /// The bytes of the tensors held.
    pub open spec fn bytes(self) -> nat {
        match self {
            LayerView::Kv { k, v } => maybe_bytes(k) + maybe_bytes(v),
            LayerView::Delta { conv, recurrent } => maybe_bytes(conv) + maybe_bytes(recurrent),
        }
    }

    /// Nothing is carried, in a layer of the same kind.
    pub open spec fn cleared(self) -> LayerView<E> {
        match self {
            LayerView::Kv { .. } => LayerView::Kv { k: None, v: None },
            LayerView::Delta { .. } => LayerView::Delta { conv: None, recurrent: None },
        }
    }
}

impl<E> View for LayerState<E> {
    type V = LayerView<E>;

    open spec fn view(&self) -> LayerView<E> {
        match *self {
            LayerState::Kv { k, v } => LayerView::Kv { k: maybe(k), v: maybe(v) },
            LayerState::Delta { conv, recurrent } => LayerView::Delta {
                conv: maybe(conv),
                recurrent: maybe(recurrent),
            },
        }
    }
}

impl<E: Copy> LayerState<E> {
    /// What is held is well formed.
    pub open spec fn wf(&self) -> bool {
        match *self {
            LayerState::Kv { k, v } => maybe_wf(k) && maybe_wf(v),
            LayerState::Delta { conv, recurrent } => maybe_wf(conv) && maybe_wf(recurrent),
        }
    }

    /// The bytes of the tensors held.
    pub fn size_in_bytes(&self) -> (r: usize)
        requires
            self.wf(),
            self@.bytes() <= usize::MAX,
        ensures
            r == self@.bytes(),
    {
        match self {
            LayerState::Kv { k, v } => count_maybe(k) + count_maybe(v),
            LayerState::Delta { conv, recurrent } => count_maybe(conv) + count_maybe(recurrent),
        }
    }

    /// A copy that shares nothing with this one.
    pub fn deep_copy(&self) -> (r: Self)
        requires
            self.wf(),
        ensures
            r@ == self@,
            r.wf(),
    {
        match self {
            LayerState::Kv { k, v } => LayerState::Kv { k: copy_maybe(k), v: copy_maybe(v) },
            LayerState::Delta { conv, recurrent } => LayerState::Delta {
                conv: copy_maybe(conv),
                recurrent: copy_maybe(recurrent),
            },
        }
    }
}

/// What a half is called.
pub open spec fn presence(there: bool) -> Seq<char> {
    if there {
        "Some"@
    } else {
        "None"@
    }
}

/// Why half a state is turned down. Both halves are named.
pub open spec fn half_set_text(layer: usize, conv: bool, recurrent: bool) -> Seq<char> {
    "layer "@ + decimal_text(layer as nat) + ": Delta state is half-set (conv="@ + presence(conv)
        + ", recurrent="@ + presence(recurrent) + "); both must be Some or both None"@
}

/// Turns down half a delta state: the recurrence would go on while the convolution starts over,
/// or the reverse, and nothing would tell.
pub fn check_delta_state_complete<E>(
    layer: usize,
    conv: &Option<State<E>>,
    recurrent: &Option<State<E>>,
) -> (r: Result<()>)
    ensures
        if conv is Some == recurrent is Some {
            r is Ok
        } else {
            r matches Err(e) && e.says(half_set_text(layer, conv is Some, recurrent is Some))
        },
{
    if conv.is_some() != recurrent.is_some() {
        let mut text: String = "layer ".to_owned();
        push_decimal(&mut text, layer);
        text.append(": Delta state is half-set (conv=");
        text.append(
            if conv.is_some() {
                "Some"
            } else {
                "None"
            },
        );
        text.append(", recurrent=");
        text.append(
            if recurrent.is_some() {
                "Some"
            } else {
                "None"
            },
        );
        text.append("); both must be Some or both None");
        return Err(Error::Msg(text));
    }
    Ok(())
}

} // verus!
