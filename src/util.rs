//! Run conditions over a state's record, and the global context's marker.

use vstd::prelude::*;
use crate::components::{StateData, repr_eq};

verus! {

/// Marks the one context that holds the global states.
#[derive(Clone, Copy, Debug, PartialEq, Eq)]
pub struct GlobalMarker;

/// Whether the state is at `target`.
pub fn in_state(state: &StateData, target: Option<u32>) -> (r: bool)
    ensures
        r == (state.current == target),
{
    repr_eq(target, state.current)
}

/// Whether the state was recomputed in the last update pass.
pub fn state_changed(state: &StateData) -> (r: bool)
    ensures
        r == state.is_updated,
{
    state.is_updated
}

/// Whether the state really changed to `target` in the last update pass.
pub fn state_changed_to(state: &StateData, target: Option<u32>) -> (r: bool)
    ensures
        r == (state.is_updated && !state.is_reentrant && state.current == target),
{
    state.is_updated && !state.is_reentrant && repr_eq(target, state.current)
}

} // verus!
