//! Items that live only as long as a state keeps a given value.

use vstd::prelude::*;
use crate::components::{StateData, repr_eq};

verus! {

/// Items scoped to a state value: released when the state exits that value.
#[derive(Clone, Copy, Debug, PartialEq, Eq)]
pub struct StateScoped(pub Option<u32>);

/// Whether the record shows a real exit from `value` in the last update pass.
pub open spec fn spec_exited(state: StateData, value: Option<u32>) -> bool {
    state.is_updated && !state.is_reentrant && state.previous == Some(value)
}

/// Returns, in increasing order, the indices of the scoped items whose value
/// the state really exited in the last update pass.
pub fn despawn_state_scoped(state: &StateData, scoped: &Vec<StateScoped>) -> (r: Vec<usize>)
    ensures
        forall|k: int| 0 <= k < r@.len() ==> #[trigger] r@[k] < scoped@.len()
            && spec_exited(*state, scoped@[r@[k] as int].0),
        forall|i: int| 0 <= i < scoped@.len() && spec_exited(*state, scoped@[i].0)
            ==> exists|k: int| 0 <= k < r@.len() && #[trigger] r@[k] == i,
        forall|a: int, b: int| 0 <= a < b < r@.len() ==> r@[a] < r@[b],
{
    let mut out: Vec<usize> = Vec::new();
    if !state.is_updated || state.is_reentrant {
        return out;
    }
    let exited = match state.previous {
        Some(p) => p,
        None => {
            return out;
        },
    };
    let mut i: usize = 0;
    while i < scoped.len()
        invariant
            i <= scoped@.len(),
            state.is_updated && !state.is_reentrant && state.previous == Some(exited),
            forall|k: int| 0 <= k < out@.len() ==> #[trigger] out@[k] < i
                && spec_exited(*state, scoped@[out@[k] as int].0),
            forall|j: int| 0 <= j < i && spec_exited(*state, scoped@[j].0)
                ==> exists|k: int| 0 <= k < out@.len() && #[trigger] out@[k] == j,
            forall|a: int, b: int| 0 <= a < b < out@.len() ==> out@[a] < out@[b],
        decreases scoped@.len() - i,
    {
        let ghost before = out@;
        if repr_eq(scoped[i].0, exited) {
            out.push(i);
        }
        proof {
            assert forall|j: int| 0 <= j < i + 1 && spec_exited(*state, scoped@[j].0)
                implies exists|k: int| 0 <= k < out@.len() && #[trigger] out@[k] == j by {
                if j < i {
                    let k = choose|k: int| 0 <= k < before.len() && #[trigger] before[k] == j;
                    assert(out@[k] == j);
                } else {
                    assert(out@[out@.len() - 1] == j);
                }
            }
        }
        i = i + 1;
    }
    out
}

} // verus!
