//! Sets of states, used to name a state's dependencies.

use vstd::prelude::*;
use crate::components::StateData;

verus! {

/// The larger of two orders.
pub fn const_max(a: u32, b: u32) -> (r: u32)
    ensures
        r == if a > b { a } else { b },
{
    if a > b {
        a
    } else {
        b
    }
}

/// Highest order among the first `n` members, 0 for none.
pub open spec fn highest_prefix(members: Seq<usize>, orders: Seq<u32>, n: int) -> nat
    decreases n,
{
    if n <= 0 {
        0
    } else {
        let rest = highest_prefix(members, orders, n - 1);
        let o = orders[members[n - 1] as int] as nat;
        if o > rest {
            o
        } else {
            rest
        }
    }
}

/// Highest order among all members, 0 for the empty set.
pub open spec fn spec_highest_order(members: Seq<usize>, orders: Seq<u32>) -> nat {
    highest_prefix(members, orders, members.len() as int)
}

/// Whether any record of a dependency snapshot was recomputed this pass.
pub open spec fn spec_any_updated(snapshot: Seq<StateData>) -> bool {
    exists|i: int| 0 <= i < snapshot.len() && #[trigger] snapshot[i].is_updated
}

/// A highest order is one of the members' orders, or 0, and bounds them all.
pub proof fn lemma_highest_prefix(members: Seq<usize>, orders: Seq<u32>, n: int)
    requires
        0 <= n <= members.len(),
        forall|i: int| 0 <= i < members.len() ==> #[trigger] members[i] < orders.len(),
    ensures
        forall|i: int| 0 <= i < n ==> orders[#[trigger] members[i] as int] <= highest_prefix(members, orders, n),
        highest_prefix(members, orders, n) == 0 || exists|i: int| 0 <= i < n
            && highest_prefix(members, orders, n) == orders[#[trigger] members[i] as int],
    decreases n,
{
    if n > 0 {
        lemma_highest_prefix(members, orders, n - 1);
    }
}

/// The states a state depends on, by their index in the catalog.
#[derive(Debug)]
pub struct StateSet {
    pub members: Vec<usize>,
}

impl StateSet {
    /// The empty set: a root state.
    pub fn empty() -> (r: StateSet)
        ensures
            r.members@.len() == 0,
    {
        StateSet { members: Vec::new() }
    }

    /// The set of the given states.
    pub fn of(members: Vec<usize>) -> (r: StateSet)
        ensures
            r.members@ == members@,
    {
        StateSet { members }
    }

    /// Highest order among the members, 0 for the empty set.
    pub fn highest_order(&self, orders: &Vec<u32>) -> (r: u32)
        requires
            forall|i: int| 0 <= i < self.members@.len() ==> #[trigger] self.members@[i] < orders@.len(),
        ensures
            r as nat == spec_highest_order(self.members@, orders@),
    {
        let mut best: u32 = 0;
        let mut i: usize = 0;
        while i < self.members.len()
            invariant
                i <= self.members@.len(),
                forall|j: int| 0 <= j < self.members@.len() ==> #[trigger] self.members@[j] < orders@.len(),
                best as nat == highest_prefix(self.members@, orders@, i as int),
            decreases self.members@.len() - i,
        {
            best = const_max(orders[self.members[i]], best);
            i = i + 1;
        }
        best
    }

    /// Whether any record of a snapshot taken of this set was recomputed.
    pub fn any_updated(snapshot: &Vec<StateData>) -> (r: bool)
        ensures
            r == spec_any_updated(snapshot@),
    {
        let mut i: usize = 0;
        while i < snapshot.len()
            invariant
                i <= snapshot@.len(),
                forall|j: int| 0 <= j < i ==> !(#[trigger] snapshot@[j]).is_updated,
            decreases snapshot@.len() - i,
        {
            if snapshot[i].is_updated {
                return true;
            }
            i = i + 1;
        }
        false
    }
}

} // verus!
