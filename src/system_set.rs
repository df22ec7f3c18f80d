//! The sets that order state work within a tick.

use vstd::prelude::*;

verus! {

/// The schedule in which states are updated and their transitions announced.
#[derive(Clone, Copy, Debug, PartialEq, Eq, Hash)]
pub struct StateUpdates;

/// The per-tick state transition: an update pass, then a transition phase.
#[derive(Clone, Copy, Debug, PartialEq, Eq, Hash)]
pub struct StateTransition;

/// Updates run from root states to leaf states, exits from leaves to roots,
/// enters from roots to leaves. The number is a state's order.
#[derive(Clone, Copy, Debug, PartialEq, Eq, Hash)]
pub enum StateSystemSet {
    /// All updates.
    AllUpdates,
    /// Lower orders before higher ones.
    Update(u32),
    /// All exits.
    AllExits,
    /// Higher orders before lower ones.
    Exit(u32),
    /// All enters.
    AllEnters,
    /// Lower orders before higher ones.
    Enter(u32),
}

/// The phase a set belongs to: updates, then exits, then enters.
pub open spec fn phase(set: StateSystemSet) -> int {
    match set {
        StateSystemSet::AllUpdates | StateSystemSet::Update(_) => 0,
        StateSystemSet::AllExits | StateSystemSet::Exit(_) => 1,
        StateSystemSet::AllEnters | StateSystemSet::Enter(_) => 2,
    }
}

/// Whether the work of set `a` runs before the work of set `b`.
pub open spec fn spec_runs_before(a: StateSystemSet, b: StateSystemSet) -> bool {
    if phase(a) != phase(b) {
        phase(a) < phase(b)
    } else {
        match (a, b) {
            (StateSystemSet::Update(x), StateSystemSet::Update(y)) => x < y,
            (StateSystemSet::Exit(x), StateSystemSet::Exit(y)) => x > y,
            (StateSystemSet::Enter(x), StateSystemSet::Enter(y)) => x < y,
            _ => false,
        }
    }
}

impl StateSystemSet {
    /// The set that updates states of the given order.
    pub fn update(order: u32) -> (r: StateSystemSet)
        ensures
            r == StateSystemSet::Update(order),
    {
        StateSystemSet::Update(order)
    }

    /// The set that runs exit transitions of states of the given order.
    pub fn exit(order: u32) -> (r: StateSystemSet)
        ensures
            r == StateSystemSet::Exit(order),
    {
        StateSystemSet::Exit(order)
    }

    /// The set that runs enter transitions of states of the given order.
    pub fn enter(order: u32) -> (r: StateSystemSet)
        ensures
            r == StateSystemSet::Enter(order),
    {
        StateSystemSet::Enter(order)
    }

    fn phase_of(&self) -> (r: u8)
        ensures
            r as int == phase(*self),
    {
        match self {
            StateSystemSet::AllUpdates | StateSystemSet::Update(_) => 0,
            StateSystemSet::AllExits | StateSystemSet::Exit(_) => 1,
            StateSystemSet::AllEnters | StateSystemSet::Enter(_) => 2,
        }
    }

    /// Whether the work of this set runs before the work of `other`.
    pub fn runs_before(&self, other: &StateSystemSet) -> (r: bool)
        ensures
            r == spec_runs_before(*self, *other),
    {
        let a = self.phase_of();
        let b = other.phase_of();
        if a != b {
            return a < b;
        }
        match (self, other) {
            (StateSystemSet::Update(x), StateSystemSet::Update(y)) => *x < *y,
            (StateSystemSet::Exit(x), StateSystemSet::Exit(y)) => *x > *y,
            (StateSystemSet::Enter(x), StateSystemSet::Enter(y)) => *x < *y,
            _ => false,
        }
    }

    /// The ordering edges, `(before, after)`, that place a state of the given
    /// order: the three phases in sequence, and its update, exit and enter
    /// sets against those of the order below.
    pub fn configuration(order: u32) -> (r: Vec<(StateSystemSet, StateSystemSet)>)
        requires
            order >= 1,
        ensures
            r@ == seq![
                (StateSystemSet::AllUpdates, StateSystemSet::AllExits),
                (StateSystemSet::AllExits, StateSystemSet::AllEnters),
                (StateSystemSet::Update((order - 1) as u32), StateSystemSet::Update(order)),
                (StateSystemSet::Exit(order), StateSystemSet::Exit((order - 1) as u32)),
                (StateSystemSet::Enter((order - 1) as u32), StateSystemSet::Enter(order)),
            ],
            forall|i: int| 0 <= i < r@.len() ==> #[trigger] spec_runs_before(r@[i].0, r@[i].1),
    {
        let below = order - 1;
        let mut r: Vec<(StateSystemSet, StateSystemSet)> = Vec::new();
        r.push((StateSystemSet::AllUpdates, StateSystemSet::AllExits));
        r.push((StateSystemSet::AllExits, StateSystemSet::AllEnters));
        r.push((StateSystemSet::update(below), StateSystemSet::update(order)));
        r.push((StateSystemSet::exit(order), StateSystemSet::exit(below)));
        r.push((StateSystemSet::enter(below), StateSystemSet::enter(order)));
        r
    }
}

} // verus!
