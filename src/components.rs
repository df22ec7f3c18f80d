//! The record that stores one state's value on one context.

use vstd::prelude::*;

verus! {

/// Tests two state representations for equality.
pub fn repr_eq(a: Option<u32>, b: Option<u32>) -> (r: bool)
    ensures
        r == (a == b),
{
    match (a, b) {
        (Some(x), Some(y)) => x == y,
        (None, None) => true,
        _ => false,
    }
}

/// A request for a state's next value.
#[derive(Clone, Copy, Debug, PartialEq, Eq)]
pub enum Request {
    /// Take this variant.
    Select(u32),
    /// Move to the next variant, for states that cycle.
    Advance,
    /// Move to the variant before, for states that cycle.
    Retreat,
}

/// One state's data on one context.
///
/// A state value is a variant index; its representation is `Some(variant)`
/// while the state exists and `None` while it does not.
#[derive(Clone, Copy, Debug, PartialEq, Eq)]
pub struct StateData {
    /// Whether the last recomputation produced the value that was already current.
    pub is_reentrant: bool,
    /// Last different value; `None` until a real transition has happened.
    pub previous: Option<Option<u32>>,
    /// Current value.
    pub current: Option<u32>,
    /// Pending request, consumed by the next recomputation.
    pub update: Option<Request>,
    /// Whether the state was recomputed during the last update pass.
    pub is_updated: bool,
}

impl StateData {
    /// The record after a recomputation that produced `next`.
    pub open spec fn committed(self, next: Option<u32>) -> StateData {
        if next == self.current {
            StateData { is_reentrant: true, is_updated: true, ..self }
        } else {
            StateData {
                is_reentrant: false,
                previous: Some(self.current),
                current: next,
                is_updated: true,
                ..self
            }
        }
    }

    /// The previous value with reentries included.
    pub open spec fn spec_reentrant_previous(self) -> Option<Option<u32>> {
        if self.is_reentrant {
            Some(self.current)
        } else {
            self.previous
        }
    }

    /// Stores a freshly computed value: a reentry when it equals the current
    /// one, a real transition otherwise.
    pub fn inner_update(&mut self, next: Option<u32>)
        ensures
            *final(self) == old(self).committed(next),
    {
        if repr_eq(next, self.current) {
            self.is_reentrant = true;
        } else {
            self.is_reentrant = false;
            self.previous = Some(self.current);
            self.current = next;
        }
        self.is_updated = true;
    }

    /// Creates a record holding `initial`, with no history and nothing requested.
    pub fn new(initial: Option<u32>) -> (r: StateData)
        ensures
            r == (StateData {
                is_reentrant: false,
                previous: None,
                current: initial,
                update: None,
                is_updated: false,
            }),
    {
        StateData {
            is_reentrant: false,
            previous: None,
            current: initial,
            update: None,
            is_updated: false,
        }
    }

    /// Returns the current value.
    pub fn current(&self) -> (r: Option<u32>)
        ensures
            r == self.current,
    {
        self.current
    }

    /// Returns the last different value; a reentry leaves it unchanged.
    pub fn previous(&self) -> (r: Option<Option<u32>>)
        ensures
            r == self.previous,
    {
        self.previous
    }

    /// Returns the previous value with reentries included: after a reentry,
    /// the current value stands in for it.
    pub fn reentrant_previous(&self) -> (r: Option<Option<u32>>)
        ensures
            r == self.spec_reentrant_previous(),
    {
        if self.is_reentrant {
            Some(self.current)
        } else {
            self.previous
        }
    }

    /// Returns whether the last recomputation was a reentry.
    pub fn is_reentrant(&self) -> (r: bool)
        ensures
            r == self.is_reentrant,
    {
        self.is_reentrant
    }

    /// Returns whether the state was recomputed in the last update pass.
    pub fn is_updated(&self) -> (r: bool)
        ensures
            r == self.is_updated,
    {
        self.is_updated
    }

    /// Returns the pending request.
    pub fn update(&self) -> (r: Option<Request>)
        ensures
            r == self.update,
    {
        self.update
    }

    /// Gives mutable access to the pending request.
    pub fn update_mut(&mut self) -> (r: &mut Option<Request>)
        ensures
            *r == old(self).update,
            *final(self) == (StateData { update: *final(r), ..*old(self) }),
    {
        &mut self.update
    }
}

} // verus!
