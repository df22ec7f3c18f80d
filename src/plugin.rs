//! Sets up the state machinery for a host loop.

use vstd::prelude::*;
use crate::state::StateCatalog;
use crate::transitions::Notification;
use crate::world::StateWorld;
use crate::scheduling::{update_post, transition_log};

verus! {

/// Installs the state machinery: a world over the declared states, and the
/// state transition that runs before the first tick and once per tick.
#[derive(Clone, Copy, Debug, PartialEq, Eq)]
pub struct StatePlugin;

impl StatePlugin {
    /// Creates the world over the declared states, with nothing registered
    /// and no context.
    pub fn build(&self, catalog: StateCatalog) -> (r: StateWorld)
        requires
            catalog.wf(),
        ensures
            r.wf(),
            r.catalog == catalog,
            r.contexts@.len() == 0,
            forall|s: int| 0 <= s < r.n() ==> !#[trigger] r.is_registered(s),
    {
        StateWorld::new(catalog)
    }

    /// Runs the state transition once, as at startup and at every tick, and
    /// returns the notifications it sends.
    pub fn run(&self, world: &mut StateWorld) -> (r: Vec<Notification>)
        requires
            old(world).wf(),
        ensures
            update_post(old(world), final(world)),
            r@ == transition_log(final(world)),
    {
        world.run_state_transition()
    }
}

} // verus!
