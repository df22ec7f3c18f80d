//! Which notifications a state emits, chosen when it is registered.

use vstd::prelude::*;

verus! {

/// State registration configuration: which transition notifications are
/// emitted for the state, and whether scoped items are released on exit.
#[derive(Clone, Copy, Debug, PartialEq, Eq)]
pub struct StateConfig {
    pub state_scoped: bool,
    pub on_enter: bool,
    pub on_exit: bool,
    pub on_reenter: bool,
    pub on_reexit: bool,
}

/// The default configuration: enter and exit notifications and scoped
/// release; no reentries.
pub open spec fn default_config() -> StateConfig {
    StateConfig { state_scoped: true, on_enter: true, on_exit: true, on_reenter: false, on_reexit: false }
}

impl Default for StateConfig {
    /// Enter and exit notifications and scoped release; no reentries.
    fn default() -> (r: StateConfig)
        ensures
            r == default_config(),
    {
        StateConfig {
            state_scoped: true,
            on_enter: true,
            on_exit: true,
            on_reenter: false,
            on_reexit: false,
        }
    }
}

impl StateConfig {
    /// A configuration that emits nothing.
    pub fn empty() -> (r: StateConfig)
        ensures
            r == (StateConfig {
                state_scoped: false,
                on_enter: false,
                on_exit: false,
                on_reenter: false,
                on_reexit: false,
            }),
    {
        StateConfig {
            state_scoped: false,
            on_enter: false,
            on_exit: false,
            on_reenter: false,
            on_reexit: false,
        }
    }

    /// Sets whether scoped items are released when the state is exited.
    pub fn with_state_scoped(self, enabled: bool) -> (r: StateConfig)
        ensures
            r == (StateConfig { state_scoped: enabled, ..self }),
    {
        StateConfig { state_scoped: enabled, ..self }
    }

    /// Sets whether enter notifications are emitted.
    pub fn with_on_enter(self, enabled: bool) -> (r: StateConfig)
        ensures
            r == (StateConfig { on_enter: enabled, ..self }),
    {
        StateConfig { on_enter: enabled, ..self }
    }

    /// Sets whether exit notifications are emitted.
    pub fn with_on_exit(self, enabled: bool) -> (r: StateConfig)
        ensures
            r == (StateConfig { on_exit: enabled, ..self }),
    {
        StateConfig { on_exit: enabled, ..self }
    }

    /// Sets whether reenter notifications are emitted.
    pub fn with_on_reenter(self, enabled: bool) -> (r: StateConfig)
        ensures
            r == (StateConfig { on_reenter: enabled, ..self }),
    {
        StateConfig { on_reenter: enabled, ..self }
    }

    /// Sets whether reexit notifications are emitted.
    pub fn with_on_reexit(self, enabled: bool) -> (r: StateConfig)
        ensures
            r == (StateConfig { on_reexit: enabled, ..self }),
    {
        StateConfig { on_reexit: enabled, ..self }
    }
}

} // verus!
