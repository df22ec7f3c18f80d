//! Transition notifications: what each record announces after an update pass.

use vstd::prelude::*;
use crate::components::StateData;
use crate::config::StateConfig;

verus! {

/// A transition of one state, with the value it concerns.
#[derive(Clone, Copy, Debug, PartialEq, Eq)]
pub enum Transition {
    /// The state really left this value; scoped items should be released.
    ScopedExit(Option<u32>),
    /// The state really left this value.
    OnExit(Option<u32>),
    /// The state was recomputed and left this value, possibly to itself.
    OnReexit(Option<u32>),
    /// The state really entered this value.
    OnEnter(Option<u32>),
    /// The state was recomputed and entered this value, possibly again.
    OnReenter(Option<u32>),
}

/// A notification: a transition of state `state`, broadcast when `target` is
/// `None` (a global state) or aimed at the context `target` (a local one).
#[derive(Clone, Copy, Debug, PartialEq, Eq)]
pub struct Notification {
    pub state: usize,
    pub target: Option<usize>,
    pub event: Transition,
}

/// The value a record really exited in the last pass, if it did.
pub open spec fn spec_exit(state: StateData) -> Option<Option<u32>> {
    if state.is_updated && !state.is_reentrant { state.previous } else { None }
}

/// The value a record really entered in the last pass, if it did.
pub open spec fn spec_enter(state: StateData) -> Option<Option<u32>> {
    if state.is_updated && !state.is_reentrant { Some(state.current) } else { None }
}

/// The value a record exited in the last pass, reentries included.
pub open spec fn spec_reexit(state: StateData) -> Option<Option<u32>> {
    if state.is_updated { state.spec_reentrant_previous() } else { None }
}

/// The value a record entered in the last pass, reentries included.
pub open spec fn spec_reenter(state: StateData) -> Option<Option<u32>> {
    if state.is_updated { Some(state.current) } else { None }
}

/// Returns the value the state really exited in the last update pass:
/// nothing after a reentry or when it was not recomputed.
pub fn on_exit_transition(state: &StateData) -> (r: Option<Option<u32>>)
    ensures
        r == spec_exit(*state),
{
    if !state.is_updated || state.is_reentrant {
        None
    } else {
        state.previous
    }
}

/// Returns the value the state really entered in the last update pass.
pub fn on_enter_transition(state: &StateData) -> (r: Option<Option<u32>>)
    ensures
        r == spec_enter(*state),
{
    if !state.is_updated || state.is_reentrant {
        None
    } else {
        Some(state.current)
    }
}

/// Returns the value the state exited in the last update pass, the current
/// one standing in after a reentry.
pub fn on_reexit_transition(state: &StateData) -> (r: Option<Option<u32>>)
    ensures
        r == spec_reexit(*state),
{
    if !state.is_updated {
        None
    } else {
        state.reentrant_previous()
    }
}

/// Returns the value the state entered in the last update pass, reentries included.
pub fn on_reenter_transition(state: &StateData) -> (r: Option<Option<u32>>)
    ensures
        r == spec_reenter(*state),
{
    if !state.is_updated {
        None
    } else {
        Some(state.current)
    }
}

/// One notification, or none, for an optional value.
pub open spec fn note(s: usize, target: Option<usize>, v: Option<Option<u32>>, enabled: bool, f: spec_fn(Option<u32>) -> Transition) -> Seq<Notification> {
    match v {
        Some(x) if enabled => seq![Notification { state: s, target, event: f(x) }],
        _ => Seq::empty(),
    }
}

/// The exit-phase notifications of one record, in the order they are sent.
pub open spec fn record_exit_events(config: StateConfig, s: usize, target: Option<usize>, state: StateData) -> Seq<Notification> {
    note(s, target, spec_exit(state), config.state_scoped && target is None, |x| Transition::ScopedExit(x))
        + note(s, target, spec_exit(state), config.on_exit, |x| Transition::OnExit(x))
        + note(s, target, spec_reexit(state), config.on_reexit, |x| Transition::OnReexit(x))
}

/// The enter-phase notifications of one record, in the order they are sent.
pub open spec fn record_enter_events(config: StateConfig, s: usize, target: Option<usize>, state: StateData) -> Seq<Notification> {
    note(s, target, spec_enter(state), config.on_enter, |x| Transition::OnEnter(x))
        + note(s, target, spec_reenter(state), config.on_reenter, |x| Transition::OnReenter(x))
}

fn push_note(out: &mut Vec<Notification>, s: usize, target: Option<usize>, v: Option<Option<u32>>, enabled: bool, event: Transition)
    requires
        v matches Some(x) ==> match event {
            Transition::ScopedExit(y) => x == y,
            Transition::OnExit(y) => x == y,
            Transition::OnReexit(y) => x == y,
            Transition::OnEnter(y) => x == y,
            Transition::OnReenter(y) => x == y,
        },
    ensures
        v is Some && enabled ==> final(out)@ == old(out)@.push(Notification { state: s, target, event }),
        !(v is Some && enabled) ==> final(out)@ == old(out)@,
{
    if enabled && v.is_some() {
        out.push(Notification { state: s, target, event });
    }
}

/// Appends the exit-phase notifications of one record.
pub fn emit_exit_events(out: &mut Vec<Notification>, config: StateConfig, s: usize, target: Option<usize>, state: &StateData)
    ensures
        final(out)@ == old(out)@ + record_exit_events(config, s, target, *state),
{
    let exit = on_exit_transition(state);
    let reexit = on_reexit_transition(state);
    let v = match exit { Some(x) => x, None => None };
    let w = match reexit { Some(x) => x, None => None };
    push_note(out, s, target, exit, config.state_scoped && target.is_none(), Transition::ScopedExit(v));
    push_note(out, s, target, exit, config.on_exit, Transition::OnExit(v));
    push_note(out, s, target, reexit, config.on_reexit, Transition::OnReexit(w));
    assert(final(out)@ =~= old(out)@ + record_exit_events(config, s, target, *state));
}

/// Appends the enter-phase notifications of one record.
pub fn emit_enter_events(out: &mut Vec<Notification>, config: StateConfig, s: usize, target: Option<usize>, state: &StateData)
    ensures
        final(out)@ == old(out)@ + record_enter_events(config, s, target, *state),
{
    let enter = on_enter_transition(state);
    let reenter = on_reenter_transition(state);
    let v = match enter { Some(x) => x, None => None };
    let w = match reenter { Some(x) => x, None => None };
    push_note(out, s, target, enter, config.on_enter, Transition::OnEnter(v));
    push_note(out, s, target, reenter, config.on_reenter, Transition::OnReenter(w));
    assert(final(out)@ =~= old(out)@ + record_enter_events(config, s, target, *state));
}

} // verus!
