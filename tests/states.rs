use bevy_state::config::StateConfig;
use bevy_state::state::{StateCatalog, StateDef};
use bevy_state::transitions::{Notification, Transition};
use bevy_state::world::StateWorld;

// Variants of the states used below.
const A: u32 = 0;
const B: u32 = 1;
const C: u32 = 0;
const D: u32 = 1;
const X: u32 = 0;
const Y: u32 = 1;
const COMPUTED: u32 = 0;

struct AllStates {
    world: StateWorld,
    manual: usize,
    computed: usize,
    sub: usize,
}

fn all_states() -> AllStates {
    let mut catalog = StateCatalog::new();
    let manual = catalog.declare(StateDef::root()).unwrap();
    let computed = catalog.declare(StateDef::substate(vec![manual], vec![A], COMPUTED)).unwrap();
    let sub = catalog.declare(StateDef::substate(vec![manual], vec![B], X)).unwrap();
    AllStates { world: StateWorld::new(catalog), manual, computed, sub }
}

fn current(world: &StateWorld, local: Option<usize>, s: usize) -> Option<u32> {
    world.get_state(local, s).unwrap().current()
}

fn test_all_states(world: &mut StateWorld, local: Option<usize>, manual: usize, computed: usize, sub: usize) {
    world.register_state(manual, StateConfig::empty()).unwrap();
    world.register_state(computed, StateConfig::empty()).unwrap();
    world.register_state(sub, StateConfig::empty()).unwrap();
    world.init_state(local, manual, Some(A)).unwrap();
    world.init_state(local, computed, None).unwrap();
    world.init_state(local, sub, None).unwrap();
    world.update_state(local, manual, A).unwrap();
    world.run_update_phase();
    assert_eq!(current(world, local, manual), Some(A));
    assert_eq!(current(world, local, computed), Some(COMPUTED));
    assert_eq!(current(world, local, sub), None);

    world.update_state(local, manual, B).unwrap();
    world.run_update_phase();
    assert_eq!(current(world, local, manual), Some(B));
    assert_eq!(current(world, local, computed), None);
    assert_eq!(current(world, local, sub), Some(X));

    world.update_state(local, sub, Y).unwrap();
    world.run_update_phase();
    assert_eq!(current(world, local, manual), Some(B));
    assert_eq!(current(world, local, computed), None);
    assert_eq!(current(world, local, sub), Some(Y));
}

#[test]
fn global_state() {
    let mut s = all_states();
    let local = None;
    test_all_states(&mut s.world, local, s.manual, s.computed, s.sub);
}

#[test]
fn local_state() {
    let mut s = all_states();
    let local = Some(s.world.spawn_context());
    test_all_states(&mut s.world, local, s.manual, s.computed, s.sub);
}

fn is_exit_or_enter(n: &Notification) -> bool {
    matches!(n.event, Transition::OnExit(_) | Transition::OnEnter(_))
}

fn exit_flag(n: &Notification) -> (usize, bool) {
    (n.state, matches!(n.event, Transition::OnExit(_)))
}

#[test]
fn transition_order() {
    let mut catalog = StateCatalog::new();
    let manual = catalog.declare(StateDef::root()).unwrap();
    let manual2 = catalog.declare(StateDef::root()).unwrap();
    let sub2 = catalog.declare(StateDef::substate(vec![manual, manual2], vec![B, D], X)).unwrap();
    let computed = catalog.declare(StateDef::substate(vec![manual], vec![A], COMPUTED)).unwrap();
    let mut world = StateWorld::new(catalog);
    world.register_state(manual, StateConfig::default()).unwrap();
    world.register_state(manual2, StateConfig::default()).unwrap();
    world.register_state(sub2, StateConfig::default()).unwrap();
    world.register_state(computed, StateConfig::default()).unwrap();
    world.init_state(None, manual, Some(A)).unwrap();
    world.init_state(None, manual2, Some(C)).unwrap();
    world.init_state(None, sub2, None).unwrap();
    world.init_state(None, computed, None).unwrap();
    world.update_state(None, manual, A).unwrap();
    world.update_state(None, manual2, C).unwrap();
    world.update_state(None, sub2, Y).unwrap();
    world.run_update_phase();

    world.update_state(None, manual, B).unwrap();
    world.update_state(None, manual2, D).unwrap();
    world.run_update_phase();
    let log = world.run_transition_phase();

    let transitions: Vec<(usize, bool)> = log.iter().filter(|n| is_exit_or_enter(n)).map(exit_flag).collect();
    assert_eq!(transitions.len(), 8);
    // Test in groups: unrelated states of one order may come in either order.
    assert!(transitions[0..=1].contains(&(sub2, true)));
    assert!(transitions[0..=1].contains(&(computed, true)));
    assert!(transitions[2..=3].contains(&(manual, true)));
    assert!(transitions[2..=3].contains(&(manual2, true)));
    assert!(transitions[4..=5].contains(&(manual, false)));
    assert!(transitions[4..=5].contains(&(manual2, false)));
    assert!(transitions[6..=7].contains(&(sub2, false)));
    assert!(transitions[6..=7].contains(&(computed, false)));
}
