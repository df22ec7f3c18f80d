use bevy_state::config::StateConfig;
use bevy_state::state::{StateCatalog, StateDef};
use bevy_state::transitions::{Notification, Transition};
use bevy_state::world::StateWorld;

const A: u32 = 0;
const B: u32 = 1;
const X: u32 = 0;
const Y: u32 = 1;

fn manual_and_sub() -> (StateWorld, usize, usize) {
    let mut catalog = StateCatalog::new();
    let manual = catalog.declare(StateDef::root()).unwrap();
    let sub = catalog.declare(StateDef::substate(vec![manual], vec![B], X)).unwrap();
    (StateWorld::new(catalog), manual, sub)
}

fn current(world: &StateWorld, s: usize) -> Option<u32> {
    world.get_state(None, s).unwrap().current()
}

fn updated(world: &StateWorld, s: usize) -> bool {
    world.get_state(None, s).unwrap().is_updated()
}

#[test]
fn end_to_end_scenario() {
    let (mut world, manual, sub) = manual_and_sub();
    world.register_state(sub, StateConfig::default()).unwrap();
    world.init_state(None, manual, Some(A)).unwrap();
    world.init_state(None, sub, None).unwrap();

    world.run_update_phase();
    assert_eq!(current(&world, manual), Some(A));
    assert_eq!(current(&world, sub), None);

    world.update_state(None, manual, B).unwrap();
    world.run_update_phase();
    assert_eq!(current(&world, manual), Some(B));
    assert_eq!(current(&world, sub), Some(X));

    world.update_state(None, sub, Y).unwrap();
    world.run_update_phase();
    assert_eq!(current(&world, manual), Some(B));
    assert!(!updated(&world, manual));
    assert_eq!(current(&world, sub), Some(Y));

    world.update_state(None, manual, A).unwrap();
    world.run_update_phase();
    assert_eq!(current(&world, sub), None);
}

#[test]
fn register_twice_is_a_no_op() {
    let (mut world, manual, sub) = manual_and_sub();
    assert_eq!(world.register_state(sub, StateConfig::empty()), Ok(true));
    // The dependency was registered on the way, with the default configuration.
    assert_eq!(world.register_state(manual, StateConfig::empty()), Ok(false));
    assert_eq!(world.register_state(sub, StateConfig::default()), Ok(false));
    assert_eq!(world.registered[sub].unwrap().config, StateConfig::empty());
    assert_eq!(world.registered[manual].unwrap().config, StateConfig::default());
}

#[test]
fn chain_updates_and_orders_transitions() {
    let mut catalog = StateCatalog::new();
    let a = catalog.declare(StateDef::root()).unwrap();
    let b = catalog.declare(StateDef::substate(vec![a], vec![B], X)).unwrap();
    let c = catalog.declare(StateDef::substate(vec![b], vec![X], Y)).unwrap();
    assert_eq!(catalog.order(a), 1);
    assert_eq!(catalog.order(b), 2);
    assert_eq!(catalog.order(c), 3);
    let mut world = StateWorld::new(catalog);
    world.register_state(c, StateConfig::default()).unwrap();
    world.init_state(None, a, Some(A)).unwrap();
    world.init_state(None, b, None).unwrap();
    world.init_state(None, c, None).unwrap();
    world.update_state(None, a, B).unwrap();
    let log = world.run_state_transition();
    assert!(updated(&world, a) && updated(&world, b) && updated(&world, c));
    assert_eq!(current(&world, c), Some(Y));
    let kinds: Vec<(usize, &str)> = log
        .iter()
        .filter_map(|n| match n.event {
            Transition::OnExit(_) => Some((n.state, "exit")),
            Transition::OnEnter(_) => Some((n.state, "enter")),
            _ => None,
        })
        .collect();
    assert_eq!(kinds, vec![(c, "exit"), (b, "exit"), (a, "exit"), (a, "enter"), (b, "enter"), (c, "enter")]);
}

#[test]
fn reentry_fires_only_reexit_and_reenter() {
    let mut catalog = StateCatalog::new();
    let manual = catalog.declare(StateDef::root()).unwrap();
    let mut world = StateWorld::new(catalog);
    let config = StateConfig::empty().with_on_enter(true).with_on_exit(true).with_on_reenter(true).with_on_reexit(true);
    world.register_state(manual, config).unwrap();
    world.init_state(None, manual, Some(A)).unwrap();
    world.update_state(None, manual, B).unwrap();
    world.run_update_phase();
    world.update_state(None, manual, B).unwrap();
    let log = world.run_state_transition();
    let rec = world.get_state(None, manual).unwrap();
    assert!(rec.is_reentrant());
    assert!(rec.is_updated());
    assert_eq!(rec.previous(), Some(Some(A)));
    assert_eq!(rec.reentrant_previous(), Some(Some(B)));
    assert_eq!(
        log,
        vec![
            Notification { state: manual, target: None, event: Transition::OnReexit(Some(B)) },
            Notification { state: manual, target: None, event: Transition::OnReenter(Some(B)) },
        ]
    );
}

#[test]
fn plain_substate_restarts_at_default() {
    let (mut world, manual, sub) = manual_and_sub();
    world.register_state(sub, StateConfig::empty()).unwrap();
    world.init_state(None, manual, Some(A)).unwrap();
    world.init_state(None, sub, None).unwrap();
    world.update_state(None, manual, B).unwrap();
    world.run_update_phase();
    world.update_state(None, sub, Y).unwrap();
    world.run_update_phase();
    assert_eq!(current(&world, sub), Some(Y));
    world.update_state(None, manual, A).unwrap();
    world.run_update_phase();
    assert_eq!(current(&world, sub), None);
    world.update_state(None, manual, B).unwrap();
    world.run_update_phase();
    assert_eq!(current(&world, sub), Some(X));
}

#[test]
fn persistent_substate_restores_its_value() {
    let mut catalog = StateCatalog::new();
    let manual = catalog.declare(StateDef::root()).unwrap();
    let sub = catalog.declare(StateDef::persistent_substate(vec![manual], vec![B], X)).unwrap();
    let mut world = StateWorld::new(catalog);
    world.register_state(sub, StateConfig::empty()).unwrap();
    world.init_state(None, manual, Some(B)).unwrap();
    world.init_state(None, sub, Some(X)).unwrap();
    world.update_state(None, sub, Y).unwrap();
    world.run_update_phase();
    assert_eq!(current(&world, sub), Some(Y));
    world.update_state(None, manual, A).unwrap();
    world.run_update_phase();
    assert_eq!(current(&world, sub), None);
    world.update_state(None, manual, B).unwrap();
    world.run_update_phase();
    assert_eq!(current(&world, sub), Some(Y));
}

#[test]
fn substate_keeps_its_value_while_dependency_is_reentered() {
    let (mut world, manual, sub) = manual_and_sub();
    world.register_state(sub, StateConfig::empty()).unwrap();
    world.init_state(None, manual, Some(B)).unwrap();
    world.init_state(None, sub, Some(Y)).unwrap();
    world.update_state(None, manual, B).unwrap();
    world.run_update_phase();
    assert!(updated(&world, sub));
    assert!(world.get_state(None, sub).unwrap().is_reentrant());
    assert_eq!(current(&world, sub), Some(Y));
}

#[test]
fn quiet_tick_changes_nothing() {
    let (mut world, manual, sub) = manual_and_sub();
    world.register_state(sub, StateConfig::default().with_on_reenter(true).with_on_reexit(true)).unwrap();
    world.init_state(None, manual, Some(B)).unwrap();
    world.init_state(None, sub, None).unwrap();
    world.update_state(None, manual, A).unwrap();
    let first = world.run_state_transition();
    assert!(!first.is_empty());
    let before_manual = world.get_state(None, manual).unwrap();
    let log = world.run_state_transition();
    assert!(log.is_empty());
    assert!(!updated(&world, manual));
    assert!(!updated(&world, sub));
    let after_manual = world.get_state(None, manual).unwrap();
    assert_eq!(after_manual.current(), before_manual.current());
    assert_eq!(after_manual.previous(), before_manual.previous());
}

#[test]
fn local_notifications_are_targeted() {
    let (mut world, manual, _sub) = manual_and_sub();
    world.register_state(manual, StateConfig::default()).unwrap();
    let local = world.spawn_context();
    world.init_state(Some(local), manual, Some(A)).unwrap();
    world.update_state(Some(local), manual, B).unwrap();
    let log = world.run_state_transition();
    assert_eq!(
        log,
        vec![
            Notification { state: manual, target: Some(local), event: Transition::OnExit(Some(A)) },
            Notification { state: manual, target: Some(local), event: Transition::OnEnter(Some(B)) },
        ]
    );
}

#[test]
fn global_exit_releases_scoped_items() {
    let (mut world, manual, _sub) = manual_and_sub();
    world.register_state(manual, StateConfig::default()).unwrap();
    world.init_state(None, manual, Some(A)).unwrap();
    world.update_state(None, manual, B).unwrap();
    let log = world.run_state_transition();
    assert_eq!(
        log,
        vec![
            Notification { state: manual, target: None, event: Transition::ScopedExit(Some(A)) },
            Notification { state: manual, target: None, event: Transition::OnExit(Some(A)) },
            Notification { state: manual, target: None, event: Transition::OnEnter(Some(B)) },
        ]
    );
}
