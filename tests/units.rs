use bevy_state::components::{Request, StateData, repr_eq};
use bevy_state::config::StateConfig;
use bevy_state::plugin::StatePlugin;
use bevy_state::state::{StateCatalog, StateDef, StateError, StateUpdate, MAX_STATES};
use bevy_state::state_scoped::{StateScoped, despawn_state_scoped};
use bevy_state::state_set::{StateSet, const_max};
use bevy_state::system_set::StateSystemSet;
use bevy_state::transitions::{on_enter_transition, on_exit_transition, on_reenter_transition, on_reexit_transition};
use bevy_state::util::{in_state, state_changed, state_changed_to};
use bevy_state::world::{IntoStateUpdate, StateWorld};

fn root_and_sub() -> (StateWorld, usize, usize) {
    let mut catalog = StateCatalog::new();
    let root = catalog.declare(StateDef::root()).unwrap();
    let sub = catalog.declare(StateDef::substate(vec![root], vec![1], 0)).unwrap();
    (StatePlugin.build(catalog), root, sub)
}

#[test]
fn record_commit_distinguishes_reentry() {
    let mut rec = StateData::new(Some(3));
    assert_eq!(rec.previous(), None);
    assert!(!rec.is_updated());
    rec.inner_update(Some(4));
    assert_eq!(rec.current(), Some(4));
    assert_eq!(rec.previous(), Some(Some(3)));
    assert!(rec.is_updated() && !rec.is_reentrant());
    rec.inner_update(Some(4));
    assert_eq!(rec.previous(), Some(Some(3)));
    assert!(rec.is_reentrant());
    assert_eq!(rec.reentrant_previous(), Some(Some(4)));
    *rec.update_mut() = Some(Request::Select(7));
    assert_eq!(rec.update(), Some(Request::Select(7)));
}

#[test]
fn transition_values_follow_flags() {
    let mut rec = StateData::new(Some(1));
    assert_eq!(on_exit_transition(&rec), None);
    assert_eq!(on_reenter_transition(&rec), None);
    rec.inner_update(None);
    assert_eq!(on_exit_transition(&rec), Some(Some(1)));
    assert_eq!(on_enter_transition(&rec), Some(None));
    assert_eq!(on_reexit_transition(&rec), Some(Some(1)));
    rec.inner_update(None);
    assert_eq!(on_exit_transition(&rec), None);
    assert_eq!(on_enter_transition(&rec), None);
    assert_eq!(on_reexit_transition(&rec), Some(None));
    assert_eq!(on_reenter_transition(&rec), Some(None));
}

#[test]
fn run_conditions() {
    let mut rec = StateData::new(Some(1));
    assert!(in_state(&rec, Some(1)));
    assert!(!in_state(&rec, Some(2)));
    assert!(!state_changed(&rec));
    rec.inner_update(Some(2));
    assert!(state_changed(&rec));
    assert!(state_changed_to(&rec, Some(2)));
    assert!(!state_changed_to(&rec, Some(1)));
    rec.inner_update(Some(2));
    assert!(!state_changed_to(&rec, Some(2)));
}

#[test]
fn scoped_items_of_the_exited_value() {
    let mut rec = StateData::new(Some(1));
    let scoped = vec![StateScoped(Some(1)), StateScoped(Some(2)), StateScoped(Some(1)), StateScoped(None)];
    assert_eq!(despawn_state_scoped(&rec, &scoped), Vec::<usize>::new());
    rec.inner_update(Some(2));
    assert_eq!(despawn_state_scoped(&rec, &scoped), vec![0, 2]);
    rec.inner_update(Some(2));
    assert_eq!(despawn_state_scoped(&rec, &scoped), Vec::<usize>::new());
}

#[test]
fn orders_and_maxima() {
    assert_eq!(const_max(3, 5), 5);
    assert_eq!(const_max(5, 3), 5);
    let mut catalog = StateCatalog::new();
    let a = catalog.declare(StateDef::root()).unwrap();
    let b = catalog.declare(StateDef::root()).unwrap();
    let c = catalog.declare(StateDef::substate(vec![a], vec![0], 0)).unwrap();
    let d = catalog.declare(StateDef::substate(vec![b, c], vec![0, 0], 0)).unwrap();
    assert_eq!(catalog.count(), 4);
    assert_eq!((catalog.order(a), catalog.order(b), catalog.order(c), catalog.order(d)), (1, 1, 2, 3));
    assert_eq!(StateSet::empty().highest_order(&catalog.orders), 0);
    assert_eq!(StateSet::of(vec![b, c]).highest_order(&catalog.orders), 2);
}

#[test]
fn any_updated_over_snapshot() {
    let quiet = StateData::new(Some(0));
    let mut moved = StateData::new(Some(0));
    moved.inner_update(Some(1));
    assert!(!StateSet::any_updated(&vec![]));
    assert!(!StateSet::any_updated(&vec![quiet]));
    assert!(StateSet::any_updated(&vec![quiet, moved]));
}

#[test]
fn update_requests() {
    let mut request: Option<Request> = Some(5u32.into_state_update());
    assert_eq!(request, Some(Request::Select(5)));
    assert_eq!(Request::Advance.into_state_update(), Request::Advance);
    assert!(request.should_update());
    request.post_update();
    assert!(!request.should_update());
    assert!(!().should_update());
}

#[test]
fn system_set_order() {
    assert_eq!(StateSystemSet::update(2), StateSystemSet::Update(2));
    assert!(StateSystemSet::Update(1).runs_before(&StateSystemSet::Update(2)));
    assert!(StateSystemSet::Exit(2).runs_before(&StateSystemSet::Exit(1)));
    assert!(StateSystemSet::Enter(1).runs_before(&StateSystemSet::Enter(2)));
    assert!(StateSystemSet::Update(9).runs_before(&StateSystemSet::Exit(1)));
    assert!(StateSystemSet::AllExits.runs_before(&StateSystemSet::Enter(1)));
    assert!(!StateSystemSet::Enter(1).runs_before(&StateSystemSet::Exit(1)));
    assert!(!StateSystemSet::Update(1).runs_before(&StateSystemSet::Update(1)));
    let edges = StateSystemSet::configuration(2);
    assert_eq!(edges.len(), 5);
    assert_eq!(edges[2], (StateSystemSet::Update(1), StateSystemSet::Update(2)));
    assert_eq!(edges[3], (StateSystemSet::Exit(2), StateSystemSet::Exit(1)));
    assert_eq!(edges[4], (StateSystemSet::enter(1), StateSystemSet::enter(2)));
    for (a, b) in edges.iter() {
        assert!(a.runs_before(b));
    }
}

#[test]
fn config_builders() {
    let c = StateConfig::empty().with_state_scoped(true).with_on_exit(true);
    assert!(c.state_scoped && c.on_exit && !c.on_enter && !c.on_reenter && !c.on_reexit);
    let d = StateConfig::default();
    assert!(d.state_scoped && d.on_enter && d.on_exit && !d.on_reenter && !d.on_reexit);
}

#[test]
fn repr_equality() {
    assert!(repr_eq(None, None));
    assert!(repr_eq(Some(2), Some(2)));
    assert!(!repr_eq(Some(2), None));
    assert!(!repr_eq(Some(2), Some(3)));
}

#[test]
fn declare_errors() {
    let mut catalog = StateCatalog::new();
    assert_eq!(catalog.declare(StateDef::substate(vec![0], vec![0], 0)), Err(StateError::UnknownDependency));
    let a = catalog.declare(StateDef::root()).unwrap();
    assert_eq!(catalog.declare(StateDef::substate(vec![a], vec![0, 1], 0)), Err(StateError::MismatchedRequirements));
    assert_eq!(catalog.count(), 1);
}

#[test]
fn catalog_full() {
    let mut catalog = StateCatalog::new();
    for _ in 0..MAX_STATES {
        catalog.declare(StateDef::root()).unwrap();
    }
    assert_eq!(catalog.declare(StateDef::root()), Err(StateError::CatalogFull));
    assert_eq!(catalog.count(), MAX_STATES);
}

#[test]
fn world_errors() {
    let (mut world, root, sub) = root_and_sub();
    assert_eq!(world.register_state(9, StateConfig::empty()), Err(StateError::UnknownState));
    assert_eq!(world.init_state(None, 9, Some(0)), Err(StateError::UnknownState));
    assert_eq!(world.init_state(None, root, None), Err(StateError::MissingValue));
    assert_eq!(world.init_state(None, sub, None), Err(StateError::MissingDependency));
    assert_eq!(world.global_context(), None);
    assert_eq!(world.update_state(None, root, 1), Err(StateError::NoGlobalContext));
    assert_eq!(world.init_state(Some(3), root, Some(0)), Err(StateError::UnknownContext));
    assert_eq!(world.init_state(None, root, Some(0)), Ok(0));
    assert_eq!(world.global_context(), Some(0));
    assert_eq!(world.state_target_entity(None), Some(0));
    assert_eq!(world.state_target_entity(Some(5)), Some(5));
    assert_eq!(world.init_state(None, root, Some(1)), Err(StateError::AlreadyInitialized));
    assert_eq!(world.update_state(None, sub, 1), Err(StateError::NotInitialized));
    assert_eq!(world.update_state(Some(4), root, 1), Err(StateError::UnknownContext));
    assert_eq!(world.update_state(None, 9, 1), Err(StateError::UnknownState));
    let local = world.spawn_context();
    assert_eq!(local, 1);
    assert_eq!(world.init_state(Some(local), sub, None), Err(StateError::MissingDependency));
    assert_eq!(world.get_state(Some(local), root), None);
    assert_eq!(world.get_state(None, root).unwrap().current(), Some(0));
    assert_eq!(world.update_state(None, root, 1), Ok(0));
    assert_eq!(world.get_state(None, root).unwrap().update(), Some(Request::Select(1)));
}

#[test]
fn per_state_update_system() {
    let (mut world, root, sub) = root_and_sub();
    world.register_state(sub, StateConfig::empty()).unwrap();
    world.init_state(None, root, Some(0)).unwrap();
    world.init_state(None, sub, None).unwrap();
    world.update_state(None, root, 1).unwrap();
    world.update_state_data_system(root);
    assert_eq!(world.fetch(0, sub)[0].current(), Some(1));
    world.update_state_data_system(sub);
    assert_eq!(world.get_state(None, sub).unwrap().current(), Some(0));
}

#[test]
fn plugin_run_reports_the_tick() {
    let (mut world, root, _sub) = root_and_sub();
    world.register_state(root, StateConfig::empty().with_on_enter(true)).unwrap();
    world.init_state(None, root, Some(0)).unwrap();
    world.update_state(None, root, 1).unwrap();
    let log = StatePlugin.run(&mut world);
    assert_eq!(log.len(), 1);
    assert_eq!(log[0].state, root);
}

#[test]
fn cycling_state_wraps_around() {
    let mut catalog = StateCatalog::new();
    let wheel = catalog.declare(StateDef::cycle(3)).unwrap();
    let stuck = catalog.declare(StateDef::cycle(0)).unwrap();
    let mut world = StateWorld::new(catalog);
    world.register_state(wheel, StateConfig::empty()).unwrap();
    world.register_state(stuck, StateConfig::empty()).unwrap();
    world.init_state(None, wheel, Some(0)).unwrap();
    world.init_state(None, stuck, Some(5)).unwrap();
    let mut seen = Vec::new();
    for request in [Request::Advance, Request::Advance, Request::Advance, Request::Retreat, Request::Select(1), Request::Retreat] {
        world.update_state(None, wheel, request).unwrap();
        world.run_update_phase();
        seen.push(world.get_state(None, wheel).unwrap().current());
    }
    assert_eq!(seen, vec![Some(1), Some(2), Some(0), Some(2), Some(1), Some(0)]);
    world.update_state(None, stuck, Request::Advance).unwrap();
    world.run_update_phase();
    let rec = world.get_state(None, stuck).unwrap();
    assert_eq!(rec.current(), Some(5));
    assert!(rec.is_updated() && rec.is_reentrant());
}

#[test]
fn root_ignores_shift_requests() {
    let (mut world, root, _sub) = root_and_sub();
    world.register_state(root, StateConfig::empty()).unwrap();
    world.init_state(None, root, Some(1)).unwrap();
    world.update_state(None, root, Request::Advance).unwrap();
    world.run_update_phase();
    let rec = world.get_state(None, root).unwrap();
    assert_eq!(rec.current(), Some(1));
    assert!(rec.is_reentrant());
}

#[test]
fn despawned_context_loses_its_records() {
    let (mut world, root, _sub) = root_and_sub();
    world.register_state(root, StateConfig::default()).unwrap();
    world.init_state(None, root, Some(0)).unwrap();
    assert_eq!(world.despawn_context(5), Err(StateError::UnknownContext));
    assert_eq!(world.despawn_context(0), Ok(()));
    assert_eq!(world.get_state(Some(0), root), None);
    assert_eq!(world.global_context(), None);
    assert_eq!(world.update_state(None, root, 1), Err(StateError::NoGlobalContext));
    assert_eq!(world.init_state(None, root, Some(1)), Ok(1));
    assert_eq!(world.global_context(), Some(1));
}
