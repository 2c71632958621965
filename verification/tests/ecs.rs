use xtra_cheez::ecs::{ECSBuilder, EcsError, Query, ECS};
use xtra_cheez::input::Mouse;

#[derive(Clone, Copy, Debug, PartialEq)]
enum Comp {
    Health(i32),
    Speed(i32),
}

const HEALTH: u64 = 10;
const SPEED: u64 = 11;

type GameEcs = ECS<Comp, Mouse>;

const MOUSE: u64 = 1;

#[test]
fn resolve_requires_every_component() {
    // Register Health and Speed; attach Health only: the {Health} query finds
    // the entity, the {Health, Speed} query does not until Speed is attached.
    let mut ecs: GameEcs = ECSBuilder::new()
        .with_component(HEALTH)
        .with_component(SPEED)
        .build();
    let entity = ecs.create_entity();
    ecs.attach_component(entity, HEALTH, Comp::Health(100)).unwrap();

    let health_query = Query::new().with(HEALTH).build();
    let both_query = Query::new().with(HEALTH).with(SPEED).build();
    assert_eq!(ecs.query(&health_query), vec![entity]);
    assert_eq!(ecs.query(&both_query), Vec::<usize>::new());

    ecs.attach_component(entity, SPEED, Comp::Speed(15)).unwrap();
    assert_eq!(ecs.query(&both_query), vec![entity]);
}

#[test]
fn empty_query_yields_all_live_entities() {
    let mut ecs: GameEcs = ECSBuilder::new().with_component(HEALTH).build();
    let a = ecs.create_entity();
    let b = ecs.create_entity();
    let everything = Query::new().build();
    assert_eq!(ecs.query(&everything), vec![a, b]);
}

#[test]
fn update_component_applies_function_to_held_value() {
    let mut ecs: GameEcs = ECSBuilder::new().with_component(HEALTH).build();
    let entity = ecs.create_entity();
    ecs.attach_component(entity, HEALTH, Comp::Health(40)).unwrap();
    ecs.update_component(entity, HEALTH, |c: Comp| match c {
        Comp::Health(h) => Comp::Health(h + 2),
        other => other,
    })
    .unwrap();
    assert_eq!(ecs.clone_component(entity, HEALTH), Some(Comp::Health(42)));
}

#[test]
fn update_component_without_cell_is_a_no_op() {
    let mut ecs: GameEcs = ECSBuilder::new().with_component(HEALTH).build();
    let entity = ecs.create_entity();
    let result = ecs.update_component(entity, HEALTH, |c: Comp| c);
    assert!(result.is_ok());
    assert_eq!(ecs.clone_component(entity, HEALTH), None);
}

#[test]
fn attach_component_reports_unregistered_type() {
    let mut ecs: GameEcs = ECSBuilder::new().with_component(HEALTH).build();
    let entity = ecs.create_entity();
    let result = ecs.attach_component(entity, SPEED, Comp::Speed(3));
    assert_eq!(result, Err(EcsError::ComponentNotRegistered));
    assert!(ecs.get_component(entity, SPEED).is_none());
}

#[test]
fn resources_live_on_the_builder_and_facade() {
    let mut ecs: GameEcs = ECSBuilder::new()
        .with_component(HEALTH)
        .with_resource(MOUSE, Mouse(4, -2))
        .build();
    assert_eq!(ecs.get_resource(MOUSE).unwrap().0, 4);
    {
        let mouse = ecs.get_resource_mut(MOUSE).unwrap();
        mouse.reset();
    }
    let mouse = ecs.get_resource(MOUSE).unwrap();
    assert_eq!(mouse.0, 0);
    assert_eq!(mouse.1, 0);
    ecs.register_resource(MOUSE, Mouse(9, 9));
    assert_eq!(ecs.get_resource(MOUSE).unwrap().0, 9);
}

#[test]
fn attach_replaces_prior_value() {
    let mut ecs: GameEcs = ECSBuilder::new().with_component(HEALTH).build();
    let entity = ecs.create_entity();
    ecs.attach_component(entity, HEALTH, Comp::Health(1)).unwrap();
    ecs.attach_component(entity, HEALTH, Comp::Health(2)).unwrap();
    assert_eq!(ecs.clone_component(entity, HEALTH), Some(Comp::Health(2)));
}
