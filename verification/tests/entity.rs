use xtra_cheez::ecs::Query;
use xtra_cheez::entity::{EntityIterator, EntityRegistry};
use xtra_cheez::world::World;

#[derive(Clone, Copy, Debug, PartialEq)]
enum Comp {
    Location(i32, i32),
    Speed(f32),
}

const LOCATION: u64 = 0;
const SPEED: u64 = 1;

#[test]
fn query_entities() {
    let mut world: World<Comp, ()> = World::new();
    world.register_component(LOCATION);
    world.register_component(SPEED);

    let entity = world.create_entity();
    world
        .attach_entity_component(entity, LOCATION, Comp::Location(1, 2))
        .unwrap();
    world
        .attach_entity_component(entity, SPEED, Comp::Speed(5.0))
        .unwrap();

    let query = Query::new().with(LOCATION).with(SPEED).build();
    let result = world.resolve(&query);
    assert_eq!(1, result.len());
    assert!(world.get_entity_component(result[0], LOCATION).is_some());
    assert!(world.get_entity_component(result[0], SPEED).is_some());
}

#[test]
fn freed_slot_is_reused_oldest_first() {
    let mut world: World<Comp, ()> = World::new();
    world.register_component(LOCATION);
    let a = world.create_entity();
    let b = world.create_entity();
    assert_eq!(a, 0);
    assert_eq!(b, 1);
    world
        .attach_entity_component(a, LOCATION, Comp::Location(3, 4))
        .unwrap();
    world.free_entity(a);
    let c = world.create_entity();
    assert_eq!(c, 0);
    // The reused slot starts with every column empty.
    assert!(world.get_entity_component(c, LOCATION).is_none());
    let d = world.create_entity();
    assert_eq!(d, 2);
}

#[test]
fn attach_unregistered_type_fails_and_changes_nothing() {
    let mut world: World<Comp, ()> = World::new();
    world.register_component(LOCATION);
    let entity = world.create_entity();
    let result = world.attach_entity_component(entity, SPEED, Comp::Speed(1.5));
    assert_eq!(
        result.unwrap_err(),
        xtra_cheez::ecs::EcsError::ComponentNotRegistered
    );
    // No column appeared as a side effect, and the existing column is intact.
    let mut registry: EntityRegistry<Comp> = EntityRegistry::default();
    registry.register_component(LOCATION);
    let slot = registry.create_entity();
    let err = registry.set_entity_component(slot, SPEED, Comp::Speed(1.5));
    assert!(err.is_err());
    assert!(registry.get_components(SPEED).is_none());
    assert_eq!(registry.get_components(LOCATION).unwrap().len(), 1);
}

#[test]
fn late_registration_backfills_columns() {
    let mut registry: EntityRegistry<Comp> = EntityRegistry::default();
    registry.register_component(LOCATION);
    let a = registry.create_entity();
    let _b = registry.create_entity();
    registry.register_component(SPEED);
    // The late column is as long as the older one: one cell per slot.
    assert_eq!(registry.get_components(LOCATION).unwrap().len(), 2);
    assert_eq!(registry.get_components(SPEED).unwrap().len(), 2);
    registry
        .set_entity_component(a, SPEED, Comp::Speed(2.0))
        .unwrap();
    assert!(registry.has_entity_component(a, SPEED));
}

#[test]
fn live_slot_iteration_skips_freed_runs() {
    let mut registry: EntityRegistry<Comp> = EntityRegistry::default();
    registry.register_component(LOCATION);
    for _ in 0..6 {
        registry.create_entity();
    }
    registry.free_entity(0);
    registry.free_entity(4);

    let mut it = EntityIterator::new(&registry);
    let mut live = Vec::new();
    while let Some(slot) = it.next() {
        live.push(slot);
    }
    assert_eq!(live, vec![1, 2, 3, 5]);

    let reused = registry.create_entity();
    assert_eq!(reused, 0);
    let mut it = EntityIterator::new(&registry);
    let mut live = Vec::new();
    while let Some(slot) = it.next() {
        live.push(slot);
    }
    assert_eq!(live, vec![0, 1, 2, 3, 5]);
}

#[test]
fn resolve_is_repeatable_for_a_given_state() {
    let mut world: World<Comp, ()> = World::new();
    world.register_component(LOCATION);
    world.register_component(SPEED);
    for i in 0..4 {
        let e = world.create_entity();
        world
            .attach_entity_component(e, LOCATION, Comp::Location(i, i))
            .unwrap();
    }
    world.free_entity(2);
    let query = Query::new().with(LOCATION).build();
    let first = world.resolve(&query);
    let second = world.resolve(&query);
    assert_eq!(first, second);
    assert_eq!(first, vec![0, 1, 3]);
}

#[test]
fn double_free_is_a_no_op() {
    let mut registry: EntityRegistry<Comp> = EntityRegistry::default();
    registry.register_component(LOCATION);
    let a = registry.create_entity();
    let _b = registry.create_entity();
    registry.free_entity(a);
    registry.free_entity(a);
    registry.free_entity(77);
    // Only one copy of the slot is on the free list: the two creations that
    // follow hand out the freed slot and then a fresh one.
    assert_eq!(registry.create_entity(), 0);
    assert_eq!(registry.create_entity(), 2);
}

#[test]
fn entities_can_exist_before_any_column() {
    let mut registry: EntityRegistry<Comp> = EntityRegistry::default();
    let a = registry.create_entity();
    let b = registry.create_entity();
    assert_eq!((a, b), (0, 1));
    // A column registered afterwards still covers both slots.
    registry.register_component(LOCATION);
    assert_eq!(registry.get_components(LOCATION).unwrap().len(), 2);
}

#[test]
fn get_entity_component_distinguishes_empty_and_held() {
    let mut registry: EntityRegistry<Comp> = EntityRegistry::default();
    registry.register_component(LOCATION);
    let a = registry.create_entity();
    assert!(registry.get_entity_component(a, LOCATION).is_none());
    registry
        .set_entity_component(a, LOCATION, Comp::Location(7, 8))
        .unwrap();
    assert_eq!(
        *registry.get_entity_component(a, LOCATION).unwrap(),
        Comp::Location(7, 8)
    );
    assert!(registry.get_entity_component(a, SPEED).is_none());
}
