use xtra_cheez::resource::ResourceRegistry;
use xtra_cheez::world::World;

struct WorldWidth(pub f32);

struct FpsResource(pub u32);

const WIDTH: u64 = 1;
const FPS: u64 = 2;

#[test]
fn resource_registry_get() {
    let mut registry: ResourceRegistry<WorldWidth> = ResourceRegistry::default();
    let world_width = WorldWidth(100.0);
    registry.register(WIDTH, world_width);

    let stored = registry.get(WIDTH);
    assert_eq!(stored.unwrap().0, 100.0);
}

#[test]
fn resource_registry_get_mut() {
    let mut registry: ResourceRegistry<WorldWidth> = ResourceRegistry::default();
    let world_width = WorldWidth(100.0);
    registry.register(WIDTH, world_width);
    {
        let stored: &mut WorldWidth = registry.get_mut(WIDTH).unwrap();
        stored.0 += 1.0;
    }
    let stored = registry.get(WIDTH);
    assert_eq!(stored.unwrap().0, 101.0);
}

#[test]
fn get_resource_immutable() {
    let mut world: World<(), FpsResource> = World::new();
    world.create_resource(FPS, FpsResource(60));

    let fps = world.get_resource(FPS).unwrap();
    assert_eq!(fps.0, 60);
}

#[test]
fn get_resource_mutable() {
    let mut world: World<(), FpsResource> = World::new();
    world.create_resource(FPS, FpsResource(60));
    {
        let fps: &mut FpsResource = world.get_resource_mut(FPS).unwrap();
        fps.0 += 1;
    }
    let fps = world.get_resource(FPS).unwrap();
    assert_eq!(fps.0, 61);
}

#[test]
fn delete_resource() {
    let mut world: World<(), FpsResource> = World::new();
    world.create_resource(FPS, FpsResource(60));
    {
        let fps = world.get_resource(FPS).unwrap();
        assert_eq!(fps.0, 60);
    }
    world.delete_resource(FPS);
    let fps = world.get_resource(FPS);
    assert!(fps.is_none());
}

#[test]
fn reregister_after_delete() {
    let mut world: World<(), FpsResource> = World::new();
    world.create_resource(FPS, FpsResource(60));
    let removed = world.delete_resource(FPS);
    assert_eq!(removed.unwrap().0, 60);
    assert!(world.get_resource(FPS).is_none());
    world.create_resource(FPS, FpsResource(144));
    assert_eq!(world.get_resource(FPS).unwrap().0, 144);
}

#[test]
fn register_replaces_instance() {
    let mut registry: ResourceRegistry<WorldWidth> = ResourceRegistry::default();
    registry.register(WIDTH, WorldWidth(100.0));
    registry.register(WIDTH, WorldWidth(250.0));
    assert_eq!(registry.get(WIDTH).unwrap().0, 250.0);
}

#[test]
fn absent_resource_is_none() {
    let registry: ResourceRegistry<WorldWidth> = ResourceRegistry::default();
    assert!(registry.get(WIDTH).is_none());
    let mut registry = registry;
    assert!(registry.get_mut(WIDTH).is_none());
    assert!(registry.delete(WIDTH).is_none());
}
