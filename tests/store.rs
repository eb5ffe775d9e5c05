use miyabi_logic::components::{
    Button, ButtonAction, ComponentType, Material, Obstacle, PhysicsBody, Player, Sprite,
    Transform, Velocity,
};
use miyabi_logic::ecs::{Entity, InternalWorld};
use miyabi_logic::geometry::{Rect, Vec3};

fn transform(x: i32, y: i32) -> Transform {
    Transform {
        position: Vec3 { x, y, z: 0 },
        rotation: Vec3 { x: 0, y: 0, z: 0 },
        scale: Vec3 { x: 600, y: 600, z: 60 },
    }
}

#[test]
fn spawn_assigns_increasing_ids_and_rows() {
    let mut world = InternalWorld::new();
    let a = world.spawn((transform(1, 2), Material { texture_handle: 7 }));
    let b = world.spawn((transform(3, 4), Material { texture_handle: 8 }));
    assert_eq!(a, Entity(0));
    assert_eq!(b, Entity(1));
    assert_eq!(world.lookup(a), Some((0, 0)));
    assert_eq!(world.lookup(b), Some((0, 1)));
    assert_eq!(world.archetypes.len(), 1);
    assert_eq!(world.archetypes[0].entity_count, 2);
    assert_eq!(world.archetypes[0].materials[1].texture_handle, 8);
    assert_eq!(world.archetypes[0].transforms[0].position.x, 1);
}

#[test]
fn columns_follow_declared_types_not_tuple_position() {
    let mut world = InternalWorld::new();
    world.spawn((Material { texture_handle: 5 }, transform(10, 20)));
    world.spawn((transform(30, 40), Material { texture_handle: 6 }));
    assert_eq!(world.archetypes.len(), 1);
    assert_eq!(world.archetypes[0].materials[0].texture_handle, 5);
    assert_eq!(world.archetypes[0].materials[1].texture_handle, 6);
    assert_eq!(world.archetypes[0].transforms[1].position.y, 40);
}

#[test]
fn one_archetype_per_distinct_type_set() {
    let mut world = InternalWorld::new();
    world.spawn((transform(0, 0),));
    world.spawn((transform(0, 0), Sprite));
    world.spawn((Sprite, transform(0, 0)));
    world.spawn((transform(0, 0),));
    world.spawn((PhysicsBody { id: 3 }, transform(0, 0), Material { texture_handle: 1 }));
    assert_eq!(world.archetypes.len(), 3);
}

#[test]
fn bundles_of_every_arity_spawn() {
    let mut world = InternalWorld::new();
    world.spawn((Player,));
    world.spawn((Player, Sprite));
    world.spawn((Player, Sprite, Obstacle));
    world.spawn((Player, Sprite, Obstacle, Material { texture_handle: 1 }));
    world.spawn((Player, Sprite, Obstacle, Material { texture_handle: 1 }, transform(0, 0)));
    world.spawn((
        Player,
        Sprite,
        Obstacle,
        Material { texture_handle: 1 },
        transform(0, 0),
        Velocity { x: 1, y: 2, z: 3 },
    ));
    assert_eq!(world.archetypes.len(), 6);
    assert_eq!(world.next_entity, 6);
    assert_eq!(world.archetypes[5].velocities[0].y, 2);
}

#[test]
fn clearing_a_type_empties_whole_archetypes() {
    let mut world = InternalWorld::new();
    let sprite = world.spawn((transform(0, 0), Sprite));
    let plain = world.spawn((transform(0, 0),));
    let button = world.spawn((Button {
        rect: Rect { x: 0, y: 0, width: 10, height: 10 },
        text: "Go".to_string(),
        action: ButtonAction::StartGame,
    },));
    world.clear_entities_of_component(ComponentType::Sprite);
    assert_eq!(world.lookup(sprite), None);
    assert_eq!(world.lookup(plain), Some((1, 0)));
    assert_eq!(world.lookup(button), Some((2, 0)));
    assert_eq!(world.archetypes[0].entity_count, 0);
    assert!(world.archetypes[0].transforms.is_empty());
    assert_eq!(world.archetypes[1].entity_count, 1);
    world.clear_entities_of_component(ComponentType::Transform);
    assert_eq!(world.lookup(plain), None);
    assert_eq!(world.archetypes.len(), 3);
}

#[test]
fn clearing_every_kind_of_an_archetype_removes_its_entity() {
    let mut world = InternalWorld::new();
    let e = world.spawn((transform(5, 5), Velocity { x: 0, y: 0, z: 0 }, Obstacle));
    let (arch, _) = world.lookup(e).unwrap();
    for kind in [ComponentType::Transform, ComponentType::Velocity, ComponentType::Obstacle] {
        world.clear_entities_of_component(kind);
    }
    assert_eq!(world.lookup(e), None);
    assert_eq!(world.archetypes[arch].entity_count, 0);
    let again = world.spawn((transform(1, 1), Velocity { x: 0, y: 0, z: 0 }, Obstacle));
    assert_eq!(again, Entity(1));
    assert_eq!(world.lookup(again), Some((arch, 0)));
}
