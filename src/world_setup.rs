use vstd::prelude::*;

use rand::Rng;

use crate::components::{
    Button, ButtonAction, ComponentType, ComponentTypeSet, ComponentValue, Material, Obstacle,
    PhysicsBody, Player, Sprite, Transform, Velocity,
};
use crate::ecs::{Entity, InternalWorld};
use crate::geometry::{Rect, Vec3};

verus! {

/// Sub-pixels per pixel.
pub const SUB: i32 = 60;

pub const SCREEN_WIDTH: i32 = 800 * SUB;

pub const SCREEN_HEIGHT: i32 = 600 * SUB;

pub const PLAYER_SIZE: i32 = 32 * SUB;

pub const OBSTACLE_SIZE: i32 = 28 * SUB;

/// The scale factor one, in sub-pixels.
pub const UNIT_SCALE: i32 = SUB;

/// Pixels per second (sub-pixels per step) at which obstacles fall at level one.
pub const BASE_OBSTACLE_SPEED: i32 = 120;

/// Relies on rand's `Rng::gen_range`, on the thread-local generator: the
/// result lies in `low..high`; it panics on an empty range, which `requires`
/// leaves out.
#[verifier::external_body]
pub(crate) fn random_in(low: i32, high: i32) -> (r: i32)
    requires
        low < high,
    ensures
        low <= r < high,
{
    rand::thread_rng().gen_range(low..high)
}

/// A horizontal start position for an obstacle: 20 pixels clear of each edge.
pub fn random_obstacle_x() -> (r: i32)
    ensures
        20 * SUB <= r < SCREEN_WIDTH - 20 * SUB,
{
    random_in(20 * SUB, SCREEN_WIDTH - 20 * SUB)
}

/// A start height for an obstacle: 20 to 120 pixels above the top edge.
pub fn random_obstacle_y() -> (r: i32)
    ensures
        SCREEN_HEIGHT + 20 * SUB <= r < SCREEN_HEIGHT + 120 * SUB,
{
    SCREEN_HEIGHT + random_in(20 * SUB, 120 * SUB)
}

pub fn vec3(x: i32, y: i32, z: i32) -> (r: Vec3)
    ensures
        r == (Vec3 { x, y, z }),
{
    Vec3 { x, y, z }
}

/// A transform at the given place with the given size, unrotated.
pub fn transform_at(x: i32, y: i32, width: i32, height: i32) -> (r: Transform)
    ensures
        r == (Transform {
            position: Vec3 { x, y, z: 0 },
            rotation: Vec3 { x: 0, y: 0, z: 0 },
            scale: Vec3 { x: width, y: height, z: UNIT_SCALE },
        }),
{
    Transform {
        position: vec3(x, y, 0),
        rotation: vec3(0, 0, 0),
        scale: vec3(width, height, UNIT_SCALE),
    }
}

/// The world spawned `n` more entities and is otherwise well formed.
pub open spec fn spawned_more(before: InternalWorld, after: InternalWorld, n: int) -> bool {
    &&& after.wf()
    &&& after.next_entity == before.next_entity + n
}

/// The entities `start .. start + n` are live and each has exactly `kinds`.
pub open spec fn all_of_kinds(w: InternalWorld, start: u64, n: int, kinds: ComponentTypeSet) -> bool {
    forall|j: int| 0 <= j < n ==> #[trigger] live_of_kinds(w, (start + j) as u64, kinds)
}

/// Entity `id` is live and has exactly `kinds`.
pub open spec fn live_of_kinds(w: InternalWorld, id: u64, kinds: ComponentTypeSet) -> bool {
    w.entities@.contains_key(id) && w.kinds_of(Entity(id)) == kinds
}

/// Spawning one more entity of `kinds` extends a run of entities of `kinds`.
pub proof fn lemma_kinds_extend(
    w0: InternalWorld,
    w1: InternalWorld,
    start: u64,
    n: int,
    kinds: ComponentTypeSet,
)
    requires
        w0.wf(),
        w1.wf(),
        n >= 0,
        start + n <= u64::MAX,
        InternalWorld::spawned(w0, w1, Entity((start + n) as u64)),
        all_of_kinds(w0, start, n, kinds),
        w1.kinds_of(Entity((start + n) as u64)) == kinds,
    ensures
        all_of_kinds(w1, start, n + 1, kinds),
{
    assert forall|j: int| 0 <= j < n + 1 implies #[trigger] live_of_kinds(w1, (start + j) as u64, kinds) by {
        if j < n {
            assert(live_of_kinds(w0, (start + j) as u64, kinds));
            assert(w0.entities@.contains_key((start + j) as u64));
            InternalWorld::lemma_spawn_keeps(w0, w1, Entity((start + n) as u64), Entity((start + j) as u64));
            assert(w1.entities@.contains_key(Entity((start + j) as u64).0));
        } else {
            assert(j == n);
            assert(w1.entities@.contains_key(Entity((start + n) as u64).0));
        }
    }
}

/// Spawning keeps every live entity live with the same kinds.
pub proof fn lemma_live_kept(w0: InternalWorld, w1: InternalWorld, e: Entity)
    requires
        w0.wf(),
        w1.wf(),
        InternalWorld::spawned(w0, w1, e),
    ensures
        forall|id: u64, k: ComponentTypeSet| #[trigger] live_of_kinds(w0, id, k) ==> live_of_kinds(w1, id, k),
{
    assert forall|id: u64, k: ComponentTypeSet| #[trigger] live_of_kinds(w0, id, k) implies live_of_kinds(w1, id, k) by {
        InternalWorld::lemma_spawn_keeps(w0, w1, e, Entity(id));
    }
}

pub open spec fn button_kinds() -> ComponentTypeSet {
    ComponentTypeSet::spec_of(seq![ComponentType::Button])
}

pub open spec fn player_kinds() -> ComponentTypeSet {
    ComponentTypeSet::spec_of(
        seq![ComponentType::Transform, ComponentType::Velocity, ComponentType::Material, ComponentType::Sprite, ComponentType::Player],
    )
}

pub open spec fn obstacle_kinds() -> ComponentTypeSet {
    ComponentTypeSet::spec_of(
        seq![ComponentType::Transform, ComponentType::Velocity, ComponentType::Material, ComponentType::Sprite, ComponentType::Obstacle],
    )
}

pub open spec fn sprite_kinds() -> ComponentTypeSet {
    ComponentTypeSet::spec_of(seq![ComponentType::Transform, ComponentType::Material, ComponentType::Sprite])
}

pub open spec fn mirror_kinds() -> ComponentTypeSet {
    ComponentTypeSet::spec_of(seq![ComponentType::Transform, ComponentType::Physics, ComponentType::Material])
}

/// Spawns a menu button.
pub fn spawn_button(
    world: &mut InternalWorld,
    rect: Rect,
    text: &str,
    action: ButtonAction,
)
    requires
        old(world).wf(),
        old(world).next_entity < u64::MAX,
    ensures
        spawned_more(*old(world), *final(world), 1),
        InternalWorld::spawned(*old(world), *final(world), Entity(old(world).next_entity)),
        final(world).kinds_of(Entity(old(world).next_entity)) == button_kinds(),
        final(world).component_of(Entity(old(world).next_entity), ComponentType::Button) matches ComponentValue::Button(b)
            && b.rect == rect && b.text@ == text@ && b.action == action,
{
    let owned = text.to_owned();
    let ghost t = owned@;
    world.spawn((Button { rect, text: owned, action },));
    assert(seq![ComponentType::Button][0] == ComponentType::Button);
}

pub fn rect(x: i32, y: i32, width: i32, height: i32) -> (r: Rect)
    ensures
        r == (Rect { x, y, width, height }),
{
    Rect { x, y, width, height }
}

/// Spawns the three rows of volume buttons, from `first_row_y` down in
/// steps of 56 pixels, and the fullscreen toggle below them.
pub fn spawn_settings_buttons(world: &mut InternalWorld, first_row_y: i32)
    requires
        old(world).wf(),
        old(world).next_entity + 7 <= u64::MAX,
        -100000 <= first_row_y <= 100000,
    ensures
        spawned_more(*old(world), *final(world), 7),
        all_of_kinds(*final(world), old(world).next_entity, 7, button_kinds()),
        forall|id: u64, k: ComponentTypeSet| #[trigger] live_of_kinds(*old(world), id, k) ==> live_of_kinds(*final(world), id, k),
{
    let row_step: i32 = 56 * SUB;
    let minus_x: i32 = 240 * SUB;
    let plus_x: i32 = 510 * SUB;
    let volume_button_w: i32 = 50 * SUB;
    let button_h: i32 = 40 * SUB;
    let start = world.next_entity;
    let ghost w0 = *world;
    spawn_button(world, rect(minus_x, first_row_y, volume_button_w, button_h), "-", ButtonAction::MasterVolumeDown);
    let ghost w1 = *world;
    proof { lemma_kinds_extend(w0, w1, start, 0, button_kinds()); lemma_live_kept(w0, w1, Entity((start + 0) as u64)); }
    spawn_button(world, rect(plus_x, first_row_y, volume_button_w, button_h), "+", ButtonAction::MasterVolumeUp);
    let ghost w2 = *world;
    proof { lemma_kinds_extend(w1, w2, start, 1, button_kinds()); lemma_live_kept(w1, w2, Entity((start + 1) as u64)); }
    let y2 = first_row_y - row_step;
    spawn_button(world, rect(minus_x, y2, volume_button_w, button_h), "-", ButtonAction::BgmVolumeDown);
    let ghost w3 = *world;
    proof { lemma_kinds_extend(w2, w3, start, 2, button_kinds()); lemma_live_kept(w2, w3, Entity((start + 2) as u64)); }
    spawn_button(world, rect(plus_x, y2, volume_button_w, button_h), "+", ButtonAction::BgmVolumeUp);
    let ghost w4 = *world;
    proof { lemma_kinds_extend(w3, w4, start, 3, button_kinds()); lemma_live_kept(w3, w4, Entity((start + 3) as u64)); }
    let y3 = first_row_y - row_step * 2;
    spawn_button(world, rect(minus_x, y3, volume_button_w, button_h), "-", ButtonAction::SeVolumeDown);
    let ghost w5 = *world;
    proof { lemma_kinds_extend(w4, w5, start, 4, button_kinds()); lemma_live_kept(w4, w5, Entity((start + 4) as u64)); }
    spawn_button(world, rect(plus_x, y3, volume_button_w, button_h), "+", ButtonAction::SeVolumeUp);
    let ghost w6 = *world;
    proof { lemma_kinds_extend(w5, w6, start, 5, button_kinds()); lemma_live_kept(w5, w6, Entity((start + 5) as u64)); }
    spawn_button(
        world,
        rect(250 * SUB, first_row_y - row_step * 3, 300 * SUB, button_h),
        "Toggle Fullscreen",
        ButtonAction::ToggleFullscreen,
    );
    proof { lemma_kinds_extend(w6, *world, start, 6, button_kinds()); lemma_live_kept(w6, *world, Entity((start + 6) as u64)); }
}

/// Spawns the player at the bottom centre, standing still.
pub fn spawn_player(world: &mut InternalWorld, texture_handle: u32)
    requires
        old(world).wf(),
        old(world).next_entity < u64::MAX,
    ensures
        spawned_more(*old(world), *final(world), 1),
        InternalWorld::spawned(*old(world), *final(world), Entity(old(world).next_entity)),
        final(world).kinds_of(Entity(old(world).next_entity)) == player_kinds(),
        final(world).component_of(Entity(old(world).next_entity), ComponentType::Transform)
            == ComponentValue::Transform(Transform {
            position: Vec3 { x: (SCREEN_WIDTH / 2) as i32, y: (80 * SUB) as i32, z: 0 },
            rotation: Vec3 { x: 0, y: 0, z: 0 },
            scale: Vec3 { x: PLAYER_SIZE, y: PLAYER_SIZE, z: UNIT_SCALE },
        }),
        final(world).component_of(Entity(old(world).next_entity), ComponentType::Velocity)
            == ComponentValue::Velocity(Velocity { x: 0, y: 0, z: 0 }),
        final(world).component_of(Entity(old(world).next_entity), ComponentType::Material)
            == ComponentValue::Material(Material { texture_handle }),
{
    world.spawn(
        (
            transform_at(SCREEN_WIDTH / 2, 80 * SUB, PLAYER_SIZE, PLAYER_SIZE),
            Velocity { x: 0, y: 0, z: 0 },
            Material { texture_handle },
            Sprite,
            Player,
        ),
    );
    assert(seq![ComponentType::Transform, ComponentType::Velocity, ComponentType::Material, ComponentType::Sprite, ComponentType::Player][0] == ComponentType::Transform);
    assert(seq![ComponentType::Transform, ComponentType::Velocity, ComponentType::Material, ComponentType::Sprite, ComponentType::Player][1] == ComponentType::Velocity);
    assert(seq![ComponentType::Transform, ComponentType::Velocity, ComponentType::Material, ComponentType::Sprite, ComponentType::Player][2] == ComponentType::Material);
}

/// Spawns one obstacle above the top edge at a random place, falling at
/// the base speed.
pub fn spawn_obstacle(world: &mut InternalWorld, texture_handle: u32)
    requires
        old(world).wf(),
        old(world).next_entity < u64::MAX,
    ensures
        spawned_more(*old(world), *final(world), 1),
        InternalWorld::spawned(*old(world), *final(world), Entity(old(world).next_entity)),
        final(world).kinds_of(Entity(old(world).next_entity)) == obstacle_kinds(),
        final(world).component_of(Entity(old(world).next_entity), ComponentType::Transform) matches ComponentValue::Transform(t)
            && crate::systems::in_spawn_band(t) && t.scale == (Vec3 { x: OBSTACLE_SIZE, y: OBSTACLE_SIZE, z: UNIT_SCALE }),
        final(world).component_of(Entity(old(world).next_entity), ComponentType::Velocity)
            == ComponentValue::Velocity(Velocity { x: 0, y: (-BASE_OBSTACLE_SPEED) as i32, z: 0 }),
        final(world).component_of(Entity(old(world).next_entity), ComponentType::Material)
            == ComponentValue::Material(Material { texture_handle }),
{
    let x = random_obstacle_x();
    let y = random_obstacle_y();
    world.spawn(
        (
            transform_at(x, y, OBSTACLE_SIZE, OBSTACLE_SIZE),
            Velocity { x: 0, y: -BASE_OBSTACLE_SPEED, z: 0 },
            Material { texture_handle },
            Sprite,
            Obstacle,
        ),
    );
    assert(seq![ComponentType::Transform, ComponentType::Velocity, ComponentType::Material, ComponentType::Sprite, ComponentType::Obstacle][0] == ComponentType::Transform);
    assert(seq![ComponentType::Transform, ComponentType::Velocity, ComponentType::Material, ComponentType::Sprite, ComponentType::Obstacle][1] == ComponentType::Velocity);
    assert(seq![ComponentType::Transform, ComponentType::Velocity, ComponentType::Material, ComponentType::Sprite, ComponentType::Obstacle][2] == ComponentType::Material);
}

/// Spawns a sprite drawn with the texture.
pub fn spawn_sprite(world: &mut InternalWorld, transform: Transform, texture_handle: u32)
    requires
        old(world).wf(),
        old(world).next_entity < u64::MAX,
    ensures
        spawned_more(*old(world), *final(world), 1),
        InternalWorld::spawned(*old(world), *final(world), Entity(old(world).next_entity)),
        final(world).kinds_of(Entity(old(world).next_entity)) == sprite_kinds(),
        final(world).component_of(Entity(old(world).next_entity), ComponentType::Transform)
            == ComponentValue::Transform(transform),
        final(world).component_of(Entity(old(world).next_entity), ComponentType::Material)
            == ComponentValue::Material(Material { texture_handle }),
{
    world.spawn((transform, Material { texture_handle }, Sprite));
    assert(seq![ComponentType::Transform, ComponentType::Material, ComponentType::Sprite][0] == ComponentType::Transform);
    assert(seq![ComponentType::Transform, ComponentType::Material, ComponentType::Sprite][1] == ComponentType::Material);
}

/// Spawns the visual mirror of a body of the host's physics simulation.
pub fn spawn_physics_mirror(
    world: &mut InternalWorld,
    transform: Transform,
    body_id: u64,
    texture_handle: u32,
)
    requires
        old(world).wf(),
        old(world).next_entity < u64::MAX,
    ensures
        spawned_more(*old(world), *final(world), 1),
        InternalWorld::spawned(*old(world), *final(world), Entity(old(world).next_entity)),
        final(world).kinds_of(Entity(old(world).next_entity)) == mirror_kinds(),
        final(world).component_of(Entity(old(world).next_entity), ComponentType::Transform)
            == ComponentValue::Transform(transform),
        final(world).component_of(Entity(old(world).next_entity), ComponentType::Physics)
            == ComponentValue::Physics(PhysicsBody { id: body_id }),
        final(world).component_of(Entity(old(world).next_entity), ComponentType::Material)
            == ComponentValue::Material(Material { texture_handle }),
{
    world.spawn((transform, PhysicsBody { id: body_id }, Material { texture_handle }));
    assert(seq![ComponentType::Transform, ComponentType::Physics, ComponentType::Material][0] == ComponentType::Transform);
    assert(seq![ComponentType::Transform, ComponentType::Physics, ComponentType::Material][1] == ComponentType::Physics);
    assert(seq![ComponentType::Transform, ComponentType::Physics, ComponentType::Material][2] == ComponentType::Material);
}

/// Clears every kind of component in turn, which empties every archetype
/// that has any kind.
pub fn clear_all_kinds(world: &mut InternalWorld)
    requires
        old(world).wf(),
    ensures
        final(world).wf(),
        final(world).next_entity == old(world).next_entity,
        final(world).archetype_sets() == old(world).archetype_sets(),
        forall|k: u64, t: ComponentType|
            final(world).entities@.contains_key(k) ==> !#[trigger] final(world).kinds_of(Entity(k)).has(t),
{
    let ghost w0 = *world;
    world.clear_entities_of_component(ComponentType::Transform);
    let ghost w1 = *world;
    world.clear_entities_of_component(ComponentType::Velocity);
    let ghost w2 = *world;
    world.clear_entities_of_component(ComponentType::Material);
    let ghost w3 = *world;
    world.clear_entities_of_component(ComponentType::Player);
    let ghost w4 = *world;
    world.clear_entities_of_component(ComponentType::Obstacle);
    let ghost w5 = *world;
    world.clear_entities_of_component(ComponentType::Button);
    let ghost w6 = *world;
    world.clear_entities_of_component(ComponentType::Physics);
    let ghost w7 = *world;
    world.clear_entities_of_component(ComponentType::Sprite);
    proof {
        InternalWorld::lemma_cleared_keeps_kinds(w0, w1, ComponentType::Transform);
        InternalWorld::lemma_cleared_keeps_kinds(w1, w2, ComponentType::Velocity);
        InternalWorld::lemma_cleared_keeps_kinds(w2, w3, ComponentType::Material);
        InternalWorld::lemma_cleared_keeps_kinds(w3, w4, ComponentType::Player);
        InternalWorld::lemma_cleared_keeps_kinds(w4, w5, ComponentType::Obstacle);
        InternalWorld::lemma_cleared_keeps_kinds(w5, w6, ComponentType::Button);
        InternalWorld::lemma_cleared_keeps_kinds(w6, w7, ComponentType::Physics);
        InternalWorld::lemma_cleared_keeps_kinds(w7, *world, ComponentType::Sprite);
        assert forall|k: u64, t: ComponentType|
            world.entities@.contains_key(k) implies !#[trigger] world.kinds_of(Entity(k)).has(t) by {
            assert(w7.entities@.contains_key(k));
            assert(w6.entities@.contains_key(k));
            assert(w5.entities@.contains_key(k));
            assert(w4.entities@.contains_key(k));
            assert(w3.entities@.contains_key(k));
            assert(w2.entities@.contains_key(k));
            assert(w1.entities@.contains_key(k));
            match t {
                ComponentType::Transform => {},
                ComponentType::Velocity => {},
                ComponentType::Material => {},
                ComponentType::Player => {},
                ComponentType::Obstacle => {},
                ComponentType::Button => {},
                ComponentType::Physics => {},
                ComponentType::Sprite => {},
            }
        }
    }
}

} // verus!
