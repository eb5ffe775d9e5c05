use vstd::prelude::*;

use crate::components::{ComponentType, Transform, Velocity};
use crate::assets::AssetServer;
use crate::ecs::{Archetype, InternalWorld};
use crate::geometry::{Vec2, Vec3};
use crate::world_setup::{SCREEN_HEIGHT, SCREEN_WIDTH};

verus! {

/// Speed of the player along one axis, in pixels per second.
pub const PLAYER_SPEED: i32 = 260;

/// Speed of the player along each axis when moving diagonally: the player
/// speed divided by the square root of two, rounded down.
pub const DIAGONAL_SPEED: i32 = 183;

/// The diagonal speed is the largest integer whose diagonal does not exceed the player speed.
pub proof fn lemma_diagonal_speed()
    ensures
        2 * DIAGONAL_SPEED * DIAGONAL_SPEED <= PLAYER_SPEED * PLAYER_SPEED,
        PLAYER_SPEED * PLAYER_SPEED < 2 * (DIAGONAL_SPEED + 1) * (DIAGONAL_SPEED + 1),
{
}

/// The host's input snapshot for one frame; the pointer is in sub-pixels.
#[derive(Debug, Clone, Copy, PartialEq, Eq, Structural, Default)]
pub struct InputState {
    pub up: bool,
    pub down: bool,
    pub left: bool,
    pub right: bool,
    pub esc_key: bool,
    pub s_key: bool,
    pub p_key: bool,
    pub u_key: bool,
    pub mouse_pos: Vec2,
    pub mouse_clicked: bool,
}

/// An axis-aligned box, in sub-pixels.
#[derive(Debug, Clone, Copy, PartialEq, Eq, Structural)]
pub struct Bounds {
    pub left: i64,
    pub bottom: i64,
    pub right: i64,
    pub top: i64,
}

pub open spec fn axis(negative: bool, positive: bool) -> int {
    (if positive {
        1int
    } else {
        0int
    }) - (if negative {
        1int
    } else {
        0int
    })
}

/// The player's velocity for the input: unit speed along one axis, or the
/// diagonal speed along both.
pub open spec fn steer(input: InputState) -> (int, int) {
    let mx = axis(input.left, input.right);
    let my = axis(input.down, input.up);
    if mx != 0 && my != 0 {
        (mx * DIAGONAL_SPEED, my * DIAGONAL_SPEED)
    } else {
        (mx * PLAYER_SPEED, my * PLAYER_SPEED)
    }
}

/// Half of a length, rounded toward zero.
pub open spec fn half(v: int) -> int {
    if v >= 0 {
        v / 2
    } else {
        -((-v) / 2)
    }
}

pub open spec fn clamp_int(v: int, lo: int, hi: int) -> int {
    if v < lo {
        lo
    } else if v > hi {
        hi
    } else {
        v
    }
}

/// The player's transform after one step at the input's velocity, kept on screen.
pub open spec fn moved_player(t: Transform, input: InputState) -> Transform {
    let (vx, vy) = steer(input);
    let hw = half(t.scale.x as int);
    let hh = half(t.scale.y as int);
    Transform {
        position: Vec3 {
            x: clamp_int(t.position.x + vx, hw, SCREEN_WIDTH - hw) as i32,
            y: clamp_int(t.position.y + vy, hh, SCREEN_HEIGHT - hh) as i32,
            z: t.position.z,
        },
        rotation: t.rotation,
        scale: t.scale,
    }
}

pub open spec fn steered(v: Velocity, input: InputState) -> Velocity {
    Velocity { x: steer(input).0 as i32, y: steer(input).1 as i32, z: v.z }
}

/// The box a transform covers.
pub open spec fn bounds_of(t: Transform) -> Bounds {
    let hw = half(t.scale.x as int);
    let hh = half(t.scale.y as int);
    Bounds {
        left: (t.position.x - hw) as i64,
        bottom: (t.position.y - hh) as i64,
        right: (t.position.x + hw) as i64,
        top: (t.position.y + hh) as i64,
    }
}

pub fn half_exec(v: i32) -> (r: i32)
    ensures
        r == half(v as int),
{
    if v >= 0 {
        v / 2
    } else {
        let m: i64 = -(v as i64);
        -((m / 2) as i32)
    }
}

pub fn clamp_exec(v: i64, lo: i64, hi: i64) -> (r: i64)
    ensures
        r == clamp_int(v as int, lo as int, hi as int),
{
    if v < lo {
        lo
    } else if v > hi {
        hi
    } else {
        v
    }
}

fn axis_exec(negative: bool, positive: bool) -> (r: i32)
    ensures
        r == axis(negative, positive),
{
    let mut r: i32 = 0;
    if positive {
        r = r + 1;
    }
    if negative {
        r = r - 1;
    }
    r
}

/// The player's velocity for the input.
pub fn steer_exec(input: &InputState) -> (r: (i32, i32))
    ensures
        r.0 == steer(*input).0,
        r.1 == steer(*input).1,
{
    let mx = axis_exec(input.left, input.right);
    let my = axis_exec(input.down, input.up);
    if mx != 0 && my != 0 {
        (mx * DIAGONAL_SPEED, my * DIAGONAL_SPEED)
    } else {
        (mx * PLAYER_SPEED, my * PLAYER_SPEED)
    }
}

pub fn move_player_exec(t: Transform, input: &InputState) -> (r: Transform)
    ensures
        r == moved_player(t, *input),
{
    let (vx, vy) = steer_exec(input);
    let hw = half_exec(t.scale.x) as i64;
    let hh = half_exec(t.scale.y) as i64;
    let x = clamp_exec(t.position.x as i64 + vx as i64, hw, SCREEN_WIDTH as i64 - hw);
    let y = clamp_exec(t.position.y as i64 + vy as i64, hh, SCREEN_HEIGHT as i64 - hh);
    Transform { position: Vec3 { x: x as i32, y: y as i32, z: t.position.z }, rotation: t.rotation, scale: t.scale }
}

pub fn bounds_exec(t: &Transform) -> (r: Bounds)
    ensures
        r == bounds_of(*t),
{
    let hw = half_exec(t.scale.x) as i64;
    let hh = half_exec(t.scale.y) as i64;
    Bounds {
        left: t.position.x as i64 - hw,
        bottom: t.position.y as i64 - hh,
        right: t.position.x as i64 + hw,
        top: t.position.y as i64 + hh,
    }
}

pub open spec fn is_player_kind(a: Archetype) -> bool {
    a.types.player && a.types.transform && a.types.velocity
}

/// The archetype after the movement step: a player archetype has each
/// transform moved and each velocity steered; every other column, and every
/// other archetype, is as it was.
pub open spec fn players_moved(before: Archetype, after: Archetype, input: InputState) -> bool {
    &&& Archetype::same_layout(before, after)
    &&& if is_player_kind(before) {
        &&& after.transforms@ == before.transforms@.map_values(|t: Transform| moved_player(t, input))
        &&& after.velocities@ == before.velocities@.map_values(|v: Velocity| steered(v, input))
        &&& after.materials@ == before.materials@
        &&& after.players@ == before.players@
        &&& after.obstacles@ == before.obstacles@
        &&& after.buttons@ == before.buttons@
        &&& after.physics_bodies@ == before.physics_bodies@
        &&& after.sprites@ == before.sprites@
    } else {
        after == before
    }
}

/// Whether row `(c, q)` comes after row `(b, r)` in archetype, then row, order.
pub open spec fn later(b: int, r: int, c: int, q: int) -> bool {
    b < c || (b == c && r < q)
}


/// What `move_players` does: players move as `players_moved` says, and
/// `bounds` is the box of the last player in archetype, then row, order.
pub open spec fn players_step(before: InternalWorld, after: InternalWorld, input: InputState, bounds: Option<Bounds>) -> bool {
    &&& after.wf()
    &&& after.entities@ == before.entities@
    &&& after.next_entity == before.next_entity
    &&& after.archetypes@.len() == before.archetypes@.len()
    &&& forall|a: int|
        0 <= a < before.archetypes@.len() ==> players_moved(
            #[trigger] before.archetypes@[a],
            after.archetypes@[a],
            input,
        )
    &&& bounds is None <==> forall|a: int|
        0 <= a < before.archetypes@.len() && is_player_kind(#[trigger] before.archetypes@[a])
            ==> before.archetypes@[a].entity_count == 0
    &&& bounds is Some ==> exists|a: int, r: int|
        0 <= a < after.archetypes@.len() && is_player_kind(after.archetypes@[a]) && 0 <= r
            < after.archetypes@[a].entity_count && bounds->0 == bounds_of(
            #[trigger] after.archetypes@[a].transforms@[r],
        ) && forall|c: int, q: int|
            0 <= c < before.archetypes@.len() && is_player_kind(before.archetypes@[c]) && 0 <= q
                < before.archetypes@[c].entity_count ==> !#[trigger] later(a, r, c, q)
}

/// An obstacle that hits the player is counted among the hits.
pub proof fn lemma_hit_counted(
    archetypes: Seq<Archetype>,
    n: int,
    a: int,
    i: int,
    speed: int,
    player: Option<Bounds>,
)
    requires
        0 <= a < n <= archetypes.len(),
        is_obstacle_kind(archetypes[a]),
        0 <= i < archetypes[a].entity_count,
        hits_player(archetypes[a].transforms@[i], speed, player),
    ensures
        total_hits(archetypes, n, speed, player) >= 1,
    decreases n,
{
    lemma_counts_nonneg(archetypes, n - 1, speed, player);
    if a < n - 1 {
        lemma_hit_counted(archetypes, n - 1, a, i, speed, player);
        lemma_rows_nonneg(archetypes[n - 1], archetypes[n - 1].entity_count as int, speed, player);
    } else {
        lemma_row_counted(archetypes[a], archetypes[a].entity_count as int, i, speed, player);
    }
}

proof fn lemma_row_counted(a: Archetype, rows: int, i: int, speed: int, player: Option<Bounds>)
    requires
        0 <= i < rows,
        hits_player(a.transforms@[i], speed, player),
    ensures
        rows_hitting(a, rows, speed, player) >= 1,
    decreases rows,
{
    lemma_rows_nonneg(a, rows - 1, speed, player);
    if i < rows - 1 {
        lemma_row_counted(a, rows - 1, i, speed, player);
    }
}

/// Moves every player by the input for one step, kept on screen, and
/// returns the box of the last player moved, if any.
pub fn move_players(world: &mut InternalWorld, input: &InputState) -> (bounds: Option<Bounds>)
    requires
        old(world).wf(),
    ensures
        final(world).wf(),
        final(world).entities@ == old(world).entities@,
        final(world).next_entity == old(world).next_entity,
        final(world).archetype_sets() == old(world).archetype_sets(),
        final(world).archetypes@.len() == old(world).archetypes@.len(),
        forall|a: int|
            0 <= a < old(world).archetypes@.len() ==> players_moved(
                #[trigger] old(world).archetypes@[a],
                final(world).archetypes@[a],
                *input,
            ),
        bounds is None <==> forall|a: int|
            0 <= a < old(world).archetypes@.len() && is_player_kind(
                #[trigger] old(world).archetypes@[a],
            ) ==> old(world).archetypes@[a].entity_count == 0,
        bounds is Some ==> exists|a: int, r: int|
            0 <= a < final(world).archetypes@.len() && is_player_kind(final(world).archetypes@[a])
                && 0 <= r < final(world).archetypes@[a].entity_count && bounds->0 == bounds_of(
                #[trigger] final(world).archetypes@[a].transforms@[r],
            ) && forall|c: int, q: int|
                0 <= c < old(world).archetypes@.len() && is_player_kind(old(world).archetypes@[c]) && 0
                    <= q < old(world).archetypes@[c].entity_count ==> !#[trigger] later(a, r, c, q),
        players_step(*old(world), *final(world), *input, bounds),
{
    let ghost start = *world;
    let mut bounds: Option<Bounds> = None;
    let mut a: usize = 0;
    while a < world.archetypes.len()
        invariant
            start.wf(),
            a <= world.archetypes@.len(),
            world.archetypes@.len() == start.archetypes@.len(),
            world.entities@ == start.entities@,
            world.next_entity == start.next_entity,
            forall|b: int|
                0 <= b < a ==> players_moved(
                    #[trigger] start.archetypes@[b],
                    world.archetypes@[b],
                    *input,
                ),
            forall|b: int|
                a <= b < world.archetypes@.len() ==> #[trigger] world.archetypes@[b]
                    == start.archetypes@[b],
            bounds is None <==> forall|b: int|
                0 <= b < a && is_player_kind(#[trigger] start.archetypes@[b])
                    ==> start.archetypes@[b].entity_count == 0,
            bounds is Some ==> exists|b: int, r: int|
                0 <= b < a && is_player_kind(world.archetypes@[b]) && 0 <= r
                    < world.archetypes@[b].entity_count && bounds->0 == bounds_of(
                    #[trigger] world.archetypes@[b].transforms@[r],
                ) && forall|c: int, q: int|
                    0 <= c < a && is_player_kind(start.archetypes@[c]) && 0 <= q
                        < start.archetypes@[c].entity_count ==> !#[trigger] later(b, r, c, q),
        decreases world.archetypes.len() - a,
    {
        let types = world.archetypes[a].types;
        if types.player && types.transform && types.velocity {
            let ghost before = world.archetypes@[a as int];
            proof {
                assert(before.wf());
                assert(before.column(ComponentType::Transform).len() == before.entity_count);
                assert(before.column(ComponentType::Velocity).len() == before.entity_count);
            }
            let count = world.archetypes[a].entity_count;
            let mut r: usize = 0;
            while r < count
                invariant
                    a < world.archetypes@.len(),
                    world.archetypes@.len() == start.archetypes@.len(),
                    world.entities@ == start.entities@,
                    world.next_entity == start.next_entity,
                    before == start.archetypes@[a as int],
                    is_player_kind(before),
                    count == before.entity_count,
                    before.transforms@.len() == count,
                    before.velocities@.len() == count,
                    r <= count,
                    forall|b: int|
                        0 <= b < a ==> players_moved(
                            #[trigger] start.archetypes@[b],
                            world.archetypes@[b],
                            *input,
                        ),
                    forall|b: int|
                        a < b < world.archetypes@.len() ==> #[trigger] world.archetypes@[b]
                            == start.archetypes@[b],
                    Archetype::same_layout(before, world.archetypes@[a as int]),
                    world.archetypes@[a as int].materials@ == before.materials@,
                    world.archetypes@[a as int].players@ == before.players@,
                    world.archetypes@[a as int].obstacles@ == before.obstacles@,
                    world.archetypes@[a as int].buttons@ == before.buttons@,
                    world.archetypes@[a as int].physics_bodies@ == before.physics_bodies@,
                    world.archetypes@[a as int].sprites@ == before.sprites@,
                    forall|i: int|
                        0 <= i < count ==> #[trigger] world.archetypes@[a as int].transforms@[i]
                            == if i < r {
                            moved_player(before.transforms@[i], *input)
                        } else {
                            before.transforms@[i]
                        },
                    forall|i: int|
                        0 <= i < count ==> #[trigger] world.archetypes@[a as int].velocities@[i]
                            == if i < r {
                            steered(before.velocities@[i], *input)
                        } else {
                            before.velocities@[i]
                        },
                    r > 0 ==> bounds == Some(
                        bounds_of(world.archetypes@[a as int].transforms@[r - 1]),
                    ),
                    r == 0 ==> (bounds is None <==> forall|b: int|
                        0 <= b < a && is_player_kind(#[trigger] start.archetypes@[b])
                            ==> start.archetypes@[b].entity_count == 0),
                    r == 0 ==> (bounds is Some ==> exists|b: int, q: int|
                        0 <= b < a && is_player_kind(world.archetypes@[b]) && 0 <= q
                            < world.archetypes@[b].entity_count && bounds->0 == bounds_of(
                            #[trigger] world.archetypes@[b].transforms@[q],
                        ) && forall|c: int, q2: int|
                            0 <= c < a && is_player_kind(start.archetypes@[c]) && 0 <= q2
                                < start.archetypes@[c].entity_count ==> !#[trigger] later(b, q, c, q2)),
                decreases count - r,
            {
                let t = world.archetypes[a].transforms[r];
                let (vx, vy) = steer_exec(input);
                let z = world.archetypes[a].velocities[r].z;
                let moved = move_player_exec(t, input);
                world.archetypes[a].velocities[r] = Velocity { x: vx, y: vy, z };
                world.archetypes[a].transforms[r] = moved;
                bounds = Some(bounds_exec(&moved));
                r += 1;
            }
            proof {
                let after = world.archetypes@[a as int];
                if count > 0 {
                    let r0 = count - 1;
                    assert(bounds->0 == bounds_of(world.archetypes@[a as int].transforms@[r0 as int]));
                    assert forall|c: int, q: int|
                        0 <= c < a + 1 && is_player_kind(start.archetypes@[c]) && 0 <= q
                            < start.archetypes@[c].entity_count implies !#[trigger] later(a as int, r0 as int, c, q) by {}
                }
                assert(after.transforms@ =~= before.transforms@.map_values(
                    |t: Transform| moved_player(t, *input),
                ));
                assert(after.velocities@ =~= before.velocities@.map_values(
                    |v: Velocity| steered(v, *input),
                ));
                if count > 0 {
                    assert(is_player_kind(world.archetypes@[a as int]));
                }
            }
        }
        a += 1;
    }
    proof {
        InternalWorld::lemma_same_layout(start, *world);
    }
    bounds
}


pub open spec fn overlaps(p: Bounds, o: Bounds) -> bool {
    p.left < o.right && p.right > o.left && p.bottom < o.top && p.top > o.bottom
}

pub fn overlaps_exec(p: &Bounds, o: &Bounds) -> (r: bool)
    ensures
        r == overlaps(*p, *o),
{
    p.left < o.right && p.right > o.left && p.bottom < o.top && p.top > o.bottom
}

pub open spec fn is_obstacle_kind(a: Archetype) -> bool {
    a.types.obstacle && a.types.transform && a.types.velocity
}

/// Whether a transform sits where obstacles are spawned: above the top edge,
/// 20 pixels clear of the side edges.
pub open spec fn in_spawn_band(t: Transform) -> bool {
    &&& 20 * crate::world_setup::SUB <= t.position.x < SCREEN_WIDTH - 20 * crate::world_setup::SUB
    &&& SCREEN_HEIGHT + 20 * crate::world_setup::SUB <= t.position.y < SCREEN_HEIGHT + 120
        * crate::world_setup::SUB
}

/// The transform after falling `speed` for one step, before any recycling.
pub open spec fn fallen(t: Transform, speed: int) -> Transform {
    Transform {
        position: Vec3 { x: t.position.x, y: (t.position.y - speed) as i32, z: t.position.z },
        rotation: t.rotation,
        scale: t.scale,
    }
}

/// Whether an obstacle that fell to `t` leaves through the bottom edge.
pub open spec fn fell_out(before: Transform, speed: int) -> bool {
    before.position.y - speed < -crate::world_setup::OBSTACLE_SIZE
}

/// Whether an obstacle at its fallen place hits the player's box.
pub open spec fn hits_player(before: Transform, speed: int, player: Option<Bounds>) -> bool {
    !fell_out(before, speed) && player is Some && overlaps(
        player->0,
        bounds_of(fallen(before, speed)),
    )
}

/// One obstacle after a step: it falls at `speed`; if it left the screen or
/// hit the player it is recycled to a random place above the top edge.
pub open spec fn obstacle_stepped(
    before: Transform,
    after: Transform,
    speed: int,
    player: Option<Bounds>,
) -> bool {
    &&& after.rotation == before.rotation
    &&& after.scale == before.scale
    &&& after.position.z == before.position.z
    &&& if fell_out(before, speed) || hits_player(before, speed, player) {
        in_spawn_band(after)
    } else {
        after == fallen(before, speed)
    }
}

pub open spec fn obstacles_stepped(
    before: Archetype,
    after: Archetype,
    speed: int,
    player: Option<Bounds>,
) -> bool {
    &&& Archetype::same_layout(before, after)
    &&& if is_obstacle_kind(before) {
        &&& forall|i: int|
            0 <= i < before.entity_count ==> obstacle_stepped(
                #[trigger] before.transforms@[i],
                after.transforms@[i],
                speed,
                player,
            )
        &&& forall|i: int|
            0 <= i < before.entity_count ==> #[trigger] after.velocities@[i] == (Velocity {
                x: before.velocities@[i].x,
                y: -speed as i32,
                z: before.velocities@[i].z,
            })
        &&& after.materials@ == before.materials@
        &&& after.players@ == before.players@
        &&& after.obstacles@ == before.obstacles@
        &&& after.buttons@ == before.buttons@
        &&& after.physics_bodies@ == before.physics_bodies@
        &&& after.sprites@ == before.sprites@
    } else {
        after == before
    }
}


pub open spec fn sat32(n: int) -> u32 {
    if n > u32::MAX {
        u32::MAX
    } else {
        n as u32
    }
}

/// How many of the first `rows` obstacles of an archetype hit the player.
pub open spec fn rows_hitting(a: Archetype, rows: int, speed: int, player: Option<Bounds>) -> int
    decreases rows,
{
    if rows <= 0 {
        0
    } else {
        rows_hitting(a, rows - 1, speed, player) + if hits_player(a.transforms@[rows - 1], speed, player) {
            1int
        } else {
            0int
        }
    }
}

/// How many of the first `rows` obstacles of an archetype leave through the bottom edge.
pub open spec fn rows_falling(a: Archetype, rows: int, speed: int) -> int
    decreases rows,
{
    if rows <= 0 {
        0
    } else {
        rows_falling(a, rows - 1, speed) + if fell_out(a.transforms@[rows - 1], speed) {
            1int
        } else {
            0int
        }
    }
}

/// How many obstacles of the first `n` archetypes hit the player this step.
pub open spec fn total_hits(archetypes: Seq<Archetype>, n: int, speed: int, player: Option<Bounds>) -> int
    decreases n,
{
    if n <= 0 {
        0
    } else {
        total_hits(archetypes, n - 1, speed, player) + if is_obstacle_kind(archetypes[n - 1]) {
            rows_hitting(archetypes[n - 1], archetypes[n - 1].entity_count as int, speed, player)
        } else {
            0
        }
    }
}

/// How many obstacles of the first `n` archetypes leave the screen this step.
pub open spec fn total_falls(archetypes: Seq<Archetype>, n: int, speed: int) -> int
    decreases n,
{
    if n <= 0 {
        0
    } else {
        total_falls(archetypes, n - 1, speed) + if is_obstacle_kind(archetypes[n - 1]) {
            rows_falling(archetypes[n - 1], archetypes[n - 1].entity_count as int, speed)
        } else {
            0
        }
    }
}

pub proof fn lemma_counts_nonneg(archetypes: Seq<Archetype>, n: int, speed: int, player: Option<Bounds>)
    ensures
        total_hits(archetypes, n, speed, player) >= 0,
        total_falls(archetypes, n, speed) >= 0,
        n >= 0 && n < archetypes.len() ==> rows_hitting(archetypes[n], archetypes[n].entity_count as int, speed, player) >= 0,
    decreases n,
{
    if n > 0 {
        lemma_counts_nonneg(archetypes, n - 1, speed, player);
        lemma_rows_nonneg(archetypes[n - 1], archetypes[n - 1].entity_count as int, speed, player);
    }
    if n >= 0 && n < archetypes.len() {
        lemma_rows_nonneg(archetypes[n], archetypes[n].entity_count as int, speed, player);
    }
}

pub proof fn lemma_rows_nonneg(a: Archetype, rows: int, speed: int, player: Option<Bounds>)
    ensures
        rows_hitting(a, rows, speed, player) >= 0,
        rows_falling(a, rows, speed) >= 0,
    decreases rows,
{
    if rows > 0 {
        lemma_rows_nonneg(a, rows - 1, speed, player);
    }
}

/// What one obstacle step did to the counters.
#[derive(Debug, Clone, Copy, PartialEq, Eq, Structural, Default)]
pub struct ObstacleStep {
    /// Obstacles that hit the player.
    pub hits: u32,
    /// Obstacles that left through the bottom edge.
    pub avoided: u32,
}

/// Moves every obstacle down by `speed` for one step and recycles those
/// that left the screen or hit the player's box.
pub fn advance_obstacles(world: &mut InternalWorld, player: Option<Bounds>, speed: i32) -> (step: ObstacleStep)
    requires
        old(world).wf(),
        0 < speed <= 100_000_000,
    ensures
        final(world).wf(),
        final(world).entities@ == old(world).entities@,
        final(world).next_entity == old(world).next_entity,
        final(world).archetype_sets() == old(world).archetype_sets(),
        final(world).archetypes@.len() == old(world).archetypes@.len(),
        forall|a: int|
            0 <= a < old(world).archetypes@.len() ==> obstacles_stepped(
                #[trigger] old(world).archetypes@[a],
                final(world).archetypes@[a],
                speed as int,
                player,
            ),
        (exists|a: int, i: int|
            0 <= a < old(world).archetypes@.len() && is_obstacle_kind(old(world).archetypes@[a])
                && 0 <= i < old(world).archetypes@[a].entity_count && hits_player(
                #[trigger] old(world).archetypes@[a].transforms@[i],
                speed as int,
                player,
            )) ==> step.hits > 0,
        step.hits > 0 ==> player is Some,
        step.hits == sat32(total_hits(old(world).archetypes@, old(world).archetypes@.len() as int, speed as int, player)),
        step.avoided == sat32(total_falls(old(world).archetypes@, old(world).archetypes@.len() as int, speed as int)),
{
    let ghost start = *world;
    let mut hits: u32 = 0;
    let mut avoided: u32 = 0;
    let mut a: usize = 0;
    while a < world.archetypes.len()
        invariant
            start.wf(),
            0 < speed <= 100_000_000,
            a <= world.archetypes@.len(),
            world.archetypes@.len() == start.archetypes@.len(),
            world.entities@ == start.entities@,
            world.next_entity == start.next_entity,
            forall|b: int|
                0 <= b < a ==> obstacles_stepped(
                    #[trigger] start.archetypes@[b],
                    world.archetypes@[b],
                    speed as int,
                    player,
                ),
            forall|b: int|
                a <= b < world.archetypes@.len() ==> #[trigger] world.archetypes@[b]
                    == start.archetypes@[b],
            (exists|b: int, i: int|
                0 <= b < a && is_obstacle_kind(start.archetypes@[b]) && 0 <= i
                    < start.archetypes@[b].entity_count && hits_player(
                    #[trigger] start.archetypes@[b].transforms@[i],
                    speed as int,
                    player,
                )) ==> hits > 0,
            hits > 0 ==> player is Some,
            hits == sat32(total_hits(start.archetypes@, a as int, speed as int, player)),
            avoided == sat32(total_falls(start.archetypes@, a as int, speed as int)),
        decreases world.archetypes.len() - a,
    {
        let types = world.archetypes[a].types;
        if types.obstacle && types.transform && types.velocity {
            let ghost before = world.archetypes@[a as int];
            proof {
                assert(before.wf());
                assert(before.column(ComponentType::Transform).len() == before.entity_count);
                assert(before.column(ComponentType::Velocity).len() == before.entity_count);
            }
            let count = world.archetypes[a].entity_count;
            let mut r: usize = 0;
            proof {
                lemma_counts_nonneg(start.archetypes@, a as int, speed as int, player);
            }
            while r < count
                invariant
                    0 < speed <= 100_000_000,
                    a < world.archetypes@.len(),
                    world.archetypes@.len() == start.archetypes@.len(),
                    world.entities@ == start.entities@,
                    world.next_entity == start.next_entity,
                    before == start.archetypes@[a as int],
                    is_obstacle_kind(before),
                    count == before.entity_count,
                    before.transforms@.len() == count,
                    before.velocities@.len() == count,
                    r <= count,
                    forall|b: int|
                        0 <= b < a ==> obstacles_stepped(
                            #[trigger] start.archetypes@[b],
                            world.archetypes@[b],
                            speed as int,
                            player,
                        ),
                    forall|b: int|
                        a < b < world.archetypes@.len() ==> #[trigger] world.archetypes@[b]
                            == start.archetypes@[b],
                    Archetype::same_layout(before, world.archetypes@[a as int]),
                    world.archetypes@[a as int].materials@ == before.materials@,
                    world.archetypes@[a as int].players@ == before.players@,
                    world.archetypes@[a as int].obstacles@ == before.obstacles@,
                    world.archetypes@[a as int].buttons@ == before.buttons@,
                    world.archetypes@[a as int].physics_bodies@ == before.physics_bodies@,
                    world.archetypes@[a as int].sprites@ == before.sprites@,
                    forall|i: int|
                        0 <= i < r ==> obstacle_stepped(
                            #[trigger] before.transforms@[i],
                            world.archetypes@[a as int].transforms@[i],
                            speed as int,
                            player,
                        ),
                    forall|i: int|
                        r <= i < count ==> #[trigger] world.archetypes@[a as int].transforms@[i]
                            == before.transforms@[i],
                    forall|i: int|
                        0 <= i < r ==> #[trigger] world.archetypes@[a as int].velocities@[i] == (
                        Velocity {
                            x: before.velocities@[i].x,
                            y: -speed as i32,
                            z: before.velocities@[i].z,
                        }),
                    forall|i: int|
                        r <= i < count ==> #[trigger] world.archetypes@[a as int].velocities@[i]
                            == before.velocities@[i],
                    (exists|b: int, i: int|
                        0 <= b < a && is_obstacle_kind(start.archetypes@[b]) && 0 <= i
                            < start.archetypes@[b].entity_count && hits_player(
                            #[trigger] start.archetypes@[b].transforms@[i],
                            speed as int,
                            player,
                        )) ==> hits > 0,
                    (exists|i: int|
                        0 <= i < r && hits_player(#[trigger] before.transforms@[i], speed as int, player))
                        ==> hits > 0,
                    hits > 0 ==> player is Some,
                    hits == sat32(total_hits(start.archetypes@, a as int, speed as int, player) + rows_hitting(before, r as int, speed as int, player)),
                    avoided == sat32(total_falls(start.archetypes@, a as int, speed as int) + rows_falling(before, r as int, speed as int)),
                decreases count - r,
            {
                let t = world.archetypes[a].transforms[r];
                let v = world.archetypes[a].velocities[r];
                world.archetypes[a].velocities[r] = Velocity { x: v.x, y: -speed, z: v.z };
                let fallen_y: i64 = t.position.y as i64 - speed as i64;
                let mut moved = t;
                if fallen_y < -(crate::world_setup::OBSTACLE_SIZE as i64) {
                    moved.position.y = crate::world_setup::random_obstacle_y();
                    moved.position.x = crate::world_setup::random_obstacle_x();
                    avoided = avoided.saturating_add(1);
                } else {
                    moved.position.y = fallen_y as i32;
                    match player {
                        Some(p) => {
                            let ob = bounds_exec(&moved);
                            if overlaps_exec(&p, &ob) {
                                hits = hits.saturating_add(1);
                                moved.position.y = crate::world_setup::random_obstacle_y();
                                moved.position.x = crate::world_setup::random_obstacle_x();
                            }
                        },
                        None => {},
                    }
                }
                world.archetypes[a].transforms[r] = moved;
                proof {
                    lemma_counts_nonneg(start.archetypes@, a as int, speed as int, player);
                    lemma_rows_nonneg(before, r as int, speed as int, player);
                    assert(before.transforms@[r as int] == t);
                }
                r += 1;
            }
        }
        proof {
            lemma_counts_nonneg(start.archetypes@, a as int, speed as int, player);
            assert(total_hits(start.archetypes@, a as int + 1, speed as int, player) == total_hits(start.archetypes@, a as int, speed as int, player) + if is_obstacle_kind(start.archetypes@[a as int]) {
                rows_hitting(start.archetypes@[a as int], start.archetypes@[a as int].entity_count as int, speed as int, player)
            } else {
                0
            });
            assert(total_falls(start.archetypes@, a as int + 1, speed as int) == total_falls(start.archetypes@, a as int, speed as int) + if is_obstacle_kind(start.archetypes@[a as int]) {
                rows_falling(start.archetypes@[a as int], start.archetypes@[a as int].entity_count as int, speed as int)
            } else {
                0
            });
        }
        a += 1;
    }
    proof {
        InternalWorld::lemma_same_layout(start, *world);
    }
    ObstacleStep { hits, avoided }
}


/// One drawable for the host: a transform with the mesh, material and
/// texture to draw it with.
#[derive(Debug, Clone, Copy, PartialEq, Eq, Structural)]
pub struct RenderableObject {
    pub mesh_id: u32,
    pub material_id: u32,
    pub texture_id: u32,
    pub transform: Transform,
}

pub open spec fn is_drawable_kind(a: Archetype) -> bool {
    a.types.transform && a.types.material
}

/// The drawables of the first `n` rows of an archetype.
pub open spec fn archetype_drawables(a: Archetype, assets: AssetServer, n: int) -> Seq<
    RenderableObject,
>
    decreases n,
{
    if n <= 0 {
        Seq::empty()
    } else {
        archetype_drawables(a, assets, n - 1).push(
            RenderableObject {
                mesh_id: 1,
                material_id: 1,
                texture_id: assets.spec_texture_id(a.materials@[n - 1].texture_handle),
                transform: a.transforms@[n - 1],
            },
        )
    }
}

/// The drawables of the first `n` archetypes, in archetype then row order;
/// an entity is drawn when it has a transform and a material, with the
/// host's texture once its load completed, else with texture 0.
pub open spec fn drawables(archetypes: Seq<Archetype>, assets: AssetServer, n: int) -> Seq<
    RenderableObject,
>
    decreases n,
{
    if n <= 0 {
        Seq::empty()
    } else {
        let a = archetypes[n - 1];
        drawables(archetypes, assets, n - 1) + if is_drawable_kind(a) {
            archetype_drawables(a, assets, a.entity_count as int)
        } else {
            Seq::empty()
        }
    }
}

/// The drawables depend on the asset server only through its texture records.
pub proof fn lemma_drawables_same_textures(archetypes: Seq<Archetype>, a1: AssetServer, a2: AssetServer, n: int)
    requires
        a1.textures@ == a2.textures@,
    ensures
        drawables(archetypes, a1, n) == drawables(archetypes, a2, n),
    decreases n,
{
    if n > 0 {
        lemma_drawables_same_textures(archetypes, a1, a2, n - 1);
        let a = archetypes[n - 1];
        lemma_archetype_drawables_same_textures(a, a1, a2, a.entity_count as int);
    }
}

proof fn lemma_archetype_drawables_same_textures(a: Archetype, a1: AssetServer, a2: AssetServer, n: int)
    requires
        a1.textures@ == a2.textures@,
    ensures
        archetype_drawables(a, a1, n) == archetype_drawables(a, a2, n),
    decreases n,
{
    if n > 0 {
        lemma_archetype_drawables_same_textures(a, a1, a2, n - 1);
    }
}

/// The drawables of every entity that has a transform and a material.
pub fn build_renderables(world: &InternalWorld, assets: &AssetServer) -> (r: Vec<RenderableObject>)
    requires
        world.wf(),
        assets.wf(),
    ensures
        r@ == drawables(world.archetypes@, *assets, world.archetypes@.len() as int),
{
    let mut out: Vec<RenderableObject> = Vec::new();
    let mut a: usize = 0;
    while a < world.archetypes.len()
        invariant
            world.wf(),
            assets.wf(),
            a <= world.archetypes@.len(),
            out@ == drawables(world.archetypes@, *assets, a as int),
        decreases world.archetypes.len() - a,
    {
        let arch = &world.archetypes[a];
        if arch.types.transform && arch.types.material {
            proof {
                assert(arch.wf());
                assert(arch.column(ComponentType::Transform).len() == arch.entity_count);
                assert(arch.column(ComponentType::Material).len() == arch.entity_count);
            }
            let ghost prefix = out@;
            let mut r: usize = 0;
            while r < arch.entity_count
                invariant
                    assets.wf(),
                    arch.transforms@.len() == arch.entity_count,
                    arch.materials@.len() == arch.entity_count,
                    r <= arch.entity_count,
                    out@ == prefix + archetype_drawables(*arch, *assets, r as int),
                decreases arch.entity_count - r,
            {
                let texture_id = assets.texture_id_for_handle(arch.materials[r].texture_handle);
                out.push(
                    RenderableObject {
                        mesh_id: 1,
                        material_id: 1,
                        texture_id,
                        transform: arch.transforms[r],
                    },
                );
                r += 1;
            }
        }
        proof {
            assert(world.archetypes@.subrange(0, a as int + 1).len() == a + 1);
            if !(world.archetypes@[a as int].types.transform && world.archetypes@[a as int].types.material) {
                assert(out@ =~= drawables(world.archetypes@, *assets, a as int + 1));
            }
        }
        a += 1;
    }
    out
}

/// Whether some live material refers to the handle.
pub open spec fn references(world: InternalWorld, handle: u32) -> bool {
    exists|a: int, i: int|
        0 <= a < world.archetypes@.len() && world.archetypes@[a].types.material && 0 <= i
            < world.archetypes@[a].entity_count && (#[trigger] world.archetypes@[a].materials@[i]).texture_handle
            == handle
}

fn contains_u32(v: &Vec<u32>, x: u32) -> (r: bool)
    ensures
        r == v@.contains(x),
{
    let mut k: usize = 0;
    while k < v.len()
        invariant
            k <= v@.len(),
            forall|m: int| 0 <= m < k ==> v@[m] != x,
        decreases v.len() - k,
    {
        if v[k] == x {
            return true;
        }
        k += 1;
    }
    false
}

/// The distinct texture handles referred to by live materials.
pub fn collect_referenced_texture_handles(world: &InternalWorld) -> (r: Vec<u32>)
    requires
        world.wf(),
    ensures
        r@.no_duplicates(),
        forall|h: u32| r@.contains(h) <==> references(*world, h),
{
    let mut handles: Vec<u32> = Vec::new();
    let mut a: usize = 0;
    while a < world.archetypes.len()
        invariant
            world.wf(),
            a <= world.archetypes@.len(),
            handles@.no_duplicates(),
            forall|h: u32|
                #[trigger] handles@.contains(h) <==> exists|b: int, i: int|
                    0 <= b < a && world.archetypes@[b].types.material && 0 <= i
                        < world.archetypes@[b].entity_count
                        && (#[trigger] world.archetypes@[b].materials@[i]).texture_handle == h,
        decreases world.archetypes.len() - a,
    {
        let arch = &world.archetypes[a];
        if arch.types.material {
            proof {
                assert(arch.wf());
                assert(arch.column(ComponentType::Material).len() == arch.entity_count);
            }
            let mut i: usize = 0;
            while i < arch.entity_count
                invariant
                    world.wf(),
                    a < world.archetypes@.len(),
                    *arch == world.archetypes@[a as int],
                    arch.types.material,
                    arch.materials@.len() == arch.entity_count,
                    i <= arch.entity_count,
                    handles@.no_duplicates(),
                    forall|y: u32|
                        #[trigger] handles@.contains(y) <==> (exists|b: int, j: int|
                            0 <= b < a && world.archetypes@[b].types.material && 0 <= j
                                < world.archetypes@[b].entity_count
                                && (#[trigger] world.archetypes@[b].materials@[j]).texture_handle
                                == y) || (exists|j: int|
                            0 <= j < i && (#[trigger] arch.materials@[j]).texture_handle == y),
                decreases arch.entity_count - i,
            {
                let h = arch.materials[i].texture_handle;
                let found = contains_u32(&handles, h);
                let ghost old_handles = handles@;
                if !found {
                    handles.push(h);
                }
                proof {
                    assert forall|x: u32| handles@.contains(x) == (old_handles.contains(x) || x == h) by {
                        if handles@.contains(x) {
                            let m = choose|m: int| 0 <= m < handles@.len() && handles@[m] == x;
                            if m < old_handles.len() {
                                assert(old_handles[m] == x);
                            }
                        }
                        if old_handles.contains(x) {
                            let m = choose|m: int| 0 <= m < old_handles.len() && old_handles[m] == x;
                            assert(handles@[m] == x);
                        }
                        if x == h && !found {
                            assert(handles@[handles@.len() - 1] == x);
                        }
                    }
                    assert forall|x: u32| #[trigger] handles@.contains(x) <==> (exists|b: int, j: int|
                        0 <= b < a && world.archetypes@[b].types.material && 0 <= j
                            < world.archetypes@[b].entity_count
                            && (#[trigger] world.archetypes@[b].materials@[j]).texture_handle
                            == x) || (exists|j: int|
                        0 <= j < i + 1 && (#[trigger] arch.materials@[j]).texture_handle == x) by {
                        assert(arch.materials@[i as int].texture_handle == h);
                        let in_prev = exists|b: int, j: int|
                            0 <= b < a && world.archetypes@[b].types.material && 0 <= j
                                < world.archetypes@[b].entity_count
                                && (#[trigger] world.archetypes@[b].materials@[j]).texture_handle
                                == x;
                        let in_arch_old = exists|j: int|
                            0 <= j < i && (#[trigger] arch.materials@[j]).texture_handle == x;
                        let in_arch_new = exists|j: int|
                            0 <= j < i + 1 && (#[trigger] arch.materials@[j]).texture_handle == x;
                        assert(old_handles.contains(x) == (in_prev || in_arch_old));
                        if in_arch_old {
                            let j = choose|j: int| 0 <= j < i && (#[trigger] arch.materials@[j]).texture_handle == x;
                            assert(0 <= j < i + 1 && arch.materials@[j].texture_handle == x);
                        }
                        if in_arch_new {
                            let j = choose|j: int| 0 <= j < i + 1 && (#[trigger] arch.materials@[j]).texture_handle == x;
                            if j < i {
                                assert(in_arch_old);
                            } else {
                                assert(x == h);
                            }
                        }
                        if x == h {
                            assert(in_arch_new);
                        }
                        assert(in_arch_new == (in_arch_old || x == h));
                    }
                }
                i += 1;
            }
        }
        a += 1;
    }
    handles
}

} // verus!
