use vstd::prelude::*;
use vstd::string::StringExecFns;
use vstd::string::StrSliceExecFns;

use crate::assets::{AssetCommand, AssetServer};
use crate::components::{ButtonAction, ComponentType};
use crate::components::{ComponentTypeSet, ComponentValue, Material, PhysicsBody};
use crate::ecs::{Archetype, Entity, InternalWorld};
use crate::geometry::{Vec2, Vec4};
use crate::save::{clamp_volume, clamp_volume_exec, SaveData, SaveProgress, MAX_VOLUME};
use crate::systems::{
    advance_obstacles, build_renderables, move_players, InputState, RenderableObject,
};
use crate::text::{concat, decimal, decimal_string, signed_decimal, signed_decimal_string};
use crate::world_setup::{
    all_of_kinds, lemma_kinds_extend, live_of_kinds, obstacle_kinds, player_kinds, button_kinds, sprite_kinds, mirror_kinds,
    clear_all_kinds, rect, spawn_button, spawn_obstacle, spawn_player, spawn_settings_buttons,
    BASE_OBSTACLE_SPEED, SUB,
};

verus! {

/// The states of the game loop.
#[derive(Debug, Clone, Copy, PartialEq, Eq, Structural, Hash)]
pub enum GameState {
    Title,
    InGame,
    Pause,
    Result,
    SpriteStressTest,
    PhysicsStressTest,
    UIStressTest,
}

/// A text label for the host to draw; position and size in sub-pixels.
#[derive(Debug)]
pub struct TextCommand {
    pub text: String,
    pub position: Vec2,
    pub font_size: i32,
    pub color: Vec4,
}

/// Two bodies of the host's physics simulation that touched.
#[derive(Debug, Clone, Copy, PartialEq, Eq, Structural, Hash)]
pub struct CollisionEvent {
    pub body_a: u64,
    pub body_b: u64,
}

/// Work for the host's collaborators, performed after the frame in order.
#[derive(Debug)]
pub enum HostCommand {
    PlaySound { path: String },
    PlayBgm { path: String, looped: bool },
    StopBgm,
    /// Volumes in thousandths.
    SetAudioVolumes { master: i32, bgm: i32, se: i32 },
    RequestFullscreen { enabled: bool },
    /// Write the save data to disk now.
    PersistSave,
}

/// The fixed step, in ticks of a six-hundredth of a second.
pub const TICKS_PER_FRAME: u32 = 10;

pub const FRAMES_PER_SECOND: u32 = 60;

/// Surviving this many frames (thirty minutes) clears a run.
pub const WIN_FRAMES: u32 = 1800 * FRAMES_PER_SECOND;

/// Each minute survived raises the difficulty level by one.
pub const FRAMES_PER_LEVEL: u32 = 60 * FRAMES_PER_SECOND;

/// Obstacle spawn interval at level one, in ticks (1.2 s).
pub const BASE_SPAWN_INTERVAL: u64 = 720;

/// Shortening of the spawn interval per level, in ticks (0.08 s).
pub const SPAWN_INTERVAL_STEP: u64 = 48;

/// Shortest spawn interval, in ticks (0.25 s).
pub const MIN_SPAWN_INTERVAL: u64 = 150;

pub const MAX_OBSTACLES: usize = 80;

pub const INITIAL_HP: i32 = 3;

/// Extra fall speed per level, in pixels per second.
pub const OBSTACLE_SPEED_STEP: u64 = 30;

/// Fall speeds are capped here, in pixels per second.
pub const MAX_OBSTACLE_SPEED: u64 = 100_000_000;

/// Volume change of one settings button press, in thousandths.
pub const SETTINGS_STEP: i32 = 100;

pub const ASSET_INTEGRITY_CHECK_INTERVAL_FRAMES: u32 = 30;

/// The most entities one `update` can spawn.
pub const UPDATE_SPAWN_BUDGET: u64 = 100;

pub open spec fn sat_u32(n: int) -> u32 {
    if n > u32::MAX {
        u32::MAX
    } else {
        n as u32
    }
}

/// Ten points per whole second survived and a hundred per obstacle avoided.
pub open spec fn score_for(frames: u32, avoided: u32) -> u32 {
    sat_u32(sat_u32((frames / FRAMES_PER_SECOND) * 10) + sat_u32(avoided * 100))
}

pub open spec fn level_for(frames: u32) -> u32 {
    (frames / FRAMES_PER_LEVEL + 1) as u32
}

/// The spawn interval at a level, in ticks: shorter by a step per level, never below the minimum.
pub open spec fn spawn_interval(level: u32) -> u64 {
    let steps = if level == 0 {
        0
    } else {
        level - 1
    };
    if BASE_SPAWN_INTERVAL - steps * SPAWN_INTERVAL_STEP < MIN_SPAWN_INTERVAL {
        MIN_SPAWN_INTERVAL
    } else {
        (BASE_SPAWN_INTERVAL - steps * SPAWN_INTERVAL_STEP) as u64
    }
}

pub open spec fn obstacle_speed(level: u32) -> int {
    let steps = if level == 0 {
        0
    } else {
        level - 1
    };
    let s = BASE_OBSTACLE_SPEED + steps * OBSTACLE_SPEED_STEP;
    if s > MAX_OBSTACLE_SPEED {
        MAX_OBSTACLE_SPEED as int
    } else {
        s
    }
}

/// Progress after a run ends: best score and best survival are kept as
/// maxima, and a cleared run counts one more clear.
pub open spec fn result_progress(p: SaveProgress, score: u32, frames: u32, clear: bool) -> SaveProgress {
    SaveProgress {
        best_score: if score > p.best_score {
            score
        } else {
            p.best_score
        },
        best_survival_sec: if frames / FRAMES_PER_SECOND > p.best_survival_sec {
            (frames / FRAMES_PER_SECOND) as u32
        } else {
            p.best_survival_sec
        },
        total_play_count: p.total_play_count,
        total_clear_count: if clear {
            sat_u32(p.total_clear_count + 1)
        } else {
            p.total_clear_count
        },
    }
}

/// The head-up line: hit points, time in tenths of a second, score and level.
pub open spec fn hud_text(hp: i32, frames: u32, score: u32, level: u32) -> Seq<char> {
    "HP:"@ + signed_decimal(hp as int) + "  Time:"@ + decimal((frames / 60) as nat) + "."@
        + decimal(((frames % 60) / 6) as nat) + "s  Score:"@ + decimal(score as nat) + "  Lv:"@
        + decimal(level as nat)
}

pub fn spawn_interval_exec(level: u32) -> (r: u64)
    ensures
        r == spawn_interval(level),
        MIN_SPAWN_INTERVAL <= r <= BASE_SPAWN_INTERVAL,
{
    let steps: u64 = if level == 0 {
        0
    } else {
        (level - 1) as u64
    };
    if steps >= 12 {
        MIN_SPAWN_INTERVAL
    } else if BASE_SPAWN_INTERVAL - steps * SPAWN_INTERVAL_STEP < MIN_SPAWN_INTERVAL {
        MIN_SPAWN_INTERVAL
    } else {
        BASE_SPAWN_INTERVAL - steps * SPAWN_INTERVAL_STEP
    }
}

pub fn obstacle_speed_exec(level: u32) -> (r: i32)
    ensures
        r == obstacle_speed(level),
        0 < r <= MAX_OBSTACLE_SPEED,
{
    let steps: u64 = if level == 0 {
        0
    } else {
        (level - 1) as u64
    };
    let s: u64 = BASE_OBSTACLE_SPEED as u64 + steps * OBSTACLE_SPEED_STEP;
    if s > MAX_OBSTACLE_SPEED {
        MAX_OBSTACLE_SPEED as i32
    } else {
        s as i32
    }
}

pub fn sat_u32_exec(n: u64) -> (r: u32)
    ensures
        r == sat_u32(n as int),
{
    if n > u32::MAX as u64 {
        u32::MAX
    } else {
        n as u32
    }
}

pub fn score_exec(frames: u32, avoided: u32) -> (r: u32)
    ensures
        r == score_for(frames, avoided),
{
    let from_time = sat_u32_exec((frames / FRAMES_PER_SECOND) as u64 * 10);
    let from_avoids = sat_u32_exec(avoided as u64 * 100);
    sat_u32_exec(from_time as u64 + from_avoids as u64)
}

pub fn result_progress_exec(p: SaveProgress, score: u32, frames: u32, clear: bool) -> (r: SaveProgress)
    ensures
        r == result_progress(p, score, frames, clear),
{
    let seconds = frames / FRAMES_PER_SECOND;
    SaveProgress {
        best_score: if score > p.best_score {
            score
        } else {
            p.best_score
        },
        best_survival_sec: if seconds > p.best_survival_sec {
            seconds
        } else {
            p.best_survival_sec
        },
        total_play_count: p.total_play_count,
        total_clear_count: if clear {
            p.total_clear_count.saturating_add(1)
        } else {
            p.total_clear_count
        },
    }
}

pub fn color(x: i32, y: i32, z: i32, w: i32) -> (r: Vec4)
    ensures
        r == (Vec4 { x, y, z, w }),
{
    Vec4 { x, y, z, w }
}

/// A label at `(x, y)` pixels with a font size in pixels.
pub fn label(text: String, x: i32, y: i32, font_size: i32, c: Vec4) -> (r: TextCommand)
    requires
        -1000000 <= x <= 1000000,
        -1000000 <= y <= 1000000,
        0 <= font_size <= 1000,
    ensures
        r.text@ == text@,
        r.position.x == x * SUB,
        r.position.y == y * SUB,
        r.font_size == font_size * SUB,
        r.color == c,
{
    TextCommand { text, position: Vec2 { x: x * SUB, y: y * SUB }, font_size: font_size * SUB, color: c }
}

pub fn sound(path: &str) -> (r: HostCommand)
    ensures
        r matches HostCommand::PlaySound { path: p } && p@ == path@,
{
    HostCommand::PlaySound { path: String::from_str(path) }
}

/// The track that plays in the menus and in game.
fn bgm_track() -> (r: &'static str)
    ensures
        r@ == "assets/test_sound.wav"@,
{
    "assets/test_sound.wav"
}

/// The sound played on clicks, hits and transitions.
fn effect_sound() -> (r: &'static str)
    ensures
        r@ == "assets/test_sound.wav"@,
{
    "assets/test_sound.wav"
}

/// The states in which the menu track plays.
pub open spec fn is_menu_or_play(s: GameState) -> bool {
    s == GameState::Title || s == GameState::InGame || s == GameState::Pause || s == GameState::Result
}


/// The command that sets the host's volumes to the settings.
pub fn audio_command(settings: &crate::save::SaveSettings) -> (r: HostCommand)
    ensures
        r == (HostCommand::SetAudioVolumes {
            master: settings.master_volume,
            bgm: settings.bgm_volume,
            se: settings.se_volume,
        }),
{
    HostCommand::SetAudioVolumes {
        master: settings.master_volume,
        bgm: settings.bgm_volume,
        se: settings.se_volume,
    }
}

/// The command for the music of a state: the menu track in the menus and
/// in game, silence in the stress tests.
pub fn bgm_command(state: GameState) -> (r: HostCommand)
    ensures
        is_menu_or_play(state) ==> (r matches HostCommand::PlayBgm { path, looped } && path@
            == "assets/test_sound.wav"@ && looped),
        !is_menu_or_play(state) ==> r is StopBgm,
{
    match state {
        GameState::Title | GameState::InGame | GameState::Pause | GameState::Result => {
            HostCommand::PlayBgm { path: String::from_str(bgm_track()), looped: true }
        },
        _ => HostCommand::StopBgm,
    }
}

/// The number of entities in the first `n` archetypes that have obstacles.
pub open spec fn obstacle_total(archetypes: Seq<Archetype>, n: int) -> int
    decreases n,
{
    if n <= 0 {
        0
    } else {
        obstacle_total(archetypes, n - 1) + if archetypes[n - 1].types.obstacle {
            archetypes[n - 1].entity_count as int
        } else {
            0
        }
    }
}

/// The number of entities in archetypes that have obstacles, saturating.
pub fn count_obstacles(world: &InternalWorld) -> (r: usize)
    ensures
        r == if obstacle_total(world.archetypes@, world.archetypes@.len() as int) > usize::MAX {
            usize::MAX as int
        } else {
            obstacle_total(world.archetypes@, world.archetypes@.len() as int)
        },
{
    let mut total: usize = 0;
    let mut a: usize = 0;
    while a < world.archetypes.len()
        invariant
            a <= world.archetypes@.len(),
            total == if obstacle_total(world.archetypes@, a as int) > usize::MAX {
                usize::MAX as int
            } else {
                obstacle_total(world.archetypes@, a as int)
            },
        decreases world.archetypes.len() - a,
    {
        proof {
            assert(obstacle_total(world.archetypes@, a as int) >= 0) by {
                lemma_obstacle_total_nonneg(world.archetypes@, a as int);
            }
        }
        if world.archetypes[a].types.obstacle {
            total = total.saturating_add(world.archetypes[a].entity_count);
        }
        a += 1;
    }
    total
}

proof fn lemma_obstacle_total_nonneg(archetypes: Seq<Archetype>, n: int)
    ensures
        obstacle_total(archetypes, n) >= 0,
    decreases n,
{
    if n > 0 {
        lemma_obstacle_total_nonneg(archetypes, n - 1);
    }
}


/// `after` is `before` with obstacles appended: every archetype keeps its
/// kinds and its rows, and every new row is an obstacle above the screen.
pub open spec fn obstacles_spawned(before: InternalWorld, after: InternalWorld) -> bool {
    &&& after.archetypes@.len() >= before.archetypes@.len()
    &&& forall|a: int|
        0 <= a < before.archetypes@.len() ==> {
            &&& (#[trigger] after.archetypes@[a]).types == before.archetypes@[a].types
            &&& after.archetypes@[a].entity_count >= before.archetypes@[a].entity_count
            &&& after.archetypes@[a].transforms@.subrange(0, before.archetypes@[a].transforms@.len() as int)
                == before.archetypes@[a].transforms@
        }
    &&& forall|a: int, i: int|
        0 <= a < after.archetypes@.len() && 0 <= i < after.archetypes@[a].entity_count && (a
            >= before.archetypes@.len() || i >= before.archetypes@[a].entity_count) ==> #[trigger] new_obstacle_row(after, a, i)
}

/// Row `i` of archetype `a` is an obstacle above the screen.
pub open spec fn new_obstacle_row(w: InternalWorld, a: int, i: int) -> bool {
    &&& w.archetypes@[a].types == obstacle_kinds()
    &&& crate::systems::in_spawn_band(w.archetypes@[a].transforms@[i])
}

proof fn lemma_obstacle_spawn_step(w0: InternalWorld, w1: InternalWorld)
    requires
        w0.wf(),
        w1.wf(),
        InternalWorld::spawned(w0, w1, Entity(w0.next_entity)),
        w1.kinds_of(Entity(w0.next_entity)) == obstacle_kinds(),
        w1.component_of(Entity(w0.next_entity), ComponentType::Transform) matches ComponentValue::Transform(t)
            && crate::systems::in_spawn_band(t),
    ensures
        obstacles_spawned(w0, w1),
{
    let e = Entity(w0.next_entity);
    let (a, r) = w1.entities@[e.0];
    let a = a as int;
    let r = r as int;
    assert(w1.archetypes@[a].wf());
    obstacle_kinds_has_transform();
    assert(w1.archetypes@[a].types.has(ComponentType::Transform));
    assert(w1.archetypes@[a].column(ComponentType::Transform).len() == w1.archetypes@[a].entity_count);
    assert forall|b: int| 0 <= b < w0.archetypes@.len() implies {
        &&& (#[trigger] w1.archetypes@[b]).types == w0.archetypes@[b].types
        &&& w1.archetypes@[b].entity_count >= w0.archetypes@[b].entity_count
        &&& w1.archetypes@[b].transforms@.subrange(0, w0.archetypes@[b].transforms@.len() as int)
            == w0.archetypes@[b].transforms@
    } by {
        if b == a {
            let c0 = w0.archetypes@[a].column(ComponentType::Transform);
            let c1 = w1.archetypes@[a].column(ComponentType::Transform);
            assert(c1.drop_last() == c0);
            assert(w0.archetypes@[a].wf());
            assert(c0.len() == w0.archetypes@[a].transforms@.len());
            assert(c1.len() == w1.archetypes@[a].transforms@.len());
            assert(w1.archetypes@[a].transforms@.subrange(0, w0.archetypes@[a].transforms@.len() as int)
                =~= w0.archetypes@[a].transforms@) by {
                assert forall|i: int| 0 <= i < w0.archetypes@[a].transforms@.len() implies w1.archetypes@[a].transforms@[i]
                    == w0.archetypes@[a].transforms@[i] by {
                    assert(c1.drop_last()[i] == c1[i]);
                    assert(c0[i] == ComponentValue::Transform(w0.archetypes@[a].transforms@[i]));
                    assert(c1[i] == ComponentValue::Transform(w1.archetypes@[a].transforms@[i]));
                }
            }
            assert(w1.archetypes@[a].entity_count == r + 1);
            assert(w0.archetypes@[a].entity_count == r);
        } else {
            assert(w1.archetypes@[b] == w0.archetypes@[b]);
            assert(w1.archetypes@[b].transforms@.subrange(0, w0.archetypes@[b].transforms@.len() as int)
                =~= w0.archetypes@[b].transforms@);
        }
    }
    assert forall|b: int, i: int|
        0 <= b < w1.archetypes@.len() && 0 <= i < w1.archetypes@[b].entity_count && (b
            >= w0.archetypes@.len() || i >= w0.archetypes@[b].entity_count) implies #[trigger] new_obstacle_row(w1, b, i) by {
        if b != a {
            if b < w0.archetypes@.len() {
                assert(w1.archetypes@[b] == w0.archetypes@[b]);
            } else {
                // a fresh archetype can only be the one the entity went to
                assert(w1.entities@.contains_key(e.0));
                let x = w1.archetypes@[b].entity_ids@[i];
                assert(w1.row_entity(b, i) == x);
                assert(w1.entities@.contains_key(x.0));
                if x.0 != e.0 {
                    assert(w0.entities@.contains_key(x.0));
                    assert(w1.entities@[x.0] == w0.entities@[x.0]);
                }
            }
        } else {
            assert(i == r);
            let c1 = w1.archetypes@[a].column(ComponentType::Transform);
            assert(c1[r] == ComponentValue::Transform(w1.archetypes@[a].transforms@[r]));
        }
    }
}

proof fn lemma_obstacles_spawned_refl(w: InternalWorld)
    ensures
        obstacles_spawned(w, w),
{
    assert forall|a: int| 0 <= a < w.archetypes@.len() implies w.archetypes@[a].transforms@.subrange(
        0,
        w.archetypes@[a].transforms@.len() as int,
    ) == w.archetypes@[a].transforms@ by {
        assert(w.archetypes@[a].transforms@.subrange(0, w.archetypes@[a].transforms@.len() as int)
            =~= w.archetypes@[a].transforms@);
    }
}

proof fn obstacle_kinds_has_transform()
    ensures
        obstacle_kinds().has(ComponentType::Transform),
{
    assert(seq![ComponentType::Transform, ComponentType::Velocity, ComponentType::Material, ComponentType::Sprite, ComponentType::Obstacle][0] == ComponentType::Transform);
}

proof fn lemma_obstacles_spawned_trans(a: InternalWorld, b: InternalWorld, c: InternalWorld)
    requires
        a.wf(),
        b.wf(),
        c.wf(),
        obstacles_spawned(a, b),
        obstacles_spawned(b, c),
    ensures
        obstacles_spawned(a, c),
{
    assert forall|x: int| 0 <= x < a.archetypes@.len() implies {
        &&& (#[trigger] c.archetypes@[x]).types == a.archetypes@[x].types
        &&& c.archetypes@[x].entity_count >= a.archetypes@[x].entity_count
        &&& c.archetypes@[x].transforms@.subrange(0, a.archetypes@[x].transforms@.len() as int)
            == a.archetypes@[x].transforms@
    } by {
        assert(b.archetypes@[x].types == a.archetypes@[x].types);
        assert(c.archetypes@[x].types == b.archetypes@[x].types);
        assert(a.archetypes@[x].wf());
        assert(b.archetypes@[x].wf());
        let n = a.archetypes@[x].transforms@.len() as int;
        let m = b.archetypes@[x].transforms@.len() as int;
        assert(a.archetypes@[x].column(ComponentType::Transform).len() == n);
        assert(b.archetypes@[x].column(ComponentType::Transform).len() == m);
        assert(n <= m) by {
            if a.archetypes@[x].types.has(ComponentType::Transform) {
            } else {
                assert(n == 0);
            }
        }
        assert(c.archetypes@[x].wf());
        assert(c.archetypes@[x].column(ComponentType::Transform).len() == c.archetypes@[x].transforms@.len());
        assert(m <= c.archetypes@[x].transforms@.len()) by {
            if b.archetypes@[x].types.has(ComponentType::Transform) {
            } else {
                assert(m == 0);
            }
        }
        assert(c.archetypes@[x].transforms@.subrange(0, n) =~= a.archetypes@[x].transforms@) by {
            assert forall|i: int| 0 <= i < n implies c.archetypes@[x].transforms@[i] == a.archetypes@[x].transforms@[i] by {
                assert(c.archetypes@[x].transforms@.subrange(0, m)[i] == c.archetypes@[x].transforms@[i]);
                assert(b.archetypes@[x].transforms@.subrange(0, n)[i] == b.archetypes@[x].transforms@[i]);
            }
        }
    }
    assert forall|x: int, i: int|
        0 <= x < c.archetypes@.len() && 0 <= i < c.archetypes@[x].entity_count && (x
            >= a.archetypes@.len() || i >= a.archetypes@[x].entity_count) implies #[trigger] new_obstacle_row(c, x, i) by {
        if x < b.archetypes@.len() && i < b.archetypes@[x].entity_count {
            assert(new_obstacle_row(b, x, i));
            assert(b.archetypes@[x].types == obstacle_kinds());
            obstacle_kinds_has_transform();
            assert(c.archetypes@[x].wf());
            assert(c.archetypes@[x].types == b.archetypes@[x].types);
            assert(c.archetypes@[x].column(ComponentType::Transform).len() == c.archetypes@[x].entity_count);
            assert(b.archetypes@[x].wf());
            assert(b.archetypes@[x].column(ComponentType::Transform).len() == b.archetypes@[x].entity_count);
            assert(i < b.archetypes@[x].transforms@.len());
            assert(c.archetypes@[x].transforms@.subrange(0, b.archetypes@[x].transforms@.len() as int)[i]
                == c.archetypes@[x].transforms@[i]);
            assert(b.archetypes@[x].transforms@[i] == c.archetypes@[x].transforms@[i]);
        } else {
            assert(x >= b.archetypes@.len() || i >= b.archetypes@[x].entity_count);
            assert(new_obstacle_row(c, x, i));
        }
    }
}

/// Spawns one obstacle for each whole interval in the accumulator, as long
/// as fewer than the maximum exist, and keeps the remainder.
pub fn spawn_due_obstacles(
    world: &mut InternalWorld,
    accumulator: &mut u64,
    interval: u64,
    texture_handle: u32,
)
    requires
        old(world).wf(),
        old(world).next_entity + MAX_OBSTACLES <= u64::MAX,
        interval > 0,
    ensures
        final(world).wf(),
        *final(accumulator) == *old(accumulator) % interval,
        ({
            let total = obstacle_total(old(world).archetypes@, old(world).archetypes@.len() as int);
            let room: int = if total >= MAX_OBSTACLES {
                0
            } else {
                MAX_OBSTACLES - total
            };
            let due: int = (*old(accumulator) / interval) as int;
            final(world).next_entity == old(world).next_entity + if due < room {
                due
            } else {
                room
            }
        }),
        final(world).next_entity <= old(world).next_entity + MAX_OBSTACLES,
        all_of_kinds(
            *final(world),
            old(world).next_entity,
            final(world).next_entity - old(world).next_entity,
            obstacle_kinds(),
        ),
        forall|id: u64, k: ComponentTypeSet| #[trigger] live_of_kinds(*old(world), id, k) ==> live_of_kinds(*final(world), id, k),
        obstacles_spawned(*old(world), *final(world)),
{
    let ghost start = *world;
    let ghost total = obstacle_total(start.archetypes@, start.archetypes@.len() as int);
    let mut obstacles = count_obstacles(world);
    let ghost room: int = if total >= MAX_OBSTACLES { 0 } else { MAX_OBSTACLES - total };
    proof {
        lemma_obstacle_total_nonneg(start.archetypes@, start.archetypes@.len() as int);
        lemma_obstacles_spawned_refl(start);
    }
    let mut spawned: u64 = 0;
    let ghost mut it: int = 0;
    while *accumulator >= interval
        invariant
            start.wf(),
            world.wf(),
            spawned <= MAX_OBSTACLES,
            world.next_entity == start.next_entity + spawned,
            start == *old(world),
            start.next_entity + MAX_OBSTACLES <= u64::MAX,
            interval > 0,
            it >= 0,
            *accumulator + it * interval == *old(accumulator),
            spawned == if it < room { it } else { room },
            obstacles >= MAX_OBSTACLES <==> room <= spawned,
            obstacles < MAX_OBSTACLES ==> obstacles + (room - spawned) == MAX_OBSTACLES,
            0 <= room <= MAX_OBSTACLES,
            all_of_kinds(*world, start.next_entity, spawned as int, obstacle_kinds()),
            forall|id: u64, k: ComponentTypeSet| #[trigger] live_of_kinds(start, id, k) ==> live_of_kinds(*world, id, k),
            obstacles_spawned(start, *world),
        decreases *accumulator,
    {
        let ghost sp0 = spawned as int;
        let ghost it0 = it;
        if obstacles < MAX_OBSTACLES && spawned < MAX_OBSTACLES as u64 {
            assert(sp0 < room);
            assert(sp0 == it0);
            let ghost w0 = *world;
            spawn_obstacle(world, texture_handle);
            proof {
                lemma_obstacle_spawn_step(w0, *world);
                lemma_obstacles_spawned_trans(start, w0, *world);
                lemma_kinds_extend(w0, *world, start.next_entity, spawned as int, obstacle_kinds());
                assert forall|id: u64, k: ComponentTypeSet| #[trigger] live_of_kinds(start, id, k) implies live_of_kinds(*world, id, k) by {
                    assert(live_of_kinds(w0, id, k));
                    InternalWorld::lemma_spawn_keeps(w0, *world, Entity(w0.next_entity), Entity(id));
                }
            }
            obstacles += 1;
            spawned += 1;
        }
        proof {
            let x = *accumulator as int;
            let i = interval as int;
            assert((x - i) + (it + 1) * i == x + it * i) by (nonlinear_arith);
            it = it + 1;
        }
        *accumulator = *accumulator - interval;
        proof {
            assert(*accumulator + it * interval == *old(accumulator));
            if spawned as int == sp0 {
                assert(sp0 == room);
                assert(it0 >= room);
            }
            assert(spawned == if it < room { it } else { room });
        }
    }
    proof {
        let x = *accumulator as int;
        let i = interval as int;
        vstd::arithmetic::div_mod::lemma_fundamental_div_mod_converse(*old(accumulator) as int, i, it, x);
    }
}
/// Spawns `n` obstacles.
pub fn spawn_obstacles(world: &mut InternalWorld, texture_handle: u32, n: u64)
    requires
        old(world).wf(),
        old(world).next_entity + n <= u64::MAX,
    ensures
        final(world).wf(),
        final(world).next_entity == old(world).next_entity + n,
        all_of_kinds(*final(world), old(world).next_entity, n as int, obstacle_kinds()),
        forall|id: u64, k: ComponentTypeSet| #[trigger] live_of_kinds(*old(world), id, k) ==> live_of_kinds(*final(world), id, k),
        InternalWorld::grew_from(*old(world), *final(world)),
{
    let ghost start = *world;
    proof {
        assert(InternalWorld::grew_from(start, start));
    }
    let mut k: u64 = 0;
    while k < n
        invariant
            k <= n,
            start == *old(world),
            start.wf(),
            world.wf(),
            world.next_entity == old(world).next_entity + k,
            old(world).next_entity + n <= u64::MAX,
            all_of_kinds(*world, start.next_entity, k as int, obstacle_kinds()),
            forall|id: u64, c: ComponentTypeSet| #[trigger] live_of_kinds(start, id, c) ==> live_of_kinds(*world, id, c),
            InternalWorld::grew_from(start, *world),
        decreases n - k,
    {
        let ghost w0 = *world;
        spawn_obstacle(world, texture_handle);
        proof {
            InternalWorld::lemma_spawn_grew(w0, *world, Entity(w0.next_entity));
            InternalWorld::lemma_grew_trans(start, w0, *world);
            lemma_kinds_extend(w0, *world, start.next_entity, k as int, obstacle_kinds());
            assert forall|id: u64, c: ComponentTypeSet| #[trigger] live_of_kinds(start, id, c) implies live_of_kinds(*world, id, c) by {
                assert(live_of_kinds(w0, id, c));
                InternalWorld::lemma_spawn_keeps(w0, *world, Entity(w0.next_entity), Entity(id));
            }
        }
        k += 1;
    }
}

/// Empties the store and the output batches.
fn clear_runtime_world(
    world: &mut InternalWorld,
    renderables: &mut Vec<RenderableObject>,
    text_commands: &mut Vec<TextCommand>,
    asset_commands: &mut Vec<AssetCommand>,
)
    requires
        old(world).wf(),
    ensures
        final(world).wf(),
        final(world).next_entity == old(world).next_entity,
        forall|k: u64, t: ComponentType|
            final(world).entities@.contains_key(k) ==> !#[trigger] final(world).kinds_of(Entity(k)).has(t),
        final(renderables)@.len() == 0,
        final(text_commands)@.len() == 0,
        final(asset_commands)@.len() == 0,
{
    clear_all_kinds(world);
    renderables.clear();
    text_commands.clear();
    asset_commands.clear();
}


/// Whether button `i` of archetype `a` is a live button under the point.
pub open spec fn button_hit(world: InternalWorld, a: int, i: int, p: Vec2) -> bool {
    &&& 0 <= a < world.archetypes@.len()
    &&& world.archetypes@[a].types.button
    &&& 0 <= i < world.archetypes@[a].entity_count
    &&& world.archetypes@[a].buttons@[i].rect.spec_contains(p)
}

/// Whether `(a, i)` comes before `(b, j)` in archetype, then row, order.
pub open spec fn before_in_order(a: int, i: int, b: int, j: int) -> bool {
    a < b || (a == b && i < j)
}

/// Whether `(a, i)` is the first live button under the point, in archetype
/// then row order.
pub open spec fn is_first_hit(world: InternalWorld, a: int, i: int, p: Vec2) -> bool {
    button_hit(world, a, i, p) && forall|b: int, j: int|
        #[trigger] button_hit(world, b, j, p) ==> !before_in_order(b, j, a, i)
}

/// The action of the first live button under the point, if any.
pub open spec fn first_hit(world: InternalWorld, p: Vec2) -> Option<ButtonAction> {
    if exists|a: int, i: int| is_first_hit(world, a, i, p) {
        let (a, i) = choose|a: int, i: int| is_first_hit(world, a, i, p);
        Some(world.archetypes@[a].buttons@[i].action)
    } else {
        None
    }
}

/// The action a click carries out this frame: that of the first button
/// under the pointer, if the pointer was clicked.
pub open spec fn clicked_action(world: InternalWorld, input: InputState) -> Option<ButtonAction> {
    if input.mouse_clicked {
        first_hit(world, input.mouse_pos)
    } else {
        None
    }
}

/// The action of the first button (in archetype, then row order) under the
/// pointer, when it was clicked.
pub fn hit_test(world: &InternalWorld, pointer: Vec2, clicked: bool) -> (r: Option<ButtonAction>)
    requires
        world.wf(),
    ensures
        match r {
            Some(action) => clicked && exists|a: int, i: int|
                button_hit(*world, a, i, pointer) && world.archetypes@[a].buttons@[i].action
                    == action && forall|b: int, j: int|
                    #[trigger] button_hit(*world, b, j, pointer) ==> !before_in_order(b, j, a, i),
            None => !clicked || forall|a: int, i: int| !#[trigger] button_hit(*world, a, i, pointer),
        },
        r == if clicked {
            first_hit(*world, pointer)
        } else {
            None
        },
{
    if !clicked {
        return None;
    }
    let mut a: usize = 0;
    while a < world.archetypes.len()
        invariant
            world.wf(),
            clicked,
            a <= world.archetypes@.len(),
            forall|b: int, j: int| 0 <= b < a ==> !#[trigger] button_hit(*world, b, j, pointer),
        decreases world.archetypes.len() - a,
    {
        let arch = &world.archetypes[a];
        if arch.types.button {
            proof {
                assert(arch.wf());
                assert(arch.column(ComponentType::Button).len() == arch.entity_count);
            }
            let mut i: usize = 0;
            while i < arch.entity_count
                invariant
                    world.wf(),
                    clicked,
                    a < world.archetypes@.len(),
                    *arch == world.archetypes@[a as int],
                    arch.types.button,
                    arch.buttons@.len() == arch.entity_count,
                    i <= arch.entity_count,
                    forall|b: int, j: int| 0 <= b < a ==> !#[trigger] button_hit(*world, b, j, pointer),
                    forall|j: int| 0 <= j < i ==> !#[trigger] button_hit(*world, a as int, j, pointer),
                decreases arch.entity_count - i,
            {
                if arch.buttons[i].rect.contains(pointer) {
                    proof {
                        assert(button_hit(*world, a as int, i as int, pointer));
                        assert forall|b: int, j: int| #[trigger] button_hit(*world, b, j, pointer) implies !before_in_order(b, j, a as int, i as int) by {}
                        assert(is_first_hit(*world, a as int, i as int, pointer));
                        let (a2, i2) = choose|a2: int, i2: int| is_first_hit(*world, a2, i2, pointer);
                        assert(is_first_hit(*world, a2, i2, pointer));
                        assert(!before_in_order(a2, i2, a as int, i as int));
                        assert(!before_in_order(a as int, i as int, a2, i2));
                        assert(a2 == a && i2 == i);
                    }
                    return Some(arch.buttons[i].action);
                }
                i += 1;
            }
        }
        a += 1;
    }
    None
}

/// The label of a button: its text roughly centred in its rectangle.
pub open spec fn button_label_position(rect: crate::geometry::Rect, text_len: int) -> Vec2 {
    Vec2 {
        x: clamp_i32(rect.x + crate::systems::half(rect.width as int) - text_len * 6 * SUB),
        y: clamp_i32(rect.y + crate::systems::half(rect.height as int) - 8 * SUB),
    }
}

pub open spec fn clamp_i32(v: int) -> i32 {
    if v < i32::MIN {
        i32::MIN
    } else if v > i32::MAX {
        i32::MAX
    } else {
        v as i32
    }
}

fn clamp_i32_exec(v: i64) -> (r: i32)
    ensures
        r == clamp_i32(v as int),
{
    if v < i32::MIN as i64 {
        i32::MIN
    } else if v > i32::MAX as i64 {
        i32::MAX
    } else {
        v as i32
    }
}

/// The label texts of the live buttons of the first `rows` rows of an archetype.
pub open spec fn archetype_button_texts(a: Archetype, rows: int) -> Seq<Seq<char>>
    decreases rows,
{
    if rows <= 0 {
        Seq::empty()
    } else {
        archetype_button_texts(a, rows - 1).push(a.buttons@[rows - 1].text@)
    }
}

/// The label texts of every live button of the first `n` archetypes, in
/// archetype then row order.
pub open spec fn button_texts(archetypes: Seq<Archetype>, n: int) -> Seq<Seq<char>>
    decreases n,
{
    if n <= 0 {
        Seq::empty()
    } else {
        let a = archetypes[n - 1];
        button_texts(archetypes, n - 1) + if a.types.button {
            archetype_button_texts(a, a.entity_count as int)
        } else {
            Seq::empty()
        }
    }
}

pub open spec fn texts_of(commands: Seq<TextCommand>) -> Seq<Seq<char>> {
    commands.map_values(|c: TextCommand| c.text@)
}

/// Appends a label for every live button, in archetype then row order.
pub fn push_button_labels(world: &InternalWorld, text_commands: &mut Vec<TextCommand>)
    requires
        world.wf(),
    ensures
        texts_of(final(text_commands)@) == texts_of(old(text_commands)@) + button_texts(
            world.archetypes@,
            world.archetypes@.len() as int,
        ),
        final(text_commands)@.len() >= old(text_commands)@.len(),
        final(text_commands)@.subrange(0, old(text_commands)@.len() as int) == old(text_commands)@,
        forall|k: int|
            old(text_commands)@.len() <= k < final(text_commands)@.len()
                ==> (#[trigger] final(text_commands)@[k]).font_size == 24 * SUB,
{
    let ghost start = texts_of(text_commands@);
    let ghost start_cmds = text_commands@;
    let mut a: usize = 0;
    while a < world.archetypes.len()
        invariant
            world.wf(),
            a <= world.archetypes@.len(),
            texts_of(text_commands@) == start + button_texts(world.archetypes@, a as int),
            text_commands@.len() >= start_cmds.len(),
            text_commands@.subrange(0, start_cmds.len() as int) == start_cmds,
            forall|k: int|
                start_cmds.len() <= k < text_commands@.len() ==> (#[trigger] text_commands@[k]).font_size
                    == 24 * SUB,
        decreases world.archetypes.len() - a,
    {
        let arch = &world.archetypes[a];
        let ghost prefix = texts_of(text_commands@);
        if arch.types.button {
            proof {
                assert(arch.wf());
                assert(arch.column(ComponentType::Button).len() == arch.entity_count);
            }
            let mut i: usize = 0;
            while i < arch.entity_count
                invariant
                    arch.buttons@.len() == arch.entity_count,
                    i <= arch.entity_count,
                    texts_of(text_commands@) == prefix + archetype_button_texts(*arch, i as int),
                    text_commands@.len() >= start_cmds.len(),
                    text_commands@.subrange(0, start_cmds.len() as int) == start_cmds,
                    forall|k: int|
                        start_cmds.len() <= k < text_commands@.len() ==> (#[trigger] text_commands@[k]).font_size
                            == 24 * SUB,
                decreases arch.entity_count - i,
            {
                let button = &arch.buttons[i];
                let len = button.text.as_str().unicode_len();
                let half_w = crate::systems::half_exec(button.rect.width) as i64;
                let half_h = crate::systems::half_exec(button.rect.height) as i64;
                let shift: i64 = if len > 1_000_000 {
                    1_000_000 * 6 * SUB as i64
                } else {
                    len as i64 * 6 * SUB as i64
                };
                let x = clamp_i32_exec(button.rect.x as i64 + half_w - shift);
                let y = clamp_i32_exec(button.rect.y as i64 + half_h - 8 * SUB as i64);
                let ghost before = text_commands@;
                text_commands.push(
                    TextCommand {
                        text: button.text.clone(),
                        position: Vec2 { x, y },
                        font_size: 24 * SUB,
                        color: color(1000, 1000, 1000, 1000),
                    },
                );
                proof {
                    assert(text_commands@.subrange(0, start_cmds.len() as int) =~= before.subrange(0, start_cmds.len() as int));
                    assert forall|k: int| start_cmds.len() <= k < text_commands@.len() implies (#[trigger] text_commands@[k]).font_size
                        == 24 * SUB by {
                        if k < before.len() {
                            assert(text_commands@[k] == before[k]);
                        }
                    }
                    assert(texts_of(text_commands@) =~= texts_of(before).push(arch.buttons@[i as int].text@));
                    assert(prefix + archetype_button_texts(*arch, i as int + 1) =~= (prefix
                        + archetype_button_texts(*arch, i as int)).push(arch.buttons@[i as int].text@));
                }
                i += 1;
            }
        }
        proof {
            let n = a as int + 1;
            assert(button_texts(world.archetypes@, n) == button_texts(world.archetypes@, a as int) + if arch.types.button {
                archetype_button_texts(*arch, arch.entity_count as int)
            } else {
                Seq::empty()
            });
            assert(texts_of(text_commands@) =~= start + button_texts(world.archetypes@, n));
        }
        a += 1;
    }
}

pub open spec fn adjusted_volume(current: int, delta: int) -> i32 {
    clamp_volume(current + delta) as i32
}


/// A volume in whole percent, rounded half up.
pub open spec fn percent(v: i32) -> int {
    (v + 5) / 10
}

/// The settings lines: each volume in percent and the fullscreen switch.
pub open spec fn settings_texts(settings: crate::save::SaveSettings) -> Seq<Seq<char>> {
    seq![
        "Master Volume: "@ + decimal(percent(settings.master_volume) as nat) + "%"@,
        "BGM Volume: "@ + decimal(percent(settings.bgm_volume) as nat) + "%"@,
        "SE Volume: "@ + decimal(percent(settings.se_volume) as nat) + "%"@,
        "Fullscreen: "@ + if settings.fullscreen {
            "ON"@
        } else {
            "OFF"@
        },
    ]
}

fn percent_text(prefix: &str, v: i32) -> (r: String)
    requires
        0 <= v <= MAX_VOLUME,
    ensures
        r@ == prefix@ + decimal(percent(v) as nat) + "%"@,
{
    let t = concat(String::from_str(prefix), decimal_string(((v + 5) / 10) as u64).as_str());
    concat(t, "%")
}

/// Appends the settings lines, the first at `first_row_y` pixels and each
/// next one 56 pixels lower.
pub fn push_settings_text(
    settings: &crate::save::SaveSettings,
    first_row_y: i32,
    text_commands: &mut Vec<TextCommand>,
)
    requires
        settings.in_range(),
        0 <= first_row_y <= 1000,
    ensures
        texts_of(final(text_commands)@) == texts_of(old(text_commands)@) + settings_texts(*settings),
{
    let ghost start = texts_of(text_commands@);
    let row_step: i32 = 56;
    let grey = color(900, 900, 900, 1000);
    push_text(text_commands, label(percent_text("Master Volume: ", settings.master_volume), 305, first_row_y + 12, 20, grey));
    push_text(text_commands, label(percent_text("BGM Volume: ", settings.bgm_volume), 305, first_row_y - row_step + 12, 20, grey));
    push_text(text_commands, label(percent_text("SE Volume: ", settings.se_volume), 305, first_row_y - row_step * 2 + 12, 20, grey));
    let state = if settings.fullscreen {
        "ON"
    } else {
        "OFF"
    };
    push_text(
        text_commands,
        label(concat(String::from_str("Fullscreen: "), state), 315, first_row_y - row_step * 3 + 12, 20, color(800, 950, 800, 1000)),
    );
    proof {
        assert(texts_of(text_commands@) =~= start + settings_texts(*settings));
    }
}

/// Appends a command.
pub fn push_text(text_commands: &mut Vec<TextCommand>, command: TextCommand)
    ensures
        texts_of(final(text_commands)@) == texts_of(old(text_commands)@).push(command.text@),
        final(text_commands)@.len() == old(text_commands)@.len() + 1,
        final(text_commands)@.drop_last() == old(text_commands)@,
        final(text_commands)@.last() == command,
{
    let ghost before = text_commands@;
    text_commands.push(command);
    proof {
        assert(texts_of(text_commands@) =~= texts_of(before).push(command.text@));
        assert(text_commands@.drop_last() =~= before);
    }
}

/// Appends the labels of a screen's fixed lines.
fn push_label(text_commands: &mut Vec<TextCommand>, text: &str, x: i32, y: i32, size: i32, c: Vec4)
    requires
        -1000000 <= x <= 1000000,
        -1000000 <= y <= 1000000,
        0 <= size <= 1000,
    ensures
        final(text_commands)@.len() == old(text_commands)@.len() + 1,
        final(text_commands)@.drop_last() == old(text_commands)@,
        final(text_commands)@.last().text@ == text@,
        texts_of(final(text_commands)@) == texts_of(old(text_commands)@).push(text@),
{
    push_text(text_commands, label(String::from_str(text), x, y, size, c));
}

/// Whether the handle is in the list.
fn contains_handle(v: &Vec<u32>, x: u32) -> (r: bool)
    ensures
        r == v@.contains(x),
{
    let mut k: usize = 0;
    while k < v.len()
        invariant
            k <= v@.len(),
            forall|m: int| 0 <= m < k ==> v@[m] != x,
        decreases v.len() - k,
    {
        if v[k] == x {
            return true;
        }
        k += 1;
    }
    false
}

/// The handles of `v` that are also in `keep`, in order.
fn retain_handles(v: &Vec<u32>, keep: &Vec<u32>) -> (r: Vec<u32>)
    ensures
        forall|h: u32| r@.contains(h) <==> v@.contains(h) && keep@.contains(h),
{
    let mut out: Vec<u32> = Vec::new();
    let mut k: usize = 0;
    while k < v.len()
        invariant
            k <= v@.len(),
            forall|h: u32| #[trigger] out@.contains(h) <==> (exists|m: int| 0 <= m < k && v@[m] == h) && keep@.contains(h),
        decreases v.len() - k,
    {
        let h = v[k];
        let ghost before = out@;
        if contains_handle(keep, h) {
            out.push(h);
        }
        proof {
            assert forall|x: u32| #[trigger] out@.contains(x) <==> (exists|m: int| 0 <= m < k + 1 && v@[m] == x) && keep@.contains(x) by {
                if out@.contains(x) && x != h {
                    let m = choose|m: int| 0 <= m < out@.len() && out@[m] == x;
                    assert(before[m] == x);
                    assert(before.contains(x));
                }
                if before.contains(x) {
                    let m = choose|m: int| 0 <= m < before.len() && before[m] == x;
                    assert(out@[m] == x);
                }
                if x == h && keep@.contains(x) {
                    assert(out@[out@.len() - 1] == x);
                }
                if exists|m: int| 0 <= m < k + 1 && v@[m] == x {
                    let m = choose|m: int| 0 <= m < k + 1 && v@[m] == x;
                    if m < k {
                        assert(exists|m: int| 0 <= m < k && v@[m] == x);
                    }
                }
            }
        }
        k += 1;
    }
    proof {
        assert forall|h: u32| #[trigger] v@.contains(h) implies exists|m: int| 0 <= m < k && v@[m] == h by {
            let m = choose|m: int| 0 <= m < v@.len() && v@[m] == h;
        }
    }
    out
}

/// Adds the handle to the list unless it is there already.
fn insert_handle(v: &mut Vec<u32>, x: u32)
    ensures
        forall|h: u32| final(v)@.contains(h) <==> old(v)@.contains(h) || h == x,
{
    if !contains_handle(v, x) {
        let ghost before = v@;
        v.push(x);
        proof {
            assert forall|h: u32| v@.contains(h) <==> before.contains(h) || h == x by {
                if v@.contains(h) && h != x {
                    let m = choose|m: int| 0 <= m < v@.len() && v@[m] == h;
                    assert(before[m] == h);
                }
                if before.contains(h) {
                    let m = choose|m: int| 0 <= m < before.len() && before[m] == h;
                    assert(v@[m] == h);
                }
                if h == x {
                    assert(v@[v@.len() - 1] == x);
                }
            }
        }
    }
}

/// Removes the handle from the list.
fn remove_handle(v: &mut Vec<u32>, x: u32)
    ensures
        forall|h: u32| final(v)@.contains(h) <==> old(v)@.contains(h) && h != x,
{
    let single = vec![x];
    let mut out: Vec<u32> = Vec::new();
    let mut k: usize = 0;
    while k < v.len()
        invariant
            k <= v@.len(),
            forall|h: u32| #[trigger] out@.contains(h) <==> (exists|m: int| 0 <= m < k && v@[m] == h) && h != x,
        decreases v.len() - k,
    {
        let h = v[k];
        let ghost before = out@;
        if h != x {
            out.push(h);
        }
        proof {
            assert forall|y: u32| #[trigger] out@.contains(y) <==> (exists|m: int| 0 <= m < k + 1 && v@[m] == y) && y != x by {
                if out@.contains(y) && y != h {
                    let m = choose|m: int| 0 <= m < out@.len() && out@[m] == y;
                    assert(before[m] == y);
                    assert(before.contains(y));
                }
                if before.contains(y) {
                    let m = choose|m: int| 0 <= m < before.len() && before[m] == y;
                    assert(out@[m] == y);
                }
                if y == h && y != x {
                    assert(out@[out@.len() - 1] == y);
                }
                if exists|m: int| 0 <= m < k + 1 && v@[m] == y {
                    let m = choose|m: int| 0 <= m < k + 1 && v@[m] == y;
                    if m < k {
                        assert(exists|m: int| 0 <= m < k && v@[m] == y);
                    }
                }
            }
        }
        k += 1;
    }
    proof {
        assert forall|h: u32| #[trigger] v@.contains(h) implies exists|m: int| 0 <= m < k && v@[m] == h by {
            let m = choose|m: int| 0 <= m < v@.len() && v@[m] == h;
        }
    }
    *v = out;
}

/// Every `ASSET_INTEGRITY_CHECK_INTERVAL_FRAMES` frames: forgets reports
/// of handles no longer referenced, records whether the registry is
/// consistent, reports referenced handles that are not registered, and
/// queues a reload of each referenced texture that is neither loaded nor
/// pending, reporting it until it loads.
#[verifier::rlimit(80)]
pub fn run_asset_integrity_check(
    world: &InternalWorld,
    assets: &mut AssetServer,
    integrity: &mut AssetIntegrity,
)
    requires
        world.wf(),
        old(assets).wf(),
    ensures
        final(assets).wf(),
        AssetServer::keeps_history(*old(assets), *final(assets)),
        final(assets).textures@ == old(assets).textures@,
        final(integrity).tick == if old(integrity).tick == u32::MAX {
            0
        } else {
            (old(integrity).tick + 1) as u32
        },
        final(integrity).tick % ASSET_INTEGRITY_CHECK_INTERVAL_FRAMES != 0 ==> *final(assets)
            == *old(assets) && final(integrity).reported_registry_inconsistency == old(integrity).reported_registry_inconsistency
            && final(integrity).reported_missing_texture_handles@ == old(integrity).reported_missing_texture_handles@
            && final(integrity).reported_unresolved_texture_handles@ == old(integrity).reported_unresolved_texture_handles@,
        final(integrity).tick % ASSET_INTEGRITY_CHECK_INTERVAL_FRAMES == 0 ==> forall|h: u32|
            crate::systems::references(*world, h) && !(1 <= h <= old(assets).textures@.len())
                ==> #[trigger] final(integrity).reported_missing_texture_handles@.contains(h),
        final(integrity).tick % ASSET_INTEGRITY_CHECK_INTERVAL_FRAMES == 0 ==> forall|h: u32|
            crate::systems::references(*world, h) && 1 <= h <= old(assets).textures@.len()
                && !old(assets).spec_is_resolved(h) && !old(assets).has_pending_path(
                old(assets).textures@[h - 1].path@,
            ) ==> #[trigger] final(integrity).reported_unresolved_texture_handles@.contains(h),
        final(integrity).tick % ASSET_INTEGRITY_CHECK_INTERVAL_FRAMES == 0 ==> {
            &&& !final(integrity).reported_registry_inconsistency
            &&& forall|h: u32| #[trigger] final(integrity).reported_missing_texture_handles@.contains(h)
                ==> crate::systems::references(*world, h)
            &&& forall|h: u32| #[trigger] final(integrity).reported_unresolved_texture_handles@.contains(h)
                ==> crate::systems::references(*world, h)
            &&& final(assets).next_request_id < u32::MAX ==> forall|h: u32|
                crate::systems::references(*world, h) && 1 <= h <= final(assets).textures@.len()
                    ==> final(assets).spec_is_resolved(h) || final(assets).has_pending_path(
                    #[trigger] final(assets).textures@[h - 1].path@,
                )
        },
{
    proof {
        AssetServer::lemma_keeps_history_refl(*assets, *assets);
    }
    integrity.tick = if integrity.tick == u32::MAX {
        0
    } else {
        integrity.tick + 1
    };
    if integrity.tick % ASSET_INTEGRITY_CHECK_INTERVAL_FRAMES != 0 {
        return;
    }
    let referenced = crate::systems::collect_referenced_texture_handles(world);
    integrity.reported_missing_texture_handles = retain_handles(&integrity.reported_missing_texture_handles, &referenced);
    integrity.reported_unresolved_texture_handles = retain_handles(&integrity.reported_unresolved_texture_handles, &referenced);
    let consistent = assets.is_registry_consistent();
    if !consistent && !integrity.reported_registry_inconsistency {
        integrity.reported_registry_inconsistency = true;
    } else if consistent && integrity.reported_registry_inconsistency {
        integrity.reported_registry_inconsistency = false;
    }
    let ghost start = *assets;
    proof {
        start.lemma_wf_requests();
    }
    let ghost new_tick = integrity.tick;
    let mut k: usize = 0;
    while k < referenced.len()
        invariant
            integrity.tick == new_tick,
            referenced@.no_duplicates(),
            start.registry_consistent(),
            forall|m: int|
                0 <= m < k && 1 <= referenced@[m] <= start.textures@.len() && !start.spec_is_resolved(referenced@[m])
                    && !start.has_pending_path(start.textures@[referenced@[m] - 1].path@)
                    ==> integrity.reported_unresolved_texture_handles@.contains(#[trigger] referenced@[m]),
            forall|m: int|
                k <= m < referenced@.len() && 1 <= referenced@[m] <= start.textures@.len()
                    ==> (assets.has_pending_path(#[trigger] start.textures@[referenced@[m] - 1].path@)
                    == start.has_pending_path(start.textures@[referenced@[m] - 1].path@)),
            forall|m: int|
                0 <= m < k && !(1 <= referenced@[m] <= assets.textures@.len()) ==> integrity.reported_missing_texture_handles@.contains(
                    #[trigger] referenced@[m],
                ),
            world.wf(),
            start.wf(),
            assets.wf(),
            AssetServer::keeps_history(start, *assets),
            assets.textures@ == start.textures@,
            k <= referenced@.len(),
            forall|h: u32| referenced@.contains(h) <==> crate::systems::references(*world, h),
            forall|h: u32| #[trigger] integrity.reported_missing_texture_handles@.contains(h)
                ==> crate::systems::references(*world, h),
            forall|h: u32| #[trigger] integrity.reported_unresolved_texture_handles@.contains(h)
                ==> crate::systems::references(*world, h),
            !integrity.reported_registry_inconsistency,
            assets.next_request_id < u32::MAX ==> forall|m: int|
                0 <= m < k && 1 <= referenced@[m] <= assets.textures@.len() ==> assets.spec_is_resolved(
                    referenced@[m],
                ) || assets.has_pending_path(
                    #[trigger] assets.textures@[referenced@[m] - 1].path@,
                ),
        decreases referenced.len() - k,
    {
        let handle = referenced[k];
        proof {
            assert(referenced@.contains(handle));
        }
        let ghost before = *assets;
        match assets.path_for_texture_handle(handle) {
            None => {
                insert_handle(&mut integrity.reported_missing_texture_handles, handle);
            },
            Some(path) => {
                let path = String::from_str(path);
                let loaded = assets.is_resolved(handle);
                let pending = assets.has_pending_request_for_texture_handle(handle);
                if !loaded && !pending {
                    assets.reimport_texture(path.as_str());
                    insert_handle(&mut integrity.reported_unresolved_texture_handles, handle);
                } else if loaded {
                    remove_handle(&mut integrity.reported_unresolved_texture_handles, handle);
                }
            },
        }
        proof {
            if *assets == before {
                AssetServer::lemma_keeps_history_refl(before, *assets);
            } else {
                let pk = start.textures@[handle - 1].path@;
                assert(assets.pending_requests@.last().path@ == pk);
                assert forall|m: int|
                    k + 1 <= m < referenced@.len() && 1 <= referenced@[m] <= start.textures@.len()
                    implies (assets.has_pending_path(#[trigger] start.textures@[referenced@[m] - 1].path@)
                    == start.has_pending_path(start.textures@[referenced@[m] - 1].path@)) by {
                    let q = start.textures@[referenced@[m] - 1].path@;
                    assert(referenced@[m] != referenced@[k as int]);
                    assert(q != pk);
                    assert(before.has_pending_path(q) == start.has_pending_path(q));
                    if assets.has_pending_path(q) {
                        let j = choose|j: int| 0 <= j < assets.pending_requests@.len()
                            && #[trigger] assets.pending_requests@[j].path@ == q;
                        if j < before.pending_requests@.len() {
                            assert(assets.pending_requests@.subrange(0, before.pending_requests@.len() as int)[j] == assets.pending_requests@[j]);
                            assert(before.pending_requests@[j].path@ == q);
                        }
                    }
                    if before.has_pending_path(q) {
                        let j = choose|j: int| 0 <= j < before.pending_requests@.len()
                            && #[trigger] before.pending_requests@[j].path@ == q;
                        assert(assets.pending_requests@.subrange(0, before.pending_requests@.len() as int)[j] == assets.pending_requests@[j]);
                    }
                }
            }
            assert forall|m: int|
                0 <= m < k + 1 && 1 <= referenced@[m] <= start.textures@.len() && !start.spec_is_resolved(referenced@[m])
                    && !start.has_pending_path(start.textures@[referenced@[m] - 1].path@)
                implies integrity.reported_unresolved_texture_handles@.contains(#[trigger] referenced@[m]) by {
                if m < k {
                    assert(referenced@[m] != referenced@[k as int]);
                }
            }
            AssetServer::lemma_keeps_history_trans(start, before, *assets);
            if assets.next_request_id < u32::MAX {
                assert forall|m: int|
                    0 <= m < k + 1 && 1 <= referenced@[m] <= assets.textures@.len() implies assets.spec_is_resolved(
                        referenced@[m],
                    ) || assets.has_pending_path(
                        #[trigger] assets.textures@[referenced@[m] - 1].path@,
                    ) by {
                    if m < k {
                        let q = assets.textures@[referenced@[m] - 1].path@;
                        assert(before.textures@ == assets.textures@);
                        assert(before.spec_is_resolved(referenced@[m]) || before.has_pending_path(
                            before.textures@[referenced@[m] - 1].path@));
                        if !assets.spec_is_resolved(referenced@[m]) && before.has_pending_path(q) {
                            let j = choose|j: int| 0 <= j < before.pending_requests@.len()
                                && #[trigger] before.pending_requests@[j].path@ == q;
                            assert(assets.pending_requests@[j] == before.pending_requests@[j]);
                        }
                    } else {
                        if !assets.spec_is_resolved(handle) && *assets != before {
                            assert(assets.pending_requests@.last().path@ == assets.textures@[handle - 1].path@);
                        }
                    }
                }
            }
        }
        k += 1;
    }
    proof {
        if assets.next_request_id < u32::MAX {
            assert forall|h: u32|
                crate::systems::references(*world, h) && 1 <= h <= assets.textures@.len()
                implies assets.spec_is_resolved(h) || assets.has_pending_path(
                    #[trigger] assets.textures@[h - 1].path@,
                ) by {
                assert(referenced@.contains(h));
                let m = choose|m: int| 0 <= m < referenced@.len() && referenced@[m] == h;
                assert(1 <= referenced@[m] <= assets.textures@.len());
                assert(assets.textures@[referenced@[m] - 1] == assets.textures@[h - 1]);
            }
        }
    }
}


/// An unrotated box at `(x, y)` of the given size, in sub-pixels.
pub open spec fn box_at(x: i32, y: i32, w: i32, h: i32) -> crate::components::Transform {
    crate::components::Transform {
        position: crate::geometry::Vec3 { x, y, z: 0 },
        rotation: crate::geometry::Vec3 { x: 0, y: 0, z: 0 },
        scale: crate::geometry::Vec3 { x: w, y: h, z: crate::world_setup::UNIT_SCALE },
    }
}

/// A body the host is to create for the physics stress test: where it is,
/// in sub-pixels, and whether it moves.
#[derive(Debug, Clone, Copy, PartialEq, Eq, Structural)]
pub struct PhysicsBodySpec {
    pub transform: crate::components::Transform,
    pub dynamic: bool,
}

/// The bodies of the physics stress test: four static walls around the
/// screen, then five hundred dynamic boxes at random places inside them.
pub fn physics_stress_layout() -> (r: Vec<PhysicsBodySpec>)
    ensures
        r@.len() == 504,
        forall|i: int| 0 <= i < 4 ==> !(#[trigger] r@[i]).dynamic,
        forall|i: int| 4 <= i < 504 ==> (#[trigger] r@[i]).dynamic,
        r@[0].transform == box_at(24000, 300, 48000, 600),
        r@[1].transform == box_at(24000, 35700, 48000, 600),
        r@[2].transform == box_at(300, 18000, 600, 36000),
        r@[3].transform == box_at(47700, 18000, 600, 36000),
        forall|i: int|
            4 <= i < 504 ==> {
                let t = (#[trigger] r@[i]).transform;
                &&& t == box_at(t.position.x, t.position.y, 600, 600)
                &&& 1200 <= t.position.x < 46800
                &&& 1200 <= t.position.y < 34800
            },
{
    let wall: i32 = 10 * SUB;
    let w = crate::world_setup::SCREEN_WIDTH;
    let h = crate::world_setup::SCREEN_HEIGHT;
    let mut r: Vec<PhysicsBodySpec> = Vec::new();
    r.push(PhysicsBodySpec { transform: crate::world_setup::transform_at(w / 2, wall / 2, w, wall), dynamic: false });
    r.push(PhysicsBodySpec { transform: crate::world_setup::transform_at(w / 2, h - wall / 2, w, wall), dynamic: false });
    r.push(PhysicsBodySpec { transform: crate::world_setup::transform_at(wall / 2, h / 2, wall, h), dynamic: false });
    r.push(PhysicsBodySpec { transform: crate::world_setup::transform_at(w - wall / 2, h / 2, wall, h), dynamic: false });
    let box_size: i32 = 10 * SUB;
    let mut k: u32 = 0;
    while k < 500
        invariant
            k <= 500,
            wall == 10 * SUB,
            box_size == 10 * SUB,
            w == crate::world_setup::SCREEN_WIDTH,
            h == crate::world_setup::SCREEN_HEIGHT,
            r@.len() == 4 + k,
            forall|i: int| 0 <= i < 4 ==> !(#[trigger] r@[i]).dynamic,
            forall|i: int| 4 <= i < r@.len() ==> (#[trigger] r@[i]).dynamic,
            r@[0].transform == box_at(24000, 300, 48000, 600),
            r@[1].transform == box_at(24000, 35700, 48000, 600),
            r@[2].transform == box_at(300, 18000, 600, 36000),
            r@[3].transform == box_at(47700, 18000, 600, 36000),
            forall|i: int|
                4 <= i < r@.len() ==> {
                    let t = (#[trigger] r@[i]).transform;
                    &&& t == box_at(t.position.x, t.position.y, 600, 600)
                    &&& 1200 <= t.position.x < 46800
                    &&& 1200 <= t.position.y < 34800
                },
        decreases 500 - k,
    {
        let x = crate::world_setup::random_in(wall + box_size, w - wall - box_size);
        let y = crate::world_setup::random_in(wall + box_size, h - wall - box_size);
        r.push(PhysicsBodySpec { transform: crate::world_setup::transform_at(x, y, box_size, box_size), dynamic: true });
        k += 1;
    }
    r
}


/// Entity `id` is a sprite of the sprite stress test: a 10-pixel square on screen.
pub open spec fn stress_sprite(w: InternalWorld, id: u64, texture_handle: u32) -> bool {
    &&& w.component_of(Entity(id), ComponentType::Material) == ComponentValue::Material(Material { texture_handle })
    &&& sprite_shape(w, id)
}

/// Entity `id` is a sprite that is a 10-pixel square on screen.
pub open spec fn sprite_shape(w: InternalWorld, id: u64) -> bool {
    &&& live_of_kinds(w, id, sprite_kinds())
    &&& w.component_of(Entity(id), ComponentType::Transform) matches ComponentValue::Transform(t) && t
        == box_at(t.position.x, t.position.y, 600, 600) && 0 <= t.position.x < crate::world_setup::SCREEN_WIDTH
        && 0 <= t.position.y < crate::world_setup::SCREEN_HEIGHT
}

/// Entity `id` mirrors body `body` placed at `t`.
pub open spec fn mirror_of(w: InternalWorld, id: u64, t: crate::components::Transform, body: u64) -> bool {
    &&& live_of_kinds(w, id, mirror_kinds())
    &&& w.component_of(Entity(id), ComponentType::Transform) == ComponentValue::Transform(t)
    &&& w.component_of(Entity(id), ComponentType::Physics) == ComponentValue::Physics(PhysicsBody { id: body })
}

proof fn lemma_stress_kinds_exclude()
    ensures
        !sprite_kinds().has(ComponentType::Button),
        !sprite_kinds().has(ComponentType::Physics),
        !mirror_kinds().has(ComponentType::Button),
        !mirror_kinds().has(ComponentType::Sprite),
{
    let a = seq![ComponentType::Transform, ComponentType::Material, ComponentType::Sprite];
    let b = seq![ComponentType::Transform, ComponentType::Physics, ComponentType::Material];
    assert(!a.contains(ComponentType::Button));
    assert(!a.contains(ComponentType::Physics));
    assert(!b.contains(ComponentType::Button));
    assert(!b.contains(ComponentType::Sprite));
}

proof fn lemma_kinds_members()
    ensures
        sprite_kinds().has(ComponentType::Transform),
        sprite_kinds().has(ComponentType::Material),
        mirror_kinds().has(ComponentType::Transform),
        mirror_kinds().has(ComponentType::Physics),
{
    assert(seq![ComponentType::Transform, ComponentType::Material, ComponentType::Sprite][0] == ComponentType::Transform);
    assert(seq![ComponentType::Transform, ComponentType::Material, ComponentType::Sprite][1] == ComponentType::Material);
    assert(seq![ComponentType::Transform, ComponentType::Physics, ComponentType::Material][0] == ComponentType::Transform);
    assert(seq![ComponentType::Transform, ComponentType::Physics, ComponentType::Material][1] == ComponentType::Physics);
}

/// Spawns `count` 10-pixel sprites at random places on screen.
pub fn spawn_stress_sprites(world: &mut InternalWorld, count: u32, texture_handle: u32)
    requires
        old(world).wf(),
        old(world).next_entity + count <= u64::MAX,
    ensures
        final(world).wf(),
        final(world).next_entity == old(world).next_entity + count,
        forall|j: int| 0 <= j < count ==> #[trigger] stress_sprite(*final(world), (old(world).next_entity + j) as u64, texture_handle),
        forall|id: u64, k: ComponentTypeSet| #[trigger] live_of_kinds(*old(world), id, k) ==> live_of_kinds(*final(world), id, k),
        InternalWorld::grew_from(*old(world), *final(world)),
{
    let ghost start = *world;
    proof {
        lemma_kinds_members();
        assert(InternalWorld::grew_from(start, start));
    }
    let mut k: u32 = 0;
    while k < count
        invariant
            k <= count,
            start == *old(world),
            start.wf(),
            world.wf(),
            world.next_entity == start.next_entity + k,
            start.next_entity + count <= u64::MAX,
            sprite_kinds().has(ComponentType::Transform),
            sprite_kinds().has(ComponentType::Material),
            forall|j: int| 0 <= j < k ==> #[trigger] stress_sprite(*world, (start.next_entity + j) as u64, texture_handle),
            forall|id: u64, c: ComponentTypeSet| #[trigger] live_of_kinds(start, id, c) ==> live_of_kinds(*world, id, c),
            InternalWorld::grew_from(start, *world),
        decreases count - k,
    {
        let x = crate::world_setup::random_in(0, crate::world_setup::SCREEN_WIDTH);
        let y = crate::world_setup::random_in(0, crate::world_setup::SCREEN_HEIGHT);
        let ghost w0 = *world;
        crate::world_setup::spawn_sprite(world, crate::world_setup::transform_at(x, y, 10 * SUB, 10 * SUB), texture_handle);
        proof {
            InternalWorld::lemma_spawn_grew(w0, *world, Entity(w0.next_entity));
            InternalWorld::lemma_grew_trans(start, w0, *world);
            assert forall|j: int| 0 <= j < k + 1 implies #[trigger] stress_sprite(*world, (start.next_entity + j) as u64, texture_handle) by {
                if j < k {
                    let id = (start.next_entity + j) as u64;
                    assert(stress_sprite(w0, id, texture_handle));
                    InternalWorld::lemma_spawn_keeps(w0, *world, Entity(w0.next_entity), Entity(id));
                    assert(w0.kinds_of(Entity(id)).has(ComponentType::Transform));
                    assert(w0.kinds_of(Entity(id)).has(ComponentType::Material));
                }
            }
            assert forall|id: u64, c: ComponentTypeSet| #[trigger] live_of_kinds(start, id, c) implies live_of_kinds(*world, id, c) by {
                assert(live_of_kinds(w0, id, c));
                InternalWorld::lemma_spawn_keeps(w0, *world, Entity(w0.next_entity), Entity(id));
            }
        }
        k += 1;
    }
}

/// Spawns one mirror per body of the layout, with the host's body ids:
/// static bodies drawn with `ground_texture`, dynamic ones with `box_texture`.
pub fn spawn_mirrors(
    world: &mut InternalWorld,
    layout: &Vec<PhysicsBodySpec>,
    body_ids: &Vec<u64>,
    ground_texture: u32,
    box_texture: u32,
)
    requires
        old(world).wf(),
        layout@.len() == body_ids@.len(),
        old(world).next_entity + layout@.len() <= u64::MAX,
    ensures
        final(world).wf(),
        final(world).next_entity == old(world).next_entity + layout@.len(),
        forall|j: int| 0 <= j < layout@.len() ==> #[trigger] mirror_of(*final(world), (old(world).next_entity + j) as u64, layout@[j].transform, body_ids@[j]),
        forall|id: u64, k: ComponentTypeSet| #[trigger] live_of_kinds(*old(world), id, k) ==> live_of_kinds(*final(world), id, k),
        InternalWorld::grew_from(*old(world), *final(world)),
{
    let ghost start = *world;
    proof {
        lemma_kinds_members();
        assert(InternalWorld::grew_from(start, start));
    }
    let mut k: usize = 0;
    while k < layout.len()
        invariant
            k <= layout@.len(),
            layout@.len() == body_ids@.len(),
            start == *old(world),
            start.wf(),
            world.wf(),
            world.next_entity == start.next_entity + k,
            start.next_entity + layout@.len() <= u64::MAX,
            mirror_kinds().has(ComponentType::Transform),
            mirror_kinds().has(ComponentType::Physics),
            forall|j: int| 0 <= j < k ==> #[trigger] mirror_of(*world, (start.next_entity + j) as u64, layout@[j].transform, body_ids@[j]),
            forall|id: u64, c: ComponentTypeSet| #[trigger] live_of_kinds(start, id, c) ==> live_of_kinds(*world, id, c),
            InternalWorld::grew_from(start, *world),
        decreases layout.len() - k,
    {
        let spec_k = layout[k];
        let texture = if spec_k.dynamic {
            box_texture
        } else {
            ground_texture
        };
        let ghost w0 = *world;
        crate::world_setup::spawn_physics_mirror(world, spec_k.transform, body_ids[k], texture);
        proof {
            InternalWorld::lemma_spawn_grew(w0, *world, Entity(w0.next_entity));
            InternalWorld::lemma_grew_trans(start, w0, *world);
            assert forall|j: int| 0 <= j < k + 1 implies #[trigger] mirror_of(*world, (start.next_entity + j) as u64, layout@[j].transform, body_ids@[j]) by {
                if j < k {
                    let id = (start.next_entity + j) as u64;
                    assert(mirror_of(w0, id, layout@[j].transform, body_ids@[j]));
                    InternalWorld::lemma_spawn_keeps(w0, *world, Entity(w0.next_entity), Entity(id));
                    assert(w0.kinds_of(Entity(id)).has(ComponentType::Transform));
                    assert(w0.kinds_of(Entity(id)).has(ComponentType::Physics));
                }
            }
            assert forall|id: u64, c: ComponentTypeSet| #[trigger] live_of_kinds(start, id, c) implies live_of_kinds(*world, id, c) by {
                assert(live_of_kinds(w0, id, c));
                InternalWorld::lemma_spawn_keeps(w0, *world, Entity(w0.next_entity), Entity(id));
            }
        }
        k += 1;
    }
}

/// The body ids of the first `rows` rows of an archetype.
pub open spec fn archetype_body_ids(a: Archetype, rows: int) -> Seq<u64>
    decreases rows,
{
    if rows <= 0 {
        Seq::empty()
    } else {
        archetype_body_ids(a, rows - 1).push(a.physics_bodies@[rows - 1].id)
    }
}

pub open spec fn is_mirror_kind(a: Archetype) -> bool {
    a.types.physics && a.types.transform
}

/// The body ids of the physics mirrors of the first `n` archetypes.
pub open spec fn body_ids(archetypes: Seq<Archetype>, n: int) -> Seq<u64>
    decreases n,
{
    if n <= 0 {
        Seq::empty()
    } else {
        body_ids(archetypes, n - 1) + if is_mirror_kind(archetypes[n - 1]) {
            archetype_body_ids(archetypes[n - 1], archetypes[n - 1].entity_count as int)
        } else {
            Seq::empty()
        }
    }
}

/// The body ids of the physics mirrors, in archetype then row order.
pub fn physics_body_ids(world: &InternalWorld) -> (r: Vec<u64>)
    requires
        world.wf(),
    ensures
        r@ == body_ids(world.archetypes@, world.archetypes@.len() as int),
{
    let mut ids: Vec<u64> = Vec::new();
    let mut a: usize = 0;
    while a < world.archetypes.len()
        invariant
            world.wf(),
            a <= world.archetypes@.len(),
            ids@ == body_ids(world.archetypes@, a as int),
        decreases world.archetypes.len() - a,
    {
        let arch = &world.archetypes[a];
        let ghost prefix = ids@;
        if arch.types.physics && arch.types.transform {
            proof {
                assert(arch.wf());
                assert(arch.column(ComponentType::Physics).len() == arch.entity_count);
            }
            let mut i: usize = 0;
            while i < arch.entity_count
                invariant
                    arch.physics_bodies@.len() == arch.entity_count,
                    i <= arch.entity_count,
                    ids@ == prefix + archetype_body_ids(*arch, i as int),
                decreases arch.entity_count - i,
            {
                ids.push(arch.physics_bodies[i].id);
                proof {
                    assert(ids@ =~= prefix + archetype_body_ids(*arch, i as int + 1));
                }
                i += 1;
            }
        }
        proof {
            assert(ids@ =~= body_ids(world.archetypes@, a as int + 1));
        }
        a += 1;
    }
    ids
}

proof fn lemma_archetype_body_ids_len(a: Archetype, rows: int)
    requires
        rows >= 0,
    ensures
        archetype_body_ids(a, rows).len() == rows,
    decreases rows,
{
    if rows > 0 {
        lemma_archetype_body_ids_len(a, rows - 1);
    }
}

/// The index, in the order of `physics_body_ids`, of the first mirror of archetype `a`.
pub open spec fn mirror_offset(archetypes: Seq<Archetype>, a: int) -> int {
    body_ids(archetypes, a).len() as int
}

/// A mirror's transform after syncing with position `k` of the list, in
/// millimetres: fifty pixels per metre are three sub-pixels per millimetre.
pub open spec fn synced(before: crate::components::Transform, after: crate::components::Transform, positions: Seq<Vec2>, k: int) -> bool {
    if k < positions.len() {
        after == (crate::components::Transform {
            position: crate::geometry::Vec3 {
                x: clamp_i32(positions[k].x * 3),
                y: clamp_i32(positions[k].y * 3),
                z: before.position.z,
            },
            ..before
        })
    } else {
        after == before
    }
}

pub open spec fn mirrors_synced(before: Archetype, after: Archetype, offset: int, positions: Seq<Vec2>) -> bool {
    &&& Archetype::same_layout(before, after)
    &&& if is_mirror_kind(before) {
        &&& forall|i: int|
            0 <= i < before.entity_count ==> synced(
                #[trigger] before.transforms@[i],
                after.transforms@[i],
                positions,
                offset + i,
            )
        &&& after.velocities@ == before.velocities@
        &&& after.materials@ == before.materials@
        &&& after.players@ == before.players@
        &&& after.obstacles@ == before.obstacles@
        &&& after.buttons@ == before.buttons@
        &&& after.physics_bodies@ == before.physics_bodies@
        &&& after.sprites@ == before.sprites@
    } else {
        after == before
    }
}

/// Moves each physics mirror to its body's simulated position, given in
/// millimetres in the order of `physics_body_ids`; mirrors past the end of
/// the list stay where they are.
#[verifier::rlimit(60)]
pub fn sync_physics_to_render(world: &mut InternalWorld, positions: &Vec<Vec2>)
    requires
        old(world).wf(),
    ensures
        final(world).wf(),
        final(world).entities@ == old(world).entities@,
        final(world).next_entity == old(world).next_entity,
        final(world).archetype_sets() == old(world).archetype_sets(),
        final(world).archetypes@.len() == old(world).archetypes@.len(),
        forall|a: int|
            0 <= a < old(world).archetypes@.len() ==> mirrors_synced(
                #[trigger] old(world).archetypes@[a],
                final(world).archetypes@[a],
                mirror_offset(old(world).archetypes@, a),
                positions@,
            ),
{
    let ghost start = *world;
    let mut next: usize = 0;
    let mut a: usize = 0;
    while a < world.archetypes.len()
        invariant
            start.wf(),
            a <= world.archetypes@.len(),
            world.archetypes@.len() == start.archetypes@.len(),
            world.entities@ == start.entities@,
            world.next_entity == start.next_entity,
            next == if mirror_offset(start.archetypes@, a as int) < positions@.len() {
                mirror_offset(start.archetypes@, a as int)
            } else {
                positions@.len() as int
            },
            forall|b: int|
                0 <= b < a ==> mirrors_synced(
                    #[trigger] start.archetypes@[b],
                    world.archetypes@[b],
                    mirror_offset(start.archetypes@, b),
                    positions@,
                ),
            forall|b: int|
                a <= b < world.archetypes@.len() ==> #[trigger] world.archetypes@[b] == start.archetypes@[b],
        decreases world.archetypes.len() - a,
    {
        let types = world.archetypes[a].types;
        let ghost before = start.archetypes@[a as int];
        let ghost offset = mirror_offset(start.archetypes@, a as int);
        proof {
            lemma_archetype_body_ids_len(before, before.entity_count as int);
            assert(body_ids(start.archetypes@, a as int + 1) == body_ids(start.archetypes@, a as int) + if is_mirror_kind(before) {
                archetype_body_ids(before, before.entity_count as int)
            } else {
                Seq::empty()
            });
        }
        if types.physics && types.transform {
            proof {
                assert(before.wf());
                assert(before.column(ComponentType::Transform).len() == before.entity_count);
            }
            let count = world.archetypes[a].entity_count;
            let mut i: usize = 0;
            while i < count
                invariant
                    a < world.archetypes@.len(),
                    world.archetypes@.len() == start.archetypes@.len(),
                    world.entities@ == start.entities@,
                    world.next_entity == start.next_entity,
                    before == start.archetypes@[a as int],
                    is_mirror_kind(before),
                    count == before.entity_count,
                    before.transforms@.len() == count,
                    i <= count,
                    next == if offset + i < positions@.len() {
                        offset + i
                    } else {
                        positions@.len() as int
                    },
                    forall|b: int|
                        0 <= b < a ==> mirrors_synced(
                            #[trigger] start.archetypes@[b],
                            world.archetypes@[b],
                            mirror_offset(start.archetypes@, b),
                            positions@,
                        ),
                    forall|b: int|
                        a < b < world.archetypes@.len() ==> #[trigger] world.archetypes@[b] == start.archetypes@[b],
                    Archetype::same_layout(before, world.archetypes@[a as int]),
                    world.archetypes@[a as int].velocities@ == before.velocities@,
                    world.archetypes@[a as int].materials@ == before.materials@,
                    world.archetypes@[a as int].players@ == before.players@,
                    world.archetypes@[a as int].obstacles@ == before.obstacles@,
                    world.archetypes@[a as int].buttons@ == before.buttons@,
                    world.archetypes@[a as int].physics_bodies@ == before.physics_bodies@,
                    world.archetypes@[a as int].sprites@ == before.sprites@,
                    forall|j: int|
                        0 <= j < i ==> synced(
                            #[trigger] before.transforms@[j],
                            world.archetypes@[a as int].transforms@[j],
                            positions@,
                            offset + j,
                        ),
                    forall|j: int|
                        i <= j < count ==> #[trigger] world.archetypes@[a as int].transforms@[j]
                            == before.transforms@[j],
                decreases count - i,
            {
                if next < positions.len() {
                    let p = positions[next];
                    let mut t = world.archetypes[a].transforms[i];
                    // Fifty pixels per metre: three sub-pixels per millimetre.
                    t.position.x = clamp_i32_exec(p.x as i64 * 3);
                    t.position.y = clamp_i32_exec(p.y as i64 * 3);
                    world.archetypes[a].transforms[i] = t;
                    next += 1;
                }
                i += 1;
            }
        }
        a += 1;
    }
    proof {
        assert forall|b: int| 0 <= b < start.archetypes@.len() implies Archetype::same_layout(
            #[trigger] start.archetypes@[b],
            world.archetypes@[b],
        ) by {
            assert(mirrors_synced(start.archetypes@[b], world.archetypes@[b], mirror_offset(start.archetypes@, b), positions@));
        }
        InternalWorld::lemma_same_layout(start, *world);
    }
}

/// The labels of the text stress test: forty rows of thirty labels
/// numbered from `T1`.
pub fn ui_stress_labels(text_commands: &mut Vec<TextCommand>)
    ensures
        final(text_commands)@.len() == old(text_commands)@.len() + 1200,
        final(text_commands)@.subrange(0, old(text_commands)@.len() as int) == old(text_commands)@,
        forall|k: int|
            0 <= k < 1200 ==> (#[trigger] final(text_commands)@[old(text_commands)@.len() + k]).text@
                == seq!['T'] + decimal((k + 1) as nat),
{
    let mut count: u64 = 0;
    let mut i: i32 = 0;
    while i < 40
        invariant
            0 <= i <= 40,
            count == i * 30,
            text_commands@.len() == old(text_commands)@.len() + count,
            text_commands@.subrange(0, old(text_commands)@.len() as int) == old(text_commands)@,
            forall|k: int|
                0 <= k < count ==> (#[trigger] text_commands@[old(text_commands)@.len() + k]).text@
                    == seq!['T'] + decimal((k + 1) as nat),
        decreases 40 - i,
    {
        let mut j: i32 = 0;
        while j < 30
            invariant
                0 <= i < 40,
                0 <= j <= 30,
                count == i * 30 + j,
                text_commands@.len() == old(text_commands)@.len() + count,
                text_commands@.subrange(0, old(text_commands)@.len() as int) == old(text_commands)@,
                forall|k: int|
                    0 <= k < count ==> (#[trigger] text_commands@[old(text_commands)@.len() + k]).text@
                        == seq!['T'] + decimal((k + 1) as nat),
            decreases 30 - j,
        {
            count += 1;
            proof {
                reveal_strlit("T");
            }
            let text = concat(String::from_str("T"), decimal_string(count).as_str());
            let ghost before = text_commands@;
            text_commands.push(
                TextCommand {
                    text,
                    position: Vec2 { x: 5 * SUB + j * 1600, y: 15 * SUB + i * 900 },
                    font_size: 12 * SUB,
                    color: color(800, 800, 100, 1000),
                },
            );
            proof {
                let base = old(text_commands)@.len() as int;
                assert(text_commands@.subrange(0, base) =~= before.subrange(0, base));
                assert forall|k: int|
                    0 <= k < count implies (#[trigger] text_commands@[base + k]).text@
                        == seq!['T'] + decimal((k + 1) as nat) by {
                    if k < count - 1 {
                        assert(text_commands@[base + k] == before[base + k]);
                    }
                }
            }
            j += 1;
        }
        i += 1;
    }
}


/// Whether a click this frame lands on no live button.
pub open spec fn no_button_clicked(world: InternalWorld, input: InputState) -> bool {
    !input.mouse_clicked || forall|a: int, i: int| !#[trigger] button_hit(world, a, i, input.mouse_pos)
}

/// The fixed lines of the title screen, then the settings lines.
pub open spec fn title_texts(settings: crate::save::SaveSettings) -> Seq<Seq<char>> {
    seq![
        "MIYABI Box Survival"@,
        "Arrow Keys: Move / ESC: Pause"@,
        "U: Reimport Textures"@,
        "Settings (auto-saved)"@,
    ] + settings_texts(settings)
}

/// The fixed lines of the pause screen, then the settings lines.
pub open spec fn pause_texts(settings: crate::save::SaveSettings) -> Seq<Seq<char>> {
    seq!["PAUSED"@, "U: Reimport Textures"@, "Settings (auto-saved)"@] + settings_texts(settings)
}

/// The lines of the result screen: the outcome, the run's score and time,
/// and the records.
pub open spec fn result_texts(clear: bool, score: u32, frames: u32, p: SaveProgress) -> Seq<Seq<char>> {
    seq![
        if clear {
            "CLEAR"@
        } else {
            "GAME OVER"@
        },
        "Score: "@ + decimal(score as nat),
        "Survival: "@ + decimal((frames / 60) as nat) + "."@ + decimal(((frames % 60) / 6) as nat)
            + " sec"@,
        "High Score: "@ + decimal(p.best_score as nat),
        "Best Survival: "@ + decimal(p.best_survival_sec as nat) + " sec"@,
        "Play:"@ + decimal(p.total_play_count as nat) + "  Clear:"@ + decimal(p.total_clear_count as nat),
    ]
}


/// The host commands grew only by appending.
pub open spec fn extends(before: Seq<HostCommand>, after: Seq<HostCommand>) -> bool {
    before.len() <= after.len() && after.subrange(0, before.len() as int) == before
}

/// `c` was appended since `before`.
pub open spec fn queued_since(before: Seq<HostCommand>, after: Seq<HostCommand>, c: HostCommand) -> bool {
    exists|k: int| before.len() <= k < after.len() && after[k] == c
}

pub proof fn lemma_extends_trans(a: Seq<HostCommand>, b: Seq<HostCommand>, c: Seq<HostCommand>)
    requires
        extends(a, b),
        extends(b, c),
    ensures
        extends(a, c),
        forall|x: HostCommand| queued_since(a, b, x) ==> queued_since(a, c, x),
{
    assert forall|i: int| 0 <= i < a.len() implies c.subrange(0, a.len() as int)[i] == a[i] by {
        assert(c.subrange(0, b.len() as int)[i] == c[i]);
        assert(b.subrange(0, a.len() as int)[i] == b[i]);
    }
    assert(c.subrange(0, a.len() as int) =~= a);
    assert forall|x: HostCommand| queued_since(a, b, x) implies queued_since(a, c, x) by {
        let k = choose|k: int| a.len() <= k < b.len() && b[k] == x;
        assert(c.subrange(0, b.len() as int)[k] == c[k]);
    }
}

pub proof fn lemma_extends_push(a: Seq<HostCommand>, x: HostCommand)
    ensures
        extends(a, a.push(x)),
        queued_since(a, a.push(x), x),
{
    assert(a.push(x).subrange(0, a.len() as int) =~= a);
    assert(a.push(x)[a.len() as int] == x);
}

/// The effect sound was appended since `before`.
pub open spec fn effect_queued_since(before: Seq<HostCommand>, after: Seq<HostCommand>) -> bool {
    exists|k: int| before.len() <= k < after.len() && is_effect_sound(#[trigger] after[k])
}

/// The command plays the effect sound.
pub open spec fn is_effect_sound(c: HostCommand) -> bool {
    c matches HostCommand::PlaySound { path } && path@ == "assets/test_sound.wav"@
}

pub proof fn lemma_effect_kept(a: Seq<HostCommand>, b: Seq<HostCommand>, c: Seq<HostCommand>)
    requires
        extends(a, b),
        extends(b, c),
    ensures
        effect_queued_since(a, b) ==> effect_queued_since(a, c),
        queued_since(b, c, HostCommand::PersistSave) ==> queued_since(a, c, HostCommand::PersistSave),
{
    if effect_queued_since(a, b) {
        let k = choose|k: int| a.len() <= k < b.len() && is_effect_sound(#[trigger] b[k]);
        assert(c.subrange(0, b.len() as int)[k] == c[k]);
    }
}

/// Hit points after `hits` hits, never below the smallest `i32`.
pub open spec fn hp_after(hp: i32, hits: u32) -> i32 {
    if hp - hits < i32::MIN {
        i32::MIN
    } else {
        (hp - hits) as i32
    }
}

/// What carrying out a button's action does to the game.
pub open spec fn action_done(before: Game, after: Game, action: ButtonAction) -> bool {
    let s0 = before.save_data.settings;
    let s1 = after.save_data.settings;
    match action {
        ButtonAction::StartGame | ButtonAction::RetryGame => {
            &&& after.current_state == GameState::InGame
            &&& after.hp == INITIAL_HP
            &&& after.survival_frames == 0
            &&& after.avoid_count == 0
            &&& after.score == 0
            &&& after.difficulty_level == 1
            &&& !after.result_is_clear
            &&& s1 == s0
            &&& after.save_data.progress == (SaveProgress {
                total_play_count: sat_u32(before.save_data.progress.total_play_count + 1),
                ..before.save_data.progress
            })
            &&& after.total_play_count == after.save_data.progress.total_play_count
            &&& queued_since(before.host_commands@, after.host_commands@, HostCommand::PersistSave)
        },
        ButtonAction::ResumeGame => after.current_state == GameState::InGame && after.same_run(
            before,
        ),
        ButtonAction::BackToTitle => after.current_state == GameState::Title && after.same_run(
            before,
        ),
        _ => {
            &&& after.current_state == before.current_state
            &&& after.save_data.progress == before.save_data.progress
            &&& s1.master_volume == match action {
                ButtonAction::MasterVolumeDown => adjusted_volume(s0.master_volume as int, -SETTINGS_STEP as int),
                ButtonAction::MasterVolumeUp => adjusted_volume(s0.master_volume as int, SETTINGS_STEP as int),
                _ => s0.master_volume,
            }
            &&& s1.bgm_volume == match action {
                ButtonAction::BgmVolumeDown => adjusted_volume(s0.bgm_volume as int, -SETTINGS_STEP as int),
                ButtonAction::BgmVolumeUp => adjusted_volume(s0.bgm_volume as int, SETTINGS_STEP as int),
                _ => s0.bgm_volume,
            }
            &&& s1.se_volume == match action {
                ButtonAction::SeVolumeDown => adjusted_volume(s0.se_volume as int, -SETTINGS_STEP as int),
                ButtonAction::SeVolumeUp => adjusted_volume(s0.se_volume as int, SETTINGS_STEP as int),
                _ => s0.se_volume,
            }
            &&& s1.fullscreen == if action == ButtonAction::ToggleFullscreen {
                !s0.fullscreen
            } else {
                s0.fullscreen
            }
        },
    }
}


/// One step of play on the store: the players moved from `before` to
/// `moved`, `bounds` being the last player's box; obstacles were spawned
/// into `spawned`; then every obstacle fell at `speed` and was recycled if
/// it left the screen or hit that box, giving `stepped`; and `step` counts
/// exactly those hits and falls.
pub open spec fn play_step(
    before: InternalWorld,
    input: InputState,
    speed: int,
    moved: InternalWorld,
    spawned: InternalWorld,
    bounds: Option<crate::systems::Bounds>,
    stepped: InternalWorld,
    step: crate::systems::ObstacleStep,
) -> bool {
    &&& crate::systems::players_step(before, moved, input, bounds)
    &&& spawned.wf()
    &&& obstacles_spawned(moved, spawned)
    &&& stepped.wf()
    &&& stepped.archetypes@.len() == spawned.archetypes@.len()
    &&& forall|a: int|
        0 <= a < spawned.archetypes@.len() ==> crate::systems::obstacles_stepped(
            #[trigger] spawned.archetypes@[a],
            stepped.archetypes@[a],
            speed,
            bounds,
        )
    &&& step.hits == crate::systems::sat32(
        crate::systems::total_hits(spawned.archetypes@, spawned.archetypes@.len() as int, speed, bounds),
    )
    &&& step.avoided == crate::systems::sat32(
        crate::systems::total_falls(spawned.archetypes@, spawned.archetypes@.len() as int, speed),
    )
}

/// Bookkeeping of the periodic texture reference check.
#[derive(Debug)]
pub struct AssetIntegrity {
    pub tick: u32,
    pub reported_missing_texture_handles: Vec<u32>,
    pub reported_unresolved_texture_handles: Vec<u32>,
    pub reported_registry_inconsistency: bool,
}

/// The whole game: the entity store, the asset registry, the current state
/// with its gameplay scalars, the batches for the host and the save data.
#[derive(Debug)]
pub struct Game {
    pub world: InternalWorld,
    pub current_state: GameState,
    pub asset_server: AssetServer,
    pub input_state: InputState,
    pub renderables: Vec<RenderableObject>,
    pub asset_commands: Vec<AssetCommand>,
    pub text_commands: Vec<TextCommand>,
    pub collision_events: Vec<CollisionEvent>,
    pub host_commands: Vec<HostCommand>,
    pub hp: i32,
    pub survival_frames: u32,
    pub avoid_count: u32,
    pub score: u32,
    pub difficulty_level: u32,
    pub result_is_clear: bool,
    pub total_play_count: u32,
    pub save_data: SaveData,
    pub player_texture_handle: u32,
    pub obstacle_texture_handle: u32,
    /// Time toward the next obstacle spawn, in ticks.
    pub obstacle_spawn_accumulator: u64,
    pub esc_was_pressed: bool,
    pub u_was_pressed: bool,
    pub integrity: AssetIntegrity,
    /// What the last step of play did to the obstacles.
    pub last_obstacle_step: crate::systems::ObstacleStep,
}

impl Game {
    pub open spec fn wf(&self) -> bool {
        &&& self.world.wf()
        &&& self.asset_server.wf()
        &&& self.save_data.settings.in_range()
    }

    /// The run's scalars and the save data are as in `other`.
    pub open spec fn same_run(&self, other: Game) -> bool {
        &&& self.hp == other.hp
        &&& self.survival_frames == other.survival_frames
        &&& self.avoid_count == other.avoid_count
        &&& self.score == other.score
        &&& self.difficulty_level == other.difficulty_level
        &&& self.result_is_clear == other.result_is_clear
        &&& self.total_play_count == other.total_play_count
        &&& self.save_data == other.save_data
        &&& self.obstacle_spawn_accumulator == other.obstacle_spawn_accumulator
        &&& self.player_texture_handle == other.player_texture_handle
        &&& self.obstacle_texture_handle == other.obstacle_texture_handle
        &&& self.last_obstacle_step == other.last_obstacle_step
    }

    /// At least `n` more entities can be spawned.
    pub open spec fn has_room(&self, n: int) -> bool {
        self.world.next_entity + n <= u64::MAX
    }

    /// Starts a game on the given save data, sanitized, at the title screen.
    pub fn new(save_data: SaveData) -> (g: Game)
        ensures
            g.wf(),
            g.current_state == GameState::Title,
            g.save_data == save_data.sanitized_spec(),
            g.total_play_count == save_data.progress.total_play_count,
            g.hp == INITIAL_HP,
            g.survival_frames == 0,
            g.score == 0,
            g.difficulty_level == 1,
            !g.result_is_clear,
            g.world.next_entity == 8,
            all_of_kinds(g.world, 0, 8, button_kinds()),
            g.host_commands@.len() == 3,
            g.host_commands@[0] is PlayBgm,
            g.host_commands@[1] == (HostCommand::SetAudioVolumes {
                master: g.save_data.settings.master_volume,
                bgm: g.save_data.settings.bgm_volume,
                se: g.save_data.settings.se_volume,
            }),
            g.host_commands@[2] == (HostCommand::RequestFullscreen { enabled: g.save_data.settings.fullscreen }),
    {
        let save_data = save_data.sanitized();
        let mut game = Game {
            world: InternalWorld::new(),
            current_state: GameState::Title,
            asset_server: AssetServer::new(),
            input_state: InputState {
                up: false,
                down: false,
                left: false,
                right: false,
                esc_key: false,
                s_key: false,
                p_key: false,
                u_key: false,
                mouse_pos: Vec2 { x: 0, y: 0 },
                mouse_clicked: false,
            },
            renderables: Vec::new(),
            asset_commands: Vec::new(),
            text_commands: Vec::new(),
            collision_events: Vec::new(),
            host_commands: Vec::new(),
            hp: INITIAL_HP,
            survival_frames: 0,
            avoid_count: 0,
            score: 0,
            difficulty_level: 1,
            result_is_clear: false,
            total_play_count: save_data.progress.total_play_count,
            save_data,
            player_texture_handle: 0,
            obstacle_texture_handle: 0,
            obstacle_spawn_accumulator: 0,
            esc_was_pressed: false,
            u_was_pressed: false,
            integrity: AssetIntegrity {
                tick: 0,
                reported_missing_texture_handles: Vec::new(),
                reported_unresolved_texture_handles: Vec::new(),
                reported_registry_inconsistency: false,
            },
            last_obstacle_step: crate::systems::ObstacleStep { hits: 0, avoided: 0 },
        };
        game.setup_title_screen();
        game.host_commands.push(audio_command(&game.save_data.settings));
        game.host_commands.push(
            HostCommand::RequestFullscreen { enabled: game.save_data.settings.fullscreen },
        );
        game
    }

    /// Removes every entity of an archetype that has buttons.
    pub fn clear_menu_buttons(&mut self)
        requires
            old(self).wf(),
        ensures
            final(self).wf(),
            InternalWorld::cleared_of(old(self).world, final(self).world, ComponentType::Button),
            final(self).asset_server == old(self).asset_server,
            final(self).current_state == old(self).current_state,
            final(self).same_run(*old(self)),
            final(self).host_commands == old(self).host_commands,
            final(self).esc_was_pressed == old(self).esc_was_pressed,
            final(self).input_state == old(self).input_state,
    {
        self.world.clear_entities_of_component(ComponentType::Button);
    }

    /// Empties the store and shows the title menu.
    pub fn setup_title_screen(&mut self)
        requires
            old(self).wf(),
            old(self).has_room(8),
        ensures
            final(self).wf(),
            final(self).current_state == GameState::Title,
            final(self).world.next_entity == old(self).world.next_entity + 8,
            final(self).asset_server == old(self).asset_server,
            final(self).same_run(*old(self)),
            !final(self).esc_was_pressed,
            extends(old(self).host_commands@, final(self).host_commands@),
            final(self).host_commands@.len() == old(self).host_commands@.len() + 1,
            final(self).host_commands@.last() is PlayBgm,
            all_of_kinds(final(self).world, old(self).world.next_entity, 8, button_kinds()),
    {
        let ghost h0 = self.host_commands@;
        clear_runtime_world(
            &mut self.world,
            &mut self.renderables,
            &mut self.text_commands,
            &mut self.asset_commands,
        );
        self.current_state = GameState::Title;
        self.esc_was_pressed = false;
        self.host_commands.push(bgm_command(GameState::Title));
        proof {
            lemma_extends_push(h0, self.host_commands@.last());
            assert(self.host_commands@ =~= h0.push(self.host_commands@.last()));
        }
        let start = self.world.next_entity;
        spawn_button(&mut self.world, rect(300 * SUB, 430 * SUB, 200 * SUB, 50 * SUB), "Start Game", ButtonAction::StartGame);
        let ghost w1 = self.world;
        spawn_settings_buttons(&mut self.world, 300 * SUB);
        proof {
            assert(live_of_kinds(w1, start, button_kinds()));
            assert forall|j: int| 0 <= j < 8 implies #[trigger] live_of_kinds(self.world, (start + j) as u64, button_kinds()) by {
                if j >= 1 {
                    assert(live_of_kinds(self.world, (start + 1 + (j - 1)) as u64, button_kinds()));
                }
            }
        }
    }

    /// Empties the store and starts a run: the run's scalars are reset, the
    /// play count goes up by one and is persisted, and the player and eight
    /// obstacles are spawned.
    pub fn start_new_run(&mut self)
        requires
            old(self).wf(),
            old(self).has_room(9),
        ensures
            final(self).wf(),
            final(self).world.next_entity == old(self).world.next_entity + 9,
            final(self).current_state == GameState::InGame,
            final(self).hp == INITIAL_HP,
            final(self).survival_frames == 0,
            final(self).avoid_count == 0,
            final(self).score == 0,
            final(self).difficulty_level == 1,
            !final(self).result_is_clear,
            final(self).obstacle_spawn_accumulator == 0,
            !final(self).esc_was_pressed,
            final(self).save_data.settings == old(self).save_data.settings,
            final(self).save_data.progress == (SaveProgress {
                total_play_count: sat_u32(old(self).save_data.progress.total_play_count + 1),
                ..old(self).save_data.progress
            }),
            final(self).total_play_count == final(self).save_data.progress.total_play_count,
            extends(old(self).host_commands@, final(self).host_commands@),
            queued_since(old(self).host_commands@, final(self).host_commands@, HostCommand::PersistSave),
            AssetServer::keeps_history(old(self).asset_server, final(self).asset_server),
            all_of_kinds(final(self).world, old(self).world.next_entity, 1, player_kinds()),
            all_of_kinds(final(self).world, (old(self).world.next_entity + 1) as u64, 8, obstacle_kinds()),
            forall|k: u64, t: ComponentType|
                final(self).world.entities@.contains_key(k) && k < old(self).world.next_entity
                    ==> !#[trigger] final(self).world.kinds_of(Entity(k)).has(t),
    {
        clear_runtime_world(
            &mut self.world,
            &mut self.renderables,
            &mut self.text_commands,
            &mut self.asset_commands,
        );
        self.current_state = GameState::InGame;
        self.esc_was_pressed = false;
        self.host_commands.push(bgm_command(GameState::InGame));
        self.hp = INITIAL_HP;
        self.survival_frames = 0;
        self.avoid_count = 0;
        self.score = 0;
        self.difficulty_level = 1;
        self.result_is_clear = false;
        self.obstacle_spawn_accumulator = 0;
        self.save_data.progress.total_play_count = self.save_data.progress.total_play_count.saturating_add(1);
        self.total_play_count = self.save_data.progress.total_play_count;
        self.host_commands.push(HostCommand::PersistSave);
        let ghost persisted = self.host_commands@;
        let ghost assets_before = self.asset_server;
        self.player_texture_handle = self.asset_server.load_texture("assets/player.png");
        let ghost mid_assets = self.asset_server;
        self.obstacle_texture_handle = self.asset_server.load_texture("assets/test.png");
        proof {
            AssetServer::lemma_keeps_history_trans(assets_before, mid_assets, self.asset_server);
        }
        let ghost cleared = self.world;
        spawn_player(&mut self.world, self.player_texture_handle);
        proof {
            InternalWorld::lemma_spawn_grew(cleared, self.world, Entity(cleared.next_entity));
            assert(live_of_kinds(self.world, old(self).world.next_entity, player_kinds()));
            assert(all_of_kinds(self.world, old(self).world.next_entity, 1, player_kinds())) by {
                assert forall|j: int| 0 <= j < 1 implies #[trigger] live_of_kinds(self.world, (old(self).world.next_entity + j) as u64, player_kinds()) by {
                    assert(j == 0);
                }
            }
        }
        let ghost before_obstacles = self.world;
        spawn_obstacles(&mut self.world, self.obstacle_texture_handle, 8);
        proof {
            assert forall|j: int| 0 <= j < 1 implies #[trigger] live_of_kinds(self.world, (old(self).world.next_entity + j) as u64, player_kinds()) by {
                assert(live_of_kinds(before_obstacles, (old(self).world.next_entity + j) as u64, player_kinds()));
            }
            InternalWorld::lemma_grew_trans(cleared, before_obstacles, self.world);
            assert forall|k: u64, t: ComponentType|
                self.world.entities@.contains_key(k) && k < old(self).world.next_entity
                implies !#[trigger] self.world.kinds_of(Entity(k)).has(t) by {
                assert(cleared.entities@.contains_key(k));
                assert(!cleared.kinds_of(Entity(k)).has(t));
            }
        }
        self.host_commands.push(sound(effect_sound()));
        proof {
            let base = old(self).host_commands@.len() as int;
            assert(self.host_commands@[base + 1] == HostCommand::PersistSave);
            assert(self.host_commands@.subrange(0, base) =~= old(self).host_commands@);
        }
    }

    /// Replaces the menu buttons by the pause menu.
    fn setup_pause_menu(&mut self)
        requires
            old(self).wf(),
            old(self).has_room(9),
        ensures
            final(self).wf(),
            final(self).world.next_entity == old(self).world.next_entity + 9,
            final(self).asset_server == old(self).asset_server,
            final(self).current_state == old(self).current_state,
            final(self).same_run(*old(self)),
            final(self).esc_was_pressed == old(self).esc_was_pressed,
    {
        self.world.clear_entities_of_component(ComponentType::Button);
        spawn_button(&mut self.world, rect(300 * SUB, 340 * SUB, 200 * SUB, 50 * SUB), "Resume", ButtonAction::ResumeGame);
        spawn_button(&mut self.world, rect(300 * SUB, 270 * SUB, 200 * SUB, 50 * SUB), "Back To Title", ButtonAction::BackToTitle);
        spawn_settings_buttons(&mut self.world, 170 * SUB);
    }

    /// Replaces the menu buttons by the result menu.
    fn setup_result_menu(&mut self)
        requires
            old(self).wf(),
            old(self).has_room(2),
        ensures
            final(self).wf(),
            final(self).world.next_entity == old(self).world.next_entity + 2,
            final(self).asset_server == old(self).asset_server,
            final(self).current_state == old(self).current_state,
            final(self).same_run(*old(self)),
            final(self).host_commands@.len() == old(self).host_commands@.len() + 1,
            final(self).host_commands@.drop_last() == old(self).host_commands@,
            final(self).esc_was_pressed == old(self).esc_was_pressed,
    {
        self.world.clear_entities_of_component(ComponentType::Button);
        self.host_commands.push(bgm_command(self.current_state));
        spawn_button(&mut self.world, rect(300 * SUB, 250 * SUB, 200 * SUB, 50 * SUB), "Retry", ButtonAction::RetryGame);
        spawn_button(&mut self.world, rect(300 * SUB, 180 * SUB, 200 * SUB, 50 * SUB), "Back To Title", ButtonAction::BackToTitle);
    }

    /// Records the finished run in the progress and persists it.
    fn apply_result_to_progress_and_persist(&mut self)
        ensures
            final(self).save_data.progress == result_progress(
                old(self).save_data.progress,
                old(self).score,
                old(self).survival_frames,
                old(self).result_is_clear,
            ),
            final(self).save_data.settings == old(self).save_data.settings,
            final(self).host_commands@ == old(self).host_commands@.push(HostCommand::PersistSave),
            final(self).world == old(self).world,
            final(self).asset_server == old(self).asset_server,
            final(self).current_state == old(self).current_state,
            final(self).hp == old(self).hp,
            final(self).survival_frames == old(self).survival_frames,
            final(self).score == old(self).score,
            final(self).result_is_clear == old(self).result_is_clear,
            final(self).avoid_count == old(self).avoid_count,
            final(self).difficulty_level == old(self).difficulty_level,
            final(self).esc_was_pressed == old(self).esc_was_pressed,
            final(self).last_obstacle_step == old(self).last_obstacle_step,
    {
        self.save_data.progress = result_progress_exec(
            self.save_data.progress,
            self.score,
            self.survival_frames,
            self.result_is_clear,
        );
        self.host_commands.push(HostCommand::PersistSave);
    }

    /// Ends the run: records it, shows the result menu and plays the effect.
    fn finish_run(&mut self, clear: bool)
        requires
            old(self).wf(),
            old(self).has_room(2),
        ensures
            final(self).wf(),
            final(self).world.next_entity == old(self).world.next_entity + 2,
            final(self).current_state == GameState::Result,
            final(self).result_is_clear == clear,
            final(self).save_data.progress == result_progress(
                old(self).save_data.progress,
                old(self).score,
                old(self).survival_frames,
                clear,
            ),
            final(self).save_data.settings == old(self).save_data.settings,
            final(self).hp == old(self).hp,
            final(self).survival_frames == old(self).survival_frames,
            final(self).score == old(self).score,
            final(self).avoid_count == old(self).avoid_count,
            final(self).difficulty_level == old(self).difficulty_level,
            extends(old(self).host_commands@, final(self).host_commands@),
            queued_since(old(self).host_commands@, final(self).host_commands@, HostCommand::PersistSave),
            final(self).asset_server == old(self).asset_server,
            final(self).esc_was_pressed == old(self).esc_was_pressed,
            final(self).last_obstacle_step == old(self).last_obstacle_step,
    {
        self.result_is_clear = clear;
        self.apply_result_to_progress_and_persist();
        let ghost persisted = self.host_commands@;
        self.current_state = GameState::Result;
        self.setup_result_menu();
        self.host_commands.push(sound(effect_sound()));
        proof {
            let n = persisted.len() - 1;
            assert(persisted[n] == HostCommand::PersistSave);
            assert(self.host_commands@.drop_last().drop_last() == persisted);
            assert(self.host_commands@[n] == persisted[n]);
            assert forall|i: int| 0 <= i < old(self).host_commands@.len() implies self.host_commands@[i]
                == old(self).host_commands@[i] by {
                assert(self.host_commands@.drop_last()[i] == self.host_commands@[i]);
                assert(self.host_commands@.drop_last().drop_last()[i] == self.host_commands@.drop_last()[i]);
                assert(persisted[i] == old(self).host_commands@[i]);
            }
            assert(self.host_commands@.subrange(0, old(self).host_commands@.len() as int) =~= old(self).host_commands@);
        }
    }

    /// The line of text showing hit points, time, score and level.
    fn push_hud_text(&mut self)
        ensures
            final(self).text_commands@.len() == old(self).text_commands@.len() + 1,
            final(self).text_commands@.last().text@ == hud_text(
                old(self).hp,
                old(self).survival_frames,
                old(self).score,
                old(self).difficulty_level,
            ),
            final(self).world == old(self).world,
            final(self).asset_server == old(self).asset_server,
            final(self).current_state == old(self).current_state,
            final(self).same_run(*old(self)),
            final(self).host_commands == old(self).host_commands,
            final(self).esc_was_pressed == old(self).esc_was_pressed,
            final(self).input_state == old(self).input_state,
    {
        let mut t = String::from_str("HP:");
        t = concat(t, signed_decimal_string(self.hp as i64).as_str());
        t = concat(t, "  Time:");
        t = concat(t, decimal_string((self.survival_frames / 60) as u64).as_str());
        t = concat(t, ".");
        t = concat(t, decimal_string(((self.survival_frames % 60) / 6) as u64).as_str());
        t = concat(t, "s  Score:");
        t = concat(t, decimal_string(self.score as u64).as_str());
        t = concat(t, "  Lv:");
        t = concat(t, decimal_string(self.difficulty_level as u64).as_str());
        let c = label(t, 16, 570, 20, color(1000, 1000, 1000, 1000));
        self.text_commands.push(c);
    }

    /// The asset commands of this frame: every request not yet dispatched.
    pub fn process_asset_server(&mut self)
        requires
            old(self).wf(),
        ensures
            final(self).wf(),
            AssetServer::dispatched_batch(
                old(self).asset_server,
                final(self).asset_server,
                AssetServer::command_ids(final(self).asset_commands@),
            ),
            forall|k: int|
                0 <= k < final(self).asset_commands@.len() ==> exists|i: int|
                    0 <= i < old(self).asset_server.pending_requests@.len()
                        && old(self).asset_server.pending_requests@[i].request_id
                        == (#[trigger] final(self).asset_commands@[k]).request_id
                        && old(self).asset_server.pending_requests@[i].path@ == final(self).asset_commands@[k].path@
                        && old(self).asset_server.pending_requests@[i].command_type == final(self).asset_commands@[k].type_,
            AssetServer::keeps_history(old(self).asset_server, final(self).asset_server),
            final(self).world == old(self).world,
            final(self).current_state == old(self).current_state,
            final(self).same_run(*old(self)),
            final(self).host_commands == old(self).host_commands,
            final(self).esc_was_pressed == old(self).esc_was_pressed,
            final(self).input_state == old(self).input_state,
    {
        self.asset_commands = self.asset_server.process();
    }

    /// The drawables of this frame.
    pub fn build_renderables(&mut self)
        requires
            old(self).wf(),
        ensures
            final(self).renderables@ == crate::systems::drawables(
                old(self).world.archetypes@,
                old(self).asset_server,
                old(self).world.archetypes@.len() as int,
            ),
            final(self).world == old(self).world,
            final(self).asset_server == old(self).asset_server,
            final(self).current_state == old(self).current_state,
            final(self).same_run(*old(self)),
            final(self).host_commands == old(self).host_commands,
            final(self).esc_was_pressed == old(self).esc_was_pressed,
            final(self).input_state == old(self).input_state,
    {
        self.renderables = build_renderables(&self.world, &self.asset_server);
    }

    /// One fixed step of play. A fresh press of escape pauses. Otherwise the
    /// player moves, obstacles spawn on the interval of the level, fall and
    /// are recycled, and time, level and score advance; at zero hit points
    /// the run is lost, and at the win time it is cleared.
    pub fn update_in_game(&mut self)
        requires
            old(self).wf(),
            old(self).current_state == GameState::InGame,
            old(self).has_room(UPDATE_SPAWN_BUDGET as int),
        ensures
            final(self).wf(),
            final(self).world.next_entity <= old(self).world.next_entity + UPDATE_SPAWN_BUDGET,
            final(self).esc_was_pressed == old(self).input_state.esc_key,
            AssetServer::keeps_history(old(self).asset_server, final(self).asset_server),
            old(self).input_state.esc_key && !old(self).esc_was_pressed ==> {
                &&& final(self).current_state == GameState::Pause
                &&& final(self).same_run(*old(self))
            },
            !(old(self).input_state.esc_key && !old(self).esc_was_pressed) ==> {
                &&& final(self).survival_frames == sat_u32(old(self).survival_frames + 1)
                &&& final(self).difficulty_level == level_for(final(self).survival_frames)
                &&& final(self).hp == hp_after(old(self).hp, final(self).last_obstacle_step.hits)
                &&& final(self).avoid_count == sat_u32(old(self).avoid_count + final(self).last_obstacle_step.avoided)
                &&& final(self).score == score_for(final(self).survival_frames, final(self).avoid_count)
                &&& final(self).hp <= old(self).hp
                &&& extends(old(self).host_commands@, final(self).host_commands@)
                &&& final(self).last_obstacle_step.hits > 0 ==> effect_queued_since(old(self).host_commands@, final(self).host_commands@)
                &&& final(self).last_obstacle_step.hits == 0 && final(self).current_state == GameState::InGame
                    ==> final(self).host_commands == old(self).host_commands
                &&& exists|moved: InternalWorld, spawned: InternalWorld, bounds: Option<crate::systems::Bounds>, stepped: InternalWorld|
                    #[trigger] play_step(
                        old(self).world,
                        old(self).input_state,
                        obstacle_speed(old(self).difficulty_level),
                        moved,
                        spawned,
                        bounds,
                        stepped,
                        final(self).last_obstacle_step,
                    ) && (final(self).current_state == GameState::InGame ==> final(self).world == stepped)
                &&& (final(self).hp <= 0 || final(self).survival_frames >= WIN_FRAMES) ==> queued_since(
                    old(self).host_commands@,
                    final(self).host_commands@,
                    HostCommand::PersistSave,
                )
                &&& final(self).save_data.settings == old(self).save_data.settings
                &&& if final(self).hp <= 0 {
                    &&& final(self).current_state == GameState::Result
                    &&& !final(self).result_is_clear
                    &&& final(self).save_data.progress == result_progress(
                        old(self).save_data.progress,
                        final(self).score,
                        final(self).survival_frames,
                        false,
                    )
                } else if final(self).survival_frames >= WIN_FRAMES {
                    &&& final(self).current_state == GameState::Result
                    &&& final(self).result_is_clear
                    &&& final(self).save_data.progress == result_progress(
                        old(self).save_data.progress,
                        final(self).score,
                        final(self).survival_frames,
                        true,
                    )
                } else {
                    &&& final(self).current_state == GameState::InGame
                    &&& final(self).save_data == old(self).save_data
                    &&& final(self).text_commands@.last().text@ == hud_text(
                        final(self).hp,
                        final(self).survival_frames,
                        final(self).score,
                        final(self).difficulty_level,
                    )
                }
            },
    {
        self.text_commands.clear();
        let esc_just_pressed = self.input_state.esc_key && !self.esc_was_pressed;
        self.esc_was_pressed = self.input_state.esc_key;
        if esc_just_pressed {
            self.current_state = GameState::Pause;
            self.setup_pause_menu();
            proof {
                AssetServer::lemma_keeps_history_refl(self.asset_server, self.asset_server);
            }
            return;
        }
        let ghost start = *self;
        let bounds = move_players(&mut self.world, &self.input_state);
        let ghost moved = self.world;
        self.obstacle_spawn_accumulator = self.obstacle_spawn_accumulator.saturating_add(
            TICKS_PER_FRAME as u64,
        );
        let interval = spawn_interval_exec(self.difficulty_level);
        let ghost assets_before = self.asset_server;
        if self.obstacle_texture_handle == 0 {
            self.obstacle_texture_handle = self.asset_server.load_texture("assets/test.png");
        }
        proof {
            if self.asset_server == assets_before {
                AssetServer::lemma_keeps_history_refl(assets_before, self.asset_server);
            }
        }
        spawn_due_obstacles(
            &mut self.world,
            &mut self.obstacle_spawn_accumulator,
            interval,
            self.obstacle_texture_handle,
        );
        let speed = obstacle_speed_exec(self.difficulty_level);
        let ghost spawned = self.world;
        let step = advance_obstacles(&mut self.world, bounds, speed);
        let ghost stepped = self.world;
        proof {
            assert(play_step(old(self).world, old(self).input_state, obstacle_speed(old(self).difficulty_level),
                moved, spawned, bounds, stepped, step));
        }
        let remaining: i64 = self.hp as i64 - step.hits as i64;
        self.hp = if remaining < i32::MIN as i64 {
            i32::MIN
        } else {
            remaining as i32
        };
        self.avoid_count = self.avoid_count.saturating_add(step.avoided);
        self.last_obstacle_step = step;
        let ghost h0 = self.host_commands@;
        if step.hits > 0 {
            self.host_commands.push(sound(effect_sound()));
            proof {
                lemma_extends_push(h0, self.host_commands@.last());
                assert(self.host_commands@ =~= h0.push(self.host_commands@.last()));
                assert(self.host_commands@[h0.len() as int] == self.host_commands@.last());
            }
        } else {
            proof {
                assert(h0.subrange(0, h0.len() as int) =~= h0);
            }
        }
        let ghost h1 = self.host_commands@;
        self.survival_frames = self.survival_frames.saturating_add(1);
        proof {
            let f = self.survival_frames as int;
            assert(f / 3600 <= 1200000) by (nonlinear_arith)
                requires
                    0 <= f <= 4294967295,
            ;
        }
        self.difficulty_level = self.survival_frames / FRAMES_PER_LEVEL + 1;
        self.score = score_exec(self.survival_frames, self.avoid_count);
        if self.hp <= 0 {
            self.finish_run(false);
            proof {
                lemma_extends_trans(old(self).host_commands@, h1, self.host_commands@);
                lemma_effect_kept(old(self).host_commands@, h1, self.host_commands@);
            }
            return;
        }
        if self.survival_frames >= WIN_FRAMES {
            self.finish_run(true);
            proof {
                lemma_extends_trans(old(self).host_commands@, h1, self.host_commands@);
                lemma_effect_kept(old(self).host_commands@, h1, self.host_commands@);
            }
            return;
        }
        let ghost assets_mid = self.asset_server;
        self.process_asset_server();
        proof {
            AssetServer::lemma_keeps_history_trans(start.asset_server, assets_mid, self.asset_server);
        }
        self.build_renderables();
        self.push_hud_text();
    }

    /// Sets one volume to `current + delta`, clamped into range; when it
    /// changed, tells the host and persists.
    fn adjust_volume(&mut self, which: u8, delta: i32)
        requires
            old(self).wf(),
            -MAX_VOLUME <= delta <= MAX_VOLUME,
        ensures
            final(self).wf(),
            final(self).world == old(self).world,
            final(self).asset_server == old(self).asset_server,
            final(self).current_state == old(self).current_state,
            final(self).esc_was_pressed == old(self).esc_was_pressed,
            final(self).save_data.progress == old(self).save_data.progress,
            final(self).save_data.settings.fullscreen == old(self).save_data.settings.fullscreen,
            final(self).save_data.settings.master_volume == if which == 0 {
                adjusted_volume(old(self).save_data.settings.master_volume as int, delta as int)
            } else {
                old(self).save_data.settings.master_volume
            },
            final(self).save_data.settings.bgm_volume == if which == 1 {
                adjusted_volume(old(self).save_data.settings.bgm_volume as int, delta as int)
            } else {
                old(self).save_data.settings.bgm_volume
            },
            final(self).save_data.settings.se_volume == if which >= 2 {
                adjusted_volume(old(self).save_data.settings.se_volume as int, delta as int)
            } else {
                old(self).save_data.settings.se_volume
            },
            final(self).save_data == old(self).save_data ==> final(self).host_commands == old(self).host_commands,
            final(self).save_data != old(self).save_data ==> final(self).host_commands@ == old(self).host_commands@.push(
                HostCommand::SetAudioVolumes {
                    master: final(self).save_data.settings.master_volume,
                    bgm: final(self).save_data.settings.bgm_volume,
                    se: final(self).save_data.settings.se_volume,
                },
            ).push(HostCommand::PersistSave),
    {
        let current = if which == 0 {
            self.save_data.settings.master_volume
        } else if which == 1 {
            self.save_data.settings.bgm_volume
        } else {
            self.save_data.settings.se_volume
        };
        let next = clamp_volume_exec(current + delta);
        if next != current {
            if which == 0 {
                self.save_data.settings.master_volume = next;
            } else if which == 1 {
                self.save_data.settings.bgm_volume = next;
            } else {
                self.save_data.settings.se_volume = next;
            }
            self.host_commands.push(audio_command(&self.save_data.settings));
            self.host_commands.push(HostCommand::PersistSave);
        }
    }

    /// Flips fullscreen, tells the host and persists.
    fn toggle_fullscreen_setting(&mut self)
        requires
            old(self).wf(),
        ensures
            final(self).wf(),
            final(self).save_data.settings.fullscreen == !old(self).save_data.settings.fullscreen,
            final(self).save_data.settings.master_volume == old(self).save_data.settings.master_volume,
            final(self).save_data.settings.bgm_volume == old(self).save_data.settings.bgm_volume,
            final(self).save_data.settings.se_volume == old(self).save_data.settings.se_volume,
            final(self).save_data.progress == old(self).save_data.progress,
            final(self).world == old(self).world,
            final(self).asset_server == old(self).asset_server,
            final(self).esc_was_pressed == old(self).esc_was_pressed,
            final(self).current_state == old(self).current_state,
            final(self).host_commands@ == old(self).host_commands@.push(
                HostCommand::RequestFullscreen { enabled: final(self).save_data.settings.fullscreen },
            ).push(HostCommand::PersistSave),
    {
        self.save_data.settings.fullscreen = !self.save_data.settings.fullscreen;
        self.host_commands.push(
            HostCommand::RequestFullscreen { enabled: self.save_data.settings.fullscreen },
        );
        self.host_commands.push(HostCommand::PersistSave);
    }

    /// Carries out a clicked button's action.
    pub fn perform_action(&mut self, action: ButtonAction)
        requires
            old(self).wf(),
            old(self).has_room(9),
        ensures
            final(self).wf(),
            final(self).world.next_entity <= old(self).world.next_entity + 9,
            AssetServer::keeps_history(old(self).asset_server, final(self).asset_server),
            action_done(*old(self), *final(self), action),
            extends(old(self).host_commands@, final(self).host_commands@),
    {
        proof {
            AssetServer::lemma_keeps_history_refl(self.asset_server, self.asset_server);
        }
        let ghost h0 = self.host_commands@;
        match action {
            ButtonAction::StartGame | ButtonAction::RetryGame => {
                self.start_new_run();
            },
            ButtonAction::ResumeGame => {
                self.clear_menu_buttons();
                self.current_state = GameState::InGame;
                proof {
                    assert(h0.subrange(0, h0.len() as int) =~= h0);
                }
            },
            ButtonAction::BackToTitle => {
                self.setup_title_screen();
            },
            _ => {
                match action {
                    ButtonAction::MasterVolumeDown => self.adjust_volume(0, -SETTINGS_STEP),
                    ButtonAction::MasterVolumeUp => self.adjust_volume(0, SETTINGS_STEP),
                    ButtonAction::BgmVolumeDown => self.adjust_volume(1, -SETTINGS_STEP),
                    ButtonAction::BgmVolumeUp => self.adjust_volume(1, SETTINGS_STEP),
                    ButtonAction::SeVolumeDown => self.adjust_volume(2, -SETTINGS_STEP),
                    ButtonAction::SeVolumeUp => self.adjust_volume(2, SETTINGS_STEP),
                    _ => self.toggle_fullscreen_setting(),
                }
                proof {
                    if self.host_commands@ == h0 {
                        assert(h0.subrange(0, h0.len() as int) =~= h0);
                    } else {
                        let mid = self.host_commands@.drop_last();
                        lemma_extends_push(h0, mid.last());
                        assert(mid =~= h0.push(mid.last()));
                        lemma_extends_push(mid, self.host_commands@.last());
                        assert(self.host_commands@ =~= mid.push(self.host_commands@.last()));
                        lemma_extends_trans(h0, mid, self.host_commands@);
                    }
                }
            },
        }
    }

    /// Draws every button's label and carries out the action of the first
    /// button under a click, after the sound of the click.
    pub fn ui_system(&mut self)
        requires
            old(self).wf(),
            old(self).has_room(9),
        ensures
            final(self).wf(),
            final(self).world.next_entity <= old(self).world.next_entity + 9,
            AssetServer::keeps_history(old(self).asset_server, final(self).asset_server),
            extends(old(self).host_commands@, final(self).host_commands@),
            no_button_clicked(old(self).world, old(self).input_state) == (clicked_action(
                old(self).world,
                old(self).input_state,
            ) is None),
            clicked_action(old(self).world, old(self).input_state) is None ==> {
                &&& final(self).current_state == old(self).current_state
                &&& final(self).same_run(*old(self))
                &&& final(self).world == old(self).world
                &&& final(self).asset_server == old(self).asset_server
                &&& final(self).host_commands == old(self).host_commands
                &&& final(self).esc_was_pressed == old(self).esc_was_pressed
                &&& texts_of(final(self).text_commands@) == texts_of(old(self).text_commands@)
                    + button_texts(old(self).world.archetypes@, old(self).world.archetypes@.len() as int)
                &&& forall|k: int|
                    old(self).text_commands@.len() <= k < final(self).text_commands@.len()
                        ==> (#[trigger] final(self).text_commands@[k]).font_size == 24 * SUB
            },
            clicked_action(old(self).world, old(self).input_state) matches Some(action) ==> {
                &&& action_done(*old(self), *final(self), action)
                &&& old(self).host_commands@.len() < final(self).host_commands@.len()
                &&& final(self).host_commands@[old(self).host_commands@.len() as int] matches HostCommand::PlaySound { path }
                    && path@ == "assets/test_sound.wav"@
            },
    {
        let queued = hit_test(&self.world, self.input_state.mouse_pos, self.input_state.mouse_clicked);
        proof {
            if self.input_state.mouse_clicked && !no_button_clicked(self.world, self.input_state) {
                assert(queued is Some);
            }
        }
        let ghost before = *self;
        push_button_labels(&self.world, &mut self.text_commands);
        match queued {
            Some(action) => {
                let ghost h0 = self.host_commands@;
                self.host_commands.push(sound(effect_sound()));
                let ghost mid = *self;
                proof {
                    lemma_extends_push(h0, self.host_commands@.last());
                    assert(self.host_commands@ =~= h0.push(self.host_commands@.last()));
                }
                self.perform_action(action);
                proof {
                    lemma_extends_trans(h0, mid.host_commands@, self.host_commands@);
                    assert(self.host_commands@.subrange(0, mid.host_commands@.len() as int)[h0.len() as int]
                        == self.host_commands@[h0.len() as int]);
                    if action == ButtonAction::StartGame || action == ButtonAction::RetryGame {
                        let k = choose|k: int| mid.host_commands@.len() <= k < self.host_commands@.len()
                            && self.host_commands@[k] == HostCommand::PersistSave;
                        assert(before.host_commands@.len() <= k);
                    }
                }
            },
            None => {
                proof {
                    AssetServer::lemma_keeps_history_refl(self.asset_server, self.asset_server);
                    assert(self.host_commands@.subrange(0, self.host_commands@.len() as int) =~= self.host_commands@);
                }
            },
        }
    }

    /// The title screen: its lines, the settings and the buttons.
    pub fn update_main_menu(&mut self)
        requires
            old(self).wf(),
            old(self).has_room(9),
        ensures
            final(self).wf(),
            final(self).world.next_entity <= old(self).world.next_entity + 9,
            AssetServer::keeps_history(old(self).asset_server, final(self).asset_server),
            no_button_clicked(old(self).world, old(self).input_state) ==> {
                &&& final(self).current_state == old(self).current_state
                &&& final(self).same_run(*old(self))
                &&& texts_of(final(self).text_commands@) == title_texts(old(self).save_data.settings)
                    + button_texts(old(self).world.archetypes@, old(self).world.archetypes@.len() as int)
            },
            clicked_action(old(self).world, old(self).input_state) matches Some(action) ==> action_done(
                *old(self),
                *final(self),
                action,
            ),
    {
        self.text_commands.clear();
        self.renderables.clear();
        proof {
            assert(texts_of(self.text_commands@) =~= Seq::empty());
        }
        push_label(&mut self.text_commands, "MIYABI Box Survival", 255, 520, 36, color(950, 950, 950, 1000));
        push_label(&mut self.text_commands, "Arrow Keys: Move / ESC: Pause", 235, 480, 20, color(800, 800, 800, 1000));
        push_label(&mut self.text_commands, "U: Reimport Textures", 290, 450, 18, color(700, 950, 950, 1000));
        push_label(&mut self.text_commands, "Settings (auto-saved)", 285, 360, 22, color(800, 900, 1000, 1000));
        push_settings_text(&self.save_data.settings, 300, &mut self.text_commands);
        proof {
            assert(texts_of(self.text_commands@) =~= title_texts(self.save_data.settings));
        }
        self.ui_system();
    }

    /// The pause screen; a fresh press of escape resumes the run.
    pub fn update_pause(&mut self)
        requires
            old(self).wf(),
            old(self).has_room(9),
        ensures
            final(self).wf(),
            final(self).world.next_entity <= old(self).world.next_entity + 9,
            AssetServer::keeps_history(old(self).asset_server, final(self).asset_server),
            old(self).input_state.esc_key && !old(self).esc_was_pressed ==> final(self).current_state
                == GameState::InGame && final(self).same_run(*old(self)),
            !(old(self).input_state.esc_key && !old(self).esc_was_pressed) && no_button_clicked(
                old(self).world,
                old(self).input_state,
            ) ==> {
                &&& final(self).current_state == old(self).current_state
                &&& final(self).same_run(*old(self))
                &&& texts_of(final(self).text_commands@) == pause_texts(old(self).save_data.settings)
                    + button_texts(old(self).world.archetypes@, old(self).world.archetypes@.len() as int)
                &&& final(self).esc_was_pressed == old(self).input_state.esc_key
            },
            old(self).input_state.esc_key && !old(self).esc_was_pressed ==> final(self).esc_was_pressed,
            !(old(self).input_state.esc_key && !old(self).esc_was_pressed) ==> (clicked_action(
                old(self).world,
                old(self).input_state,
            ) matches Some(action) ==> action_done(*old(self), *final(self), action)),
    {
        self.text_commands.clear();
        proof {
            assert(texts_of(self.text_commands@) =~= Seq::empty());
        }
        push_label(&mut self.text_commands, "PAUSED", 340, 420, 36, color(1000, 950, 200, 1000));
        push_label(&mut self.text_commands, "U: Reimport Textures", 290, 390, 18, color(700, 950, 950, 1000));
        push_label(&mut self.text_commands, "Settings (auto-saved)", 285, 230, 20, color(800, 900, 1000, 1000));
        push_settings_text(&self.save_data.settings, 170, &mut self.text_commands);
        proof {
            assert(texts_of(self.text_commands@) =~= pause_texts(self.save_data.settings));
        }
        let esc_just_pressed = self.input_state.esc_key && !self.esc_was_pressed;
        self.esc_was_pressed = self.input_state.esc_key;
        if esc_just_pressed {
            self.clear_menu_buttons();
            self.current_state = GameState::InGame;
            proof {
                AssetServer::lemma_keeps_history_refl(self.asset_server, self.asset_server);
            }
            return;
        }
        self.ui_system();
    }

    /// The result screen: the outcome, the run's figures and the records.
    pub fn update_result(&mut self)
        requires
            old(self).wf(),
            old(self).has_room(9),
        ensures
            final(self).wf(),
            final(self).world.next_entity <= old(self).world.next_entity + 9,
            AssetServer::keeps_history(old(self).asset_server, final(self).asset_server),
            no_button_clicked(old(self).world, old(self).input_state) ==> {
                &&& final(self).current_state == old(self).current_state
                &&& final(self).same_run(*old(self))
                &&& texts_of(final(self).text_commands@) == result_texts(
                    old(self).result_is_clear,
                    old(self).score,
                    old(self).survival_frames,
                    old(self).save_data.progress,
                ) + button_texts(old(self).world.archetypes@, old(self).world.archetypes@.len() as int)
            },
            clicked_action(old(self).world, old(self).input_state) matches Some(action) ==> action_done(
                *old(self),
                *final(self),
                action,
            ),
    {
        self.text_commands.clear();
        self.renderables.clear();
        proof {
            assert(texts_of(self.text_commands@) =~= Seq::empty());
        }
        let headline = if self.result_is_clear {
            "CLEAR"
        } else {
            "GAME OVER"
        };
        push_label(&mut self.text_commands, headline, 300, 440, 42, color(1000, 900, 200, 1000));
        let score = concat(String::from_str("Score: "), decimal_string(self.score as u64).as_str());
        push_text(&mut self.text_commands, label(score, 300, 390, 26, color(950, 950, 950, 1000)));
        let mut survival = concat(String::from_str("Survival: "), decimal_string((self.survival_frames / 60) as u64).as_str());
        survival = concat(survival, ".");
        survival = concat(survival, decimal_string(((self.survival_frames % 60) / 6) as u64).as_str());
        survival = concat(survival, " sec");
        push_text(&mut self.text_commands, label(survival, 300, 360, 22, color(850, 850, 850, 1000)));
        let best = concat(String::from_str("High Score: "), decimal_string(self.save_data.progress.best_score as u64).as_str());
        push_text(&mut self.text_commands, label(best, 300, 330, 20, color(800, 950, 800, 1000)));
        let mut best_survival = concat(String::from_str("Best Survival: "), decimal_string(self.save_data.progress.best_survival_sec as u64).as_str());
        best_survival = concat(best_survival, " sec");
        push_text(&mut self.text_commands, label(best_survival, 300, 305, 20, color(800, 850, 950, 1000)));
        let mut counts = concat(String::from_str("Play:"), decimal_string(self.save_data.progress.total_play_count as u64).as_str());
        counts = concat(counts, "  Clear:");
        counts = concat(counts, decimal_string(self.save_data.progress.total_clear_count as u64).as_str());
        push_text(&mut self.text_commands, label(counts, 300, 280, 18, color(750, 750, 750, 1000)));
        proof {
            assert(texts_of(self.text_commands@) =~= result_texts(
                self.result_is_clear,
                self.score,
                self.survival_frames,
                self.save_data.progress,
            ));
        }
        self.ui_system();
    }

    /// On a fresh press of the reimport key, queues a reload of every texture.
    fn handle_reimport_shortcut(&mut self)
        requires
            old(self).wf(),
        ensures
            final(self).wf(),
            AssetServer::keeps_history(old(self).asset_server, final(self).asset_server),
            final(self).u_was_pressed == old(self).input_state.u_key,
            final(self).world == old(self).world,
            final(self).current_state == old(self).current_state,
            final(self).same_run(*old(self)),
            final(self).esc_was_pressed == old(self).esc_was_pressed,
            final(self).input_state == old(self).input_state,
            final(self).text_commands == old(self).text_commands,
            final(self).host_commands == old(self).host_commands,
            old(self).input_state.u_key && !old(self).u_was_pressed ==> final(self).asset_server.textures@ == old(self).asset_server.textures@,
            !(old(self).input_state.u_key && !old(self).u_was_pressed) ==> final(self).asset_server
                == old(self).asset_server,
    {
        let just_pressed = self.input_state.u_key && !self.u_was_pressed;
        self.u_was_pressed = self.input_state.u_key;
        if just_pressed {
            self.asset_server.reimport_all_textures();
        } else {
            proof {
                AssetServer::lemma_keeps_history_refl(self.asset_server, self.asset_server);
            }
        }
    }

    /// The host finished loading request `request_id` as `asset_id`: only the
    /// texture registered under that request's path is resolved.
    pub fn notify_asset_loaded(&mut self, request_id: u32, asset_id: u32) -> (handle: Option<u32>)
        requires
            old(self).wf(),
        ensures
            final(self).wf(),
            AssetServer::keeps_history(old(self).asset_server, final(self).asset_server),
            forall|j: int|
                0 <= j < old(self).asset_server.textures@.len() ==> {
                    let before = #[trigger] old(self).asset_server.textures@[j];
                    let after = final(self).asset_server.textures@[j];
                    &&& after.path@ == before.path@
                    &&& after.handle == before.handle
                    &&& after.resolved_id == if handle == Some(before.handle) {
                        Some(asset_id)
                    } else {
                        before.resolved_id
                    }
                },
            final(self).world == old(self).world,
            final(self).current_state == old(self).current_state,
            final(self).same_run(*old(self)),
            handle is Some == exists|i: int|
                0 <= i < old(self).asset_server.pending_requests@.len()
                    && #[trigger] old(self).asset_server.pending_requests@[i].request_id == request_id,
            handle is None ==> *final(self) == *old(self),
            handle is Some ==> exists|i: int|
                0 <= i < old(self).asset_server.pending_requests@.len()
                    && #[trigger] old(self).asset_server.pending_requests@[i].request_id == request_id && {
                    let p = old(self).asset_server.pending_requests@[i].path@;
                    &&& final(self).asset_server.pending_requests@ == old(self).asset_server.pending_requests@.remove(i)
                    &&& old(self).asset_server.has_path(p)
                    &&& handle->0 == old(self).asset_server.handle_of(p)
                },
    {
        self.asset_server.complete_request(request_id, asset_id)
    }

    /// Enters the sprite stress test: menus and physics mirrors go, and
    /// `sprite_count` small sprites appear at random places.
    pub fn enter_sprite_stress_test(&mut self, sprite_count: u32)
        requires
            old(self).wf(),
            old(self).has_room(sprite_count as int),
        ensures
            final(self).wf(),
            final(self).current_state == GameState::SpriteStressTest,
            final(self).world.next_entity == old(self).world.next_entity + sprite_count,
            AssetServer::keeps_history(old(self).asset_server, final(self).asset_server),
            exists|m1: InternalWorld, m2: InternalWorld|
                InternalWorld::cleared_of(old(self).world, m1, ComponentType::Button)
                    && #[trigger] InternalWorld::cleared_of(m1, m2, ComponentType::Physics)
                    && m2.wf() && m2.next_entity == old(self).world.next_entity
                    && forall|id: u64, k: ComponentTypeSet| #[trigger] live_of_kinds(m2, id, k) ==> live_of_kinds(final(self).world, id, k),
            forall|j: int| 0 <= j < sprite_count ==> #[trigger] sprite_shape(final(self).world, (old(self).world.next_entity + j) as u64),
            forall|k: u64| #[trigger] final(self).world.entities@.contains_key(k) ==> !final(self).world.kinds_of(Entity(k)).has(ComponentType::Button)
                && !final(self).world.kinds_of(Entity(k)).has(ComponentType::Physics),
    {
        self.world.clear_entities_of_component(ComponentType::Button);
        let ghost m1 = self.world;
        self.world.clear_entities_of_component(ComponentType::Physics);
        let ghost m2 = self.world;
        let texture = self.asset_server.load_texture("assets/player.png");
        spawn_stress_sprites(&mut self.world, sprite_count, texture);
        proof {
            assert forall|j: int| 0 <= j < sprite_count implies #[trigger] sprite_shape(self.world, (old(self).world.next_entity + j) as u64) by {
                assert(stress_sprite(self.world, (old(self).world.next_entity + j) as u64, texture));
            }
            InternalWorld::lemma_cleared_keeps_kinds(old(self).world, m1, ComponentType::Button);
            InternalWorld::lemma_cleared_keeps_kinds(m1, m2, ComponentType::Physics);
            lemma_stress_kinds_exclude();
            assert forall|k: u64| #[trigger] self.world.entities@.contains_key(k) implies !self.world.kinds_of(Entity(k)).has(ComponentType::Button)
                && !self.world.kinds_of(Entity(k)).has(ComponentType::Physics) by {
                if k >= m2.next_entity {
                    let j = k - m2.next_entity;
                    assert(sprite_shape(self.world, (old(self).world.next_entity + j) as u64));
                } else {
                    assert(m2.entities@.contains_key(k));
                    assert(m1.entities@.contains_key(k));
                }
            }
        }
        self.current_state = GameState::SpriteStressTest;
        self.host_commands.push(bgm_command(GameState::SpriteStressTest));
        proof {
            assert(m2.wf());
            assert(InternalWorld::cleared_of(m1, m2, ComponentType::Physics));
        }
    }

    /// Enters the physics stress test: menus and sprites go, and one mirror
    /// appears for each body the host created from `physics_stress_layout`.
    pub fn enter_physics_stress_test(&mut self, layout: &Vec<PhysicsBodySpec>, body_ids: &Vec<u64>)
        requires
            old(self).wf(),
            layout@.len() == body_ids@.len(),
            old(self).has_room(layout@.len() as int),
        ensures
            final(self).wf(),
            final(self).current_state == GameState::PhysicsStressTest,
            final(self).world.next_entity == old(self).world.next_entity + layout@.len(),
            AssetServer::keeps_history(old(self).asset_server, final(self).asset_server),
            exists|m1: InternalWorld, m2: InternalWorld|
                InternalWorld::cleared_of(old(self).world, m1, ComponentType::Button)
                    && #[trigger] InternalWorld::cleared_of(m1, m2, ComponentType::Sprite)
                    && m2.wf() && m2.next_entity == old(self).world.next_entity
                    && forall|id: u64, k: ComponentTypeSet| #[trigger] live_of_kinds(m2, id, k) ==> live_of_kinds(final(self).world, id, k),
            forall|j: int|
                0 <= j < layout@.len() ==> #[trigger] mirror_of(
                    final(self).world,
                    (old(self).world.next_entity + j) as u64,
                    layout@[j].transform,
                    body_ids@[j],
                ),
            forall|k: u64| #[trigger] final(self).world.entities@.contains_key(k) ==> !final(self).world.kinds_of(Entity(k)).has(ComponentType::Button)
                && !final(self).world.kinds_of(Entity(k)).has(ComponentType::Sprite),
    {
        self.world.clear_entities_of_component(ComponentType::Button);
        let ghost m1 = self.world;
        self.world.clear_entities_of_component(ComponentType::Sprite);
        let ghost m2 = self.world;
        let ghost assets_before = self.asset_server;
        let ground_texture = self.asset_server.load_texture("assets/test.png");
        let ghost assets_mid = self.asset_server;
        let box_texture = self.asset_server.load_texture("assets/player.png");
        proof {
            AssetServer::lemma_keeps_history_trans(assets_before, assets_mid, self.asset_server);
        }
        spawn_mirrors(&mut self.world, layout, body_ids, ground_texture, box_texture);
        self.current_state = GameState::PhysicsStressTest;
        self.host_commands.push(bgm_command(GameState::PhysicsStressTest));
        proof {
            assert(m2.wf());
            assert(InternalWorld::cleared_of(m1, m2, ComponentType::Sprite));
            InternalWorld::lemma_cleared_keeps_kinds(old(self).world, m1, ComponentType::Button);
            InternalWorld::lemma_cleared_keeps_kinds(m1, m2, ComponentType::Sprite);
            lemma_stress_kinds_exclude();
            assert forall|k: u64| #[trigger] self.world.entities@.contains_key(k) implies !self.world.kinds_of(Entity(k)).has(ComponentType::Button)
                && !self.world.kinds_of(Entity(k)).has(ComponentType::Sprite) by {
                if k >= m2.next_entity {
                    let j = k - m2.next_entity;
                    assert(mirror_of(self.world, (old(self).world.next_entity + j) as u64, layout@[j].transform, body_ids@[j]));
                } else {
                    assert(m2.entities@.contains_key(k));
                    assert(m1.entities@.contains_key(k));
                }
            }
        }
    }

    /// Enters the text stress test: menus, sprites and physics mirrors go.
    pub fn enter_ui_stress_test(&mut self)
        requires
            old(self).wf(),
        ensures
            final(self).wf(),
            final(self).current_state == GameState::UIStressTest,
            final(self).world.next_entity == old(self).world.next_entity,
            final(self).asset_server == old(self).asset_server,
            exists|m1: InternalWorld, m2: InternalWorld|
                InternalWorld::cleared_of(old(self).world, m1, ComponentType::Button)
                    && #[trigger] InternalWorld::cleared_of(m1, m2, ComponentType::Sprite)
                    && InternalWorld::cleared_of(m2, final(self).world, ComponentType::Physics),
    {
        self.world.clear_entities_of_component(ComponentType::Button);
        let ghost m1 = self.world;
        self.world.clear_entities_of_component(ComponentType::Sprite);
        let ghost m2 = self.world;
        self.world.clear_entities_of_component(ComponentType::Physics);
        assert(InternalWorld::cleared_of(m1, m2, ComponentType::Sprite));
        self.current_state = GameState::UIStressTest;
        self.host_commands.push(bgm_command(GameState::UIStressTest));
    }

    /// Leaves a stress test for the title screen: the store is emptied and
    /// the title menu built.
    pub fn exit_stress_test(&mut self)
        requires
            old(self).wf(),
            old(self).has_room(8),
            old(self).current_state == GameState::SpriteStressTest || old(self).current_state
                == GameState::PhysicsStressTest || old(self).current_state == GameState::UIStressTest,
        ensures
            final(self).wf(),
            final(self).current_state == GameState::Title,
            final(self).same_run(*old(self)),
            final(self).world.next_entity == old(self).world.next_entity + 8,
            all_of_kinds(final(self).world, old(self).world.next_entity, 8, button_kinds()),
            final(self).asset_server == old(self).asset_server,
    {
        self.setup_title_screen();
    }

    /// A frame of the physics stress test: the reimport shortcut runs, the
    /// collision pairs and body positions (in millimetres, in the order of
    /// `physics_body_ids`) the host polled are mirrored, the batches are
    /// rebuilt, and the periodic texture reference check runs.
    pub fn update_physics_stress_test(&mut self, events: Vec<CollisionEvent>, positions: &Vec<Vec2>)
        requires
            old(self).wf(),
        ensures
            final(self).wf(),
            final(self).collision_events@ == events@,
            final(self).world.next_entity == old(self).world.next_entity,
            final(self).world.archetypes@.len() == old(self).world.archetypes@.len(),
            forall|a: int|
                0 <= a < old(self).world.archetypes@.len() ==> mirrors_synced(
                    #[trigger] old(self).world.archetypes@[a],
                    final(self).world.archetypes@[a],
                    mirror_offset(old(self).world.archetypes@, a),
                    positions@,
                ),
            AssetServer::keeps_history(old(self).asset_server, final(self).asset_server),
    {
        self.handle_reimport_shortcut();
        let ghost a0 = self.asset_server;
        self.text_commands.clear();
        sync_physics_to_render(&mut self.world, positions);
        self.process_asset_server();
        self.build_renderables();
        self.collision_events = events;
        let ghost a1 = self.asset_server;
        run_asset_integrity_check(&self.world, &mut self.asset_server, &mut self.integrity);
        proof {
            AssetServer::lemma_keeps_history_trans(old(self).asset_server, a0, a1);
            AssetServer::lemma_keeps_history_trans(old(self).asset_server, a1, self.asset_server);
        }
    }

    /// Runs one frame: the reimport shortcut, then the handler of the
    /// current state, then the periodic texture reference check.
    pub fn update(&mut self)
        requires
            old(self).wf(),
            old(self).has_room(UPDATE_SPAWN_BUDGET as int),
        ensures
            final(self).wf(),
            final(self).world.next_entity <= old(self).world.next_entity + UPDATE_SPAWN_BUDGET,
            AssetServer::keeps_history(old(self).asset_server, final(self).asset_server),
            old(self).current_state == GameState::InGame && !(old(self).input_state.esc_key
                && !old(self).esc_was_pressed) ==> {
                &&& final(self).survival_frames == sat_u32(old(self).survival_frames + 1)
                &&& final(self).hp <= old(self).hp
                &&& final(self).hp == hp_after(old(self).hp, final(self).last_obstacle_step.hits)
                &&& final(self).avoid_count == sat_u32(old(self).avoid_count + final(self).last_obstacle_step.avoided)
                &&& final(self).last_obstacle_step.hits > 0 ==> effect_queued_since(old(self).host_commands@, final(self).host_commands@)
                &&& final(self).last_obstacle_step.hits == 0 && final(self).current_state == GameState::InGame
                    ==> final(self).host_commands == old(self).host_commands
                &&& exists|moved: InternalWorld, spawned: InternalWorld, bounds: Option<crate::systems::Bounds>, stepped: InternalWorld|
                    #[trigger] play_step(
                        old(self).world,
                        old(self).input_state,
                        obstacle_speed(old(self).difficulty_level),
                        moved,
                        spawned,
                        bounds,
                        stepped,
                        final(self).last_obstacle_step,
                    ) && (final(self).current_state == GameState::InGame ==> final(self).world == stepped)
                &&& (final(self).hp <= 0 || final(self).survival_frames >= WIN_FRAMES) ==> queued_since(
                    old(self).host_commands@,
                    final(self).host_commands@,
                    HostCommand::PersistSave,
                )
                &&& final(self).score == score_for(final(self).survival_frames, final(self).avoid_count)
                &&& final(self).hp <= 0 ==> {
                    &&& final(self).current_state == GameState::Result
                    &&& !final(self).result_is_clear
                    &&& final(self).save_data.progress == result_progress(
                        old(self).save_data.progress,
                        final(self).score,
                        final(self).survival_frames,
                        false,
                    )
                }
                &&& final(self).hp > 0 && final(self).survival_frames >= WIN_FRAMES ==> {
                    &&& final(self).current_state == GameState::Result
                    &&& final(self).result_is_clear
                    &&& final(self).save_data.progress == result_progress(
                        old(self).save_data.progress,
                        final(self).score,
                        final(self).survival_frames,
                        true,
                    )
                }
                &&& final(self).hp > 0 && final(self).survival_frames < WIN_FRAMES ==> final(self).current_state == GameState::InGame
            },
            old(self).current_state == GameState::InGame && old(self).input_state.esc_key
                && !old(self).esc_was_pressed ==> final(self).current_state == GameState::Pause,
            old(self).current_state == GameState::InGame ==> final(self).esc_was_pressed == old(
                self).input_state.esc_key,
            old(self).current_state == GameState::Pause && old(self).input_state.esc_key
                && !old(self).esc_was_pressed ==> final(self).current_state == GameState::InGame
                && final(self).same_run(*old(self)) && final(self).esc_was_pressed,
            old(self).current_state == GameState::Pause && !(old(self).input_state.esc_key
                && !old(self).esc_was_pressed) && no_button_clicked(old(self).world, old(self).input_state)
                ==> final(self).current_state == GameState::Pause && final(self).same_run(*old(self))
                && final(self).esc_was_pressed == old(self).input_state.esc_key,
            old(self).current_state == GameState::Pause && !(old(self).input_state.esc_key
                && !old(self).esc_was_pressed) ==> (clicked_action(old(self).world, old(self).input_state) matches Some(
                action,
            ) ==> action_done(*old(self), *final(self), action)),
            (old(self).current_state == GameState::Title || old(self).current_state
                == GameState::Result) ==> (clicked_action(old(self).world, old(self).input_state) matches Some(
                action,
            ) ==> action_done(*old(self), *final(self), action)),
            (old(self).current_state == GameState::Title || old(self).current_state
                == GameState::Result) && no_button_clicked(old(self).world, old(self).input_state)
                ==> final(self).current_state == old(self).current_state && final(self).same_run(
                *old(self)),
            (old(self).current_state == GameState::SpriteStressTest || old(self).current_state
                == GameState::PhysicsStressTest) ==> final(self).current_state == old(self).current_state
                && final(self).world == old(self).world && final(self).text_commands@.len() == 0
                && final(self).renderables@ == crate::systems::drawables(
                final(self).world.archetypes@,
                final(self).asset_server,
                final(self).world.archetypes@.len() as int,
            ),
            old(self).current_state == GameState::UIStressTest ==> final(self).current_state
                == GameState::UIStressTest && final(self).text_commands@.len() == 1200 && forall|k: int|
                0 <= k < 1200 ==> (#[trigger] final(self).text_commands@[k]).text@ == seq!['T'] + decimal(
                (k + 1) as nat,
            ),
            old(self).current_state == GameState::Title && no_button_clicked(old(self).world, old(self).input_state)
                ==> texts_of(final(self).text_commands@) == title_texts(old(self).save_data.settings)
                + button_texts(old(self).world.archetypes@, old(self).world.archetypes@.len() as int),
            old(self).current_state == GameState::Result && no_button_clicked(old(self).world, old(self).input_state)
                ==> texts_of(final(self).text_commands@) == result_texts(
                old(self).result_is_clear,
                old(self).score,
                old(self).survival_frames,
                old(self).save_data.progress,
            ) + button_texts(old(self).world.archetypes@, old(self).world.archetypes@.len() as int),
            old(self).current_state == GameState::Pause && !(old(self).input_state.esc_key
                && !old(self).esc_was_pressed) && no_button_clicked(old(self).world, old(self).input_state)
                ==> texts_of(final(self).text_commands@) == pause_texts(old(self).save_data.settings)
                + button_texts(old(self).world.archetypes@, old(self).world.archetypes@.len() as int),
    {
        self.handle_reimport_shortcut();
        let ghost assets_after_shortcut = self.asset_server;
        let ghost g1 = *self;
        match self.current_state {
            GameState::Title => self.update_main_menu(),
            GameState::InGame => self.update_in_game(),
            GameState::Pause => self.update_pause(),
            GameState::Result => self.update_result(),
            GameState::SpriteStressTest => {
                self.process_asset_server();
                self.build_renderables();
                self.text_commands.clear();
            },
            GameState::PhysicsStressTest => {
                self.process_asset_server();
                self.build_renderables();
                self.text_commands.clear();
            },
            GameState::UIStressTest => {
                self.text_commands.clear();
                let ghost cleared = self.text_commands@;
                ui_stress_labels(&mut self.text_commands);
                proof {
                    AssetServer::lemma_keeps_history_refl(self.asset_server, self.asset_server);
                    assert(cleared.len() == 0);
                    assert forall|k: int| 0 <= k < 1200 implies (#[trigger] self.text_commands@[k]).text@
                        == seq!['T'] + decimal((k + 1) as nat) by {
                        assert(self.text_commands@[cleared.len() + k].text@ == seq!['T'] + decimal((k + 1) as nat));
                    }
                }
            },
        }
        let ghost assets_after_state = self.asset_server;
        run_asset_integrity_check(&self.world, &mut self.asset_server, &mut self.integrity);
        proof {
            crate::systems::lemma_drawables_same_textures(
                self.world.archetypes@,
                assets_after_state,
                self.asset_server,
                self.world.archetypes@.len() as int,
            );
            if g1.current_state == GameState::InGame && !(g1.input_state.esc_key && !g1.esc_was_pressed) {
                let (m, sp, b, st) = choose|moved: InternalWorld, spawned: InternalWorld, bounds: Option<crate::systems::Bounds>, stepped: InternalWorld|
                    #[trigger] play_step(g1.world, g1.input_state, obstacle_speed(g1.difficulty_level), moved, spawned, bounds, stepped, self.last_obstacle_step)
                    && (self.current_state == GameState::InGame ==> self.world == stepped);
                assert(play_step(old(self).world, old(self).input_state, obstacle_speed(old(self).difficulty_level), m, sp, b, st, self.last_obstacle_step));
            }
            AssetServer::lemma_keeps_history_trans(old(self).asset_server, assets_after_shortcut, assets_after_state);
            AssetServer::lemma_keeps_history_trans(old(self).asset_server, assets_after_state, self.asset_server);
        }
    }
}

} // verus!
