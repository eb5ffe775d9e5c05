use vstd::prelude::*;
use vstd::string::StringExecFns;

use std::collections::HashMap;

use crate::components::{ComponentType, ComponentTypeSet, Material, Sprite, Transform};
use crate::ecs::{Archetype, InternalWorld};
use crate::game::{color, TextCommand};
use crate::geometry::Vec2;
use crate::systems::{RenderableObject, is_drawable_kind};
use crate::text::{concat, decimal, decimal_string};
use crate::world_setup::{transform_at, SUB};

verus! {

broadcast use vstd::std_specs::hash::group_hash_axioms;

/// Sizes and repetitions of the performance baseline.
#[derive(Debug, Clone, Copy, PartialEq, Eq, Structural)]
pub struct PerfConfig {
    pub warmup_iterations: u32,
    pub iterations: u32,
    pub sprite_count: usize,
    pub ui_items_per_row: usize,
    pub ui_items_per_col: usize,
    pub scene_entity_count: usize,
}

impl Default for PerfConfig {
    fn default() -> (r: PerfConfig)
        ensures
            r == (PerfConfig {
                warmup_iterations: 5,
                iterations: 30,
                sprite_count: 10_000,
                ui_items_per_row: 30,
                ui_items_per_col: 40,
                scene_entity_count: 5_000,
            }),
    {
        PerfConfig {
            warmup_iterations: 5,
            iterations: 30,
            sprite_count: 10_000,
            ui_items_per_row: 30,
            ui_items_per_col: 40,
            scene_entity_count: 5_000,
        }
    }
}

fn clamp_i32(v: i64) -> (r: i32)
    ensures
        i32::MIN <= v <= i32::MAX ==> r == v,
{
    if v < i32::MIN as i64 {
        i32::MIN
    } else if v > i32::MAX as i64 {
        i32::MAX
    } else {
        v as i32
    }
}

/// A store of `count` sprites in a grid of two hundred per row, `step`
/// pixels apart, all drawn with texture handle 1.
fn sprite_grid(count: usize, per_row: usize, step: i32) -> (world: InternalWorld)
    requires
        count <= u64::MAX,
        per_row > 0,
        0 < step <= 100,
    ensures
        world.wf(),
        world.next_entity == count,
        world.archetype_sets() == if count == 0 {
            Seq::<ComponentTypeSet>::empty()
        } else {
            seq![ComponentTypeSet::spec_of(seq![ComponentType::Transform, ComponentType::Material, ComponentType::Sprite])]
        },
{
    let mut world = InternalWorld::new();
    let mut i: usize = 0;
    proof {
        assert(world.archetype_sets() =~= Seq::<ComponentTypeSet>::empty());
    }
    while i < count
        invariant
            i <= count,
            count <= u64::MAX,
            per_row > 0,
            0 < step <= 100,
            world.wf(),
            world.next_entity == i,
            world.archetype_sets() == if i == 0 {
                Seq::<ComponentTypeSet>::empty()
            } else {
                seq![ComponentTypeSet::spec_of(seq![ComponentType::Transform, ComponentType::Material, ComponentType::Sprite])]
            },
        decreases count - i,
    {
        let column: i64 = if i % per_row > 100_000 {
            100_000
        } else {
            (i % per_row) as i64
        };
        let row: i64 = if i / per_row > 100_000 {
            100_000
        } else {
            (i / per_row) as i64
        };
        let unit: i64 = step as i64 * 60;
        proof {
            assert(0 <= column * unit <= 100_000 * 6000) by (nonlinear_arith)
                requires
                    0 <= column <= 100_000,
                    0 <= unit <= 6000,
            ;
            assert(0 <= row * unit <= 100_000 * 6000) by (nonlinear_arith)
                requires
                    0 <= row <= 100_000,
                    0 <= unit <= 6000,
            ;
        }
        let x = clamp_i32(column * unit);
        let y = clamp_i32(row * unit);
        let ghost before = world.archetype_sets();
        world.spawn((transform_at(x, y, 10 * SUB, 10 * SUB), Material { texture_handle: 1 }, Sprite));
        proof {
            let set = ComponentTypeSet::spec_of(seq![ComponentType::Transform, ComponentType::Material, ComponentType::Sprite]);
            if i > 0 {
                assert(before[0] == set);
                assert(before.contains(set));
            } else {
                assert(world.archetype_sets() =~= seq![set]);
            }
        }
        i += 1;
    }
    world
}

/// The store the sprite scenario draws: `sprite_count` sprites.
pub fn build_sprite_world(sprite_count: usize) -> (world: InternalWorld)
    requires
        sprite_count <= u64::MAX,
    ensures
        world.wf(),
        world.next_entity == sprite_count,
        world.archetypes@.len() == if sprite_count == 0 {
            0int
        } else {
            1int
        },
{
    let w = sprite_grid(sprite_count, 200, 4);
    proof {
        assert(w.archetype_sets().len() == w.archetypes@.len());
    }
    w
}

/// The texture map of the sprite scenario: handle 1 resolved to the
/// sprite count (at least 1), so that every lookup succeeds.
pub fn build_texture_map(sprite_count: usize) -> (m: HashMap<u32, u32>)
    ensures
        m@ == map![1u32 => if sprite_count == 0 { 1u32 } else { sprite_count as u32 }],
{
    let mut m: HashMap<u32, u32> = HashMap::new();
    let id: u32 = if sprite_count == 0 {
        1
    } else {
        sprite_count as u32
    };
    m.insert(1, id);
    proof {
        assert(m@ =~= map![1u32 => id]);
    }
    m
}

pub open spec fn map_texture_id(m: Map<u32, u32>, h: u32) -> u32 {
    if m.contains_key(h) {
        m[h]
    } else {
        0
    }
}

pub open spec fn archetype_drawables_by_map(a: Archetype, m: Map<u32, u32>, n: int) -> Seq<
    RenderableObject,
>
    decreases n,
{
    if n <= 0 {
        Seq::empty()
    } else {
        archetype_drawables_by_map(a, m, n - 1).push(
            RenderableObject {
                mesh_id: 1,
                material_id: 1,
                texture_id: map_texture_id(m, a.materials@[n - 1].texture_handle),
                transform: a.transforms@[n - 1],
            },
        )
    }
}

/// The drawables of the first `n` archetypes, textures looked up in `m`.
pub open spec fn drawables_by_map(archetypes: Seq<Archetype>, m: Map<u32, u32>, n: int) -> Seq<
    RenderableObject,
>
    decreases n,
{
    if n <= 0 {
        Seq::empty()
    } else {
        let a = archetypes[n - 1];
        drawables_by_map(archetypes, m, n - 1) + if is_drawable_kind(a) {
            archetype_drawables_by_map(a, m, a.entity_count as int)
        } else {
            Seq::empty()
        }
    }
}

/// The drawables of a store, with textures looked up in a map (0 when absent).
pub fn build_renderables_from_world(world: &InternalWorld, texture_map: &HashMap<u32, u32>) -> (r: Vec<RenderableObject>)
    requires
        world.wf(),
    ensures
        r@ == drawables_by_map(world.archetypes@, texture_map@, world.archetypes@.len() as int),
{
    let mut out: Vec<RenderableObject> = Vec::new();
    let mut a: usize = 0;
    while a < world.archetypes.len()
        invariant
            world.wf(),
            a <= world.archetypes@.len(),
            out@ == drawables_by_map(world.archetypes@, texture_map@, a as int),
        decreases world.archetypes.len() - a,
    {
        let arch = &world.archetypes[a];
        if arch.types.transform && arch.types.material {
            proof {
                assert(arch.wf());
                assert(arch.column(ComponentType::Transform).len() == arch.entity_count);
                assert(arch.column(ComponentType::Material).len() == arch.entity_count);
            }
            let ghost prefix = out@;
            let mut r: usize = 0;
            while r < arch.entity_count
                invariant
                    arch.transforms@.len() == arch.entity_count,
                    arch.materials@.len() == arch.entity_count,
                    r <= arch.entity_count,
                    out@ == prefix + archetype_drawables_by_map(*arch, texture_map@, r as int),
                decreases arch.entity_count - r,
            {
                let texture_id = match texture_map.get(&arch.materials[r].texture_handle) {
                    Some(id) => *id,
                    None => 0,
                };
                out.push(
                    RenderableObject {
                        mesh_id: 1,
                        material_id: 1,
                        texture_id,
                        transform: arch.transforms[r],
                    },
                );
                r += 1;
            }
        }
        proof {
            if !(world.archetypes@[a as int].types.transform && world.archetypes@[a as int].types.material) {
                assert(out@ =~= drawables_by_map(world.archetypes@, texture_map@, a as int + 1));
            }
        }
        a += 1;
    }
    out
}

/// `rows * cols` numbered labels, `T1` first, laid out in a grid over the screen.
pub fn build_ui_text_commands(items_per_row: usize, items_per_col: usize) -> (r: Vec<TextCommand>)
    requires
        items_per_row * items_per_col <= u64::MAX,
    ensures
        r@.len() == items_per_row * items_per_col,
        forall|k: int|
            0 <= k < r@.len() ==> (#[trigger] r@[k]).text@ == seq!['T'] + decimal((k + 1) as nat),
{
    let mut out: Vec<TextCommand> = Vec::new();
    let columns: i64 = if items_per_row == 0 {
        1
    } else if items_per_row > 48000 {
        48000
    } else {
        items_per_row as i64
    };
    let rows: i64 = if items_per_col == 0 {
        1
    } else if items_per_col > 36000 {
        36000
    } else {
        items_per_col as i64
    };
    let step_x: i64 = 48000 / columns;
    let step_y: i64 = 36000 / rows;
    let mut count: u64 = 0;
    let mut i: usize = 0;
    while i < items_per_col
        invariant
            i <= items_per_col,
            items_per_row * items_per_col <= u64::MAX,
            count == i * items_per_row,
            out@.len() == count,
            0 <= step_x <= 48000,
            0 <= step_y <= 36000,
            forall|k: int|
                0 <= k < out@.len() ==> (#[trigger] out@[k]).text@ == seq!['T'] + decimal((k + 1) as nat),
        decreases items_per_col - i,
    {
        let mut j: usize = 0;
        while j < items_per_row
            invariant
                i < items_per_col,
                j <= items_per_row,
                items_per_row * items_per_col <= u64::MAX,
                count == i * items_per_row + j,
                out@.len() == count,
                0 <= step_x <= 48000,
                0 <= step_y <= 36000,
                forall|k: int|
                    0 <= k < out@.len() ==> (#[trigger] out@[k]).text@ == seq!['T'] + decimal((k + 1) as nat),
            decreases items_per_row - j,
        {
            proof {
                assert(i * items_per_row + j < items_per_col * items_per_row) by (nonlinear_arith)
                    requires
                        i < items_per_col,
                        j < items_per_row,
                ;
            }
            count += 1;
            proof {
                reveal_strlit("T");
            }
            let text = concat(String::from_str("T"), decimal_string(count).as_str());
            let jj: i64 = if j > 100_000 {
                100_000
            } else {
                j as i64
            };
            let ii: i64 = if i > 100_000 {
                100_000
            } else {
                i as i64
            };
            proof {
                assert(0 <= jj * step_x <= 100_000 * 48000) by (nonlinear_arith)
                    requires
                        0 <= jj <= 100_000,
                        0 <= step_x <= 48000,
                ;
                assert(0 <= ii * step_y <= 100_000 * 36000) by (nonlinear_arith)
                    requires
                        0 <= ii <= 100_000,
                        0 <= step_y <= 36000,
                ;
            }
            let x = clamp_i32(300 + jj * step_x);
            let y = clamp_i32(900 + ii * step_y);
            let ghost before = out@;
            out.push(TextCommand { text, position: Vec2 { x, y }, font_size: 12 * SUB, color: color(800, 800, 100, 1000) });
            proof {
                assert forall|k: int|
                    0 <= k < out@.len() implies (#[trigger] out@[k]).text@ == seq!['T'] + decimal((k + 1) as nat) by {
                    if k < before.len() {
                        assert(out@[k] == before[k]);
                    }
                }
            }
            j += 1;
        }
        proof {
            assert(i * items_per_row + items_per_row == (i + 1) * items_per_row) by (nonlinear_arith);
        }
        i += 1;
    }
    proof {
        assert(items_per_col * items_per_row == items_per_row * items_per_col) by (nonlinear_arith);
    }
    out
}

/// Builds a store of `entity_count` sprites, clears every sprite and
/// returns how many entities are left, which is none.
pub fn run_scene_construct_destruct_cycle(entity_count: usize) -> (left: usize)
    requires
        entity_count <= u64::MAX,
    ensures
        left == 0,
{
    let mut world = sprite_grid(entity_count, 100, 8);
    let ghost before = world;
    world.clear_entities_of_component(ComponentType::Sprite);
    proof {
        assert forall|k: u64| !world.entities@.contains_key(k) by {
            if world.entities@.contains_key(k) {
                assert(before.entities@.contains_key(k));
                let a = before.entities@[k].0 as int;
                assert(a < before.archetypes@.len());
                assert(before.archetype_sets().len() == before.archetypes@.len());
                assert(before.archetype_sets()[a] == before.archetypes@[a].types);
                let kinds = seq![ComponentType::Transform, ComponentType::Material, ComponentType::Sprite];
                assert(kinds[2] == ComponentType::Sprite);
                assert(kinds.contains(ComponentType::Sprite));
                assert(before.archetypes@[a].types.has(ComponentType::Sprite));
            }
        }
        assert(world.entities@ =~= Map::empty());
    }
    world.entities.len()
}

} // verus!
