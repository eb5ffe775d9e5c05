use miyabi_logic::ecs::InternalWorld;
use miyabi_logic::perf::{
    build_renderables_from_world, build_sprite_world, build_texture_map, build_ui_text_commands,
    run_scene_construct_destruct_cycle, PerfConfig,
};

#[test]
fn sprite_world_draws_every_sprite_with_the_mapped_texture() {
    let world = build_sprite_world(450);
    let map = build_texture_map(450);
    assert_eq!(map.get(&1), Some(&450));
    let drawn = build_renderables_from_world(&world, &map);
    assert_eq!(drawn.len(), 450);
    assert!(drawn.iter().all(|r| r.texture_id == 450 && r.mesh_id == 1));
    assert_eq!(drawn[201].transform.position.x, 4 * 60);
    assert_eq!(drawn[201].transform.position.y, 4 * 60);
}

#[test]
fn empty_texture_map_uses_zero() {
    let world = build_sprite_world(3);
    let map = std::collections::HashMap::new();
    let drawn = build_renderables_from_world(&world, &map);
    assert!(drawn.iter().all(|r| r.texture_id == 0));
    assert_eq!(build_texture_map(0).get(&1), Some(&1));
}

#[test]
fn ui_text_grid_is_numbered_from_one() {
    let texts = build_ui_text_commands(3, 2);
    let labels: Vec<&str> = texts.iter().map(|t| t.text.as_str()).collect();
    assert_eq!(labels, vec!["T1", "T2", "T3", "T4", "T5", "T6"]);
    assert!(build_ui_text_commands(0, 5).is_empty());
}

#[test]
fn scene_cycle_leaves_no_entities() {
    assert_eq!(run_scene_construct_destruct_cycle(500), 0);
    assert_eq!(run_scene_construct_destruct_cycle(0), 0);
    assert_eq!(InternalWorld::new().archetypes.len(), 0);
}

#[test]
fn default_perf_config() {
    let c = PerfConfig::default();
    assert_eq!(c.sprite_count, 10_000);
    assert_eq!(c.iterations, 30);
    assert_eq!(c.ui_items_per_row, 30);
}
