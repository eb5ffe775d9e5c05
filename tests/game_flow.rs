use miyabi_logic::components::ComponentType;
use miyabi_logic::game::{Game, GameState, HostCommand, WIN_FRAMES};
use miyabi_logic::geometry::Vec2;
use miyabi_logic::save::{SaveData, SaveProgress};
use miyabi_logic::text::{decimal_string, signed_decimal_string};
use miyabi_logic::world_setup::{random_obstacle_x, SUB};

fn running_game() -> Game {
    let mut game = Game::new(SaveData::default());
    game.start_new_run();
    game
}

fn obstacle_archetype(game: &Game) -> usize {
    game.world
        .archetypes
        .iter()
        .position(|a| a.types.contains(ComponentType::Obstacle) && a.entity_count > 0)
        .unwrap()
}

fn player_position(game: &Game) -> (i32, i32) {
    let a = game
        .world
        .archetypes
        .iter()
        .position(|a| a.types.contains(ComponentType::Player) && a.entity_count > 0)
        .unwrap();
    let t = game.world.archetypes[a].transforms[0];
    (t.position.x, t.position.y)
}

#[test]
fn new_game_starts_at_title_with_menu() {
    let game = Game::new(SaveData::default());
    assert_eq!(game.current_state, GameState::Title);
    assert_eq!(game.hp, 3);
    assert_eq!(game.world.next_entity, 8);
    assert!(game
        .host_commands
        .iter()
        .any(|c| matches!(c, HostCommand::RequestFullscreen { enabled: false })));
}

#[test]
fn clicking_start_begins_a_run_and_counts_it() {
    let mut game = Game::new(SaveData::default());
    game.input_state.mouse_pos = Vec2 { x: 400 * SUB, y: 450 * SUB };
    game.input_state.mouse_clicked = true;
    game.update();
    assert_eq!(game.current_state, GameState::InGame);
    assert_eq!(game.save_data.progress.total_play_count, 1);
    assert_eq!(game.total_play_count, 1);
    assert!(game.host_commands.iter().any(|c| matches!(c, HostCommand::PersistSave)));
}

#[test]
fn collision_at_one_hp_loses_the_run() {
    let mut game = running_game();
    game.save_data.progress.best_score = 0;
    game.hp = 1;
    game.avoid_count = 5;
    let (px, py) = player_position(&game);
    let a = obstacle_archetype(&game);
    game.world.archetypes[a].transforms[0].position.x = px;
    game.world.archetypes[a].transforms[0].position.y = py + 120;
    game.update();
    assert_eq!(game.hp, 0);
    assert_eq!(game.current_state, GameState::Result);
    assert!(!game.result_is_clear);
    assert_eq!(game.score, 500);
    assert_eq!(game.save_data.progress.best_score, 500);
    assert_eq!(game.save_data.progress.total_clear_count, 0);
}

#[test]
fn lower_score_keeps_the_best() {
    let mut game = running_game();
    game.save_data.progress.best_score = 9000;
    game.hp = 1;
    let (px, py) = player_position(&game);
    let a = obstacle_archetype(&game);
    game.world.archetypes[a].transforms[0].position.x = px;
    game.world.archetypes[a].transforms[0].position.y = py + 120;
    game.update();
    assert_eq!(game.current_state, GameState::Result);
    assert_eq!(game.save_data.progress.best_score, 9000);
}

#[test]
fn surviving_to_the_threshold_clears_the_run() {
    let mut game = running_game();
    game.survival_frames = WIN_FRAMES - 1;
    game.update();
    assert_eq!(game.survival_frames, WIN_FRAMES);
    assert_eq!(game.current_state, GameState::Result);
    assert!(game.result_is_clear);
    assert_eq!(game.save_data.progress.total_clear_count, 1);
    assert_eq!(game.save_data.progress.best_survival_sec, 1800);
}

#[test]
fn hud_shows_time_score_and_level() {
    let mut game = running_game();
    game.update();
    assert_eq!(game.current_state, GameState::InGame);
    let last = game.text_commands.last().unwrap();
    assert_eq!(last.text, "HP:3  Time:0.0s  Score:0  Lv:1");
    for _ in 0..59 {
        game.update();
    }
    assert_eq!(game.survival_frames, 60);
    assert_eq!(game.score, 10);
    assert_eq!(game.text_commands.last().unwrap().text, "HP:3  Time:1.0s  Score:10  Lv:1");
}

#[test]
fn pause_toggles_on_key_presses_not_holds() {
    let mut game = running_game();
    game.input_state.esc_key = true;
    game.update();
    assert_eq!(game.current_state, GameState::Pause);
    game.update();
    assert_eq!(game.current_state, GameState::Pause);
    game.input_state.esc_key = false;
    game.update();
    assert_eq!(game.current_state, GameState::Pause);
    game.input_state.esc_key = true;
    game.update();
    assert_eq!(game.current_state, GameState::InGame);
}

#[test]
fn player_moves_diagonally_at_reduced_speed() {
    let mut game = running_game();
    let (x0, y0) = player_position(&game);
    game.input_state.right = true;
    game.input_state.up = true;
    game.update();
    let (x1, y1) = player_position(&game);
    assert_eq!(x1 - x0, 183);
    assert_eq!(y1 - y0, 183);
    game.input_state.up = false;
    game.update();
    let (x2, _) = player_position(&game);
    assert_eq!(x2 - x1, 260);
}

#[test]
fn player_stays_on_screen() {
    let mut game = running_game();
    game.input_state.left = true;
    for _ in 0..400 {
        game.update();
        if game.current_state != GameState::InGame {
            break;
        }
    }
    let (x, _) = player_position(&game);
    assert_eq!(x, 16 * SUB);
}

#[test]
fn volume_buttons_step_and_clamp() {
    let mut game = Game::new(SaveData::default());
    game.input_state.mouse_clicked = true;
    game.input_state.mouse_pos = Vec2 { x: 520 * SUB, y: 310 * SUB };
    game.update();
    assert_eq!(game.save_data.settings.master_volume, 1000);
    game.input_state.mouse_pos = Vec2 { x: 250 * SUB, y: 310 * SUB };
    game.update();
    assert_eq!(game.save_data.settings.master_volume, 900);
    game.input_state.mouse_pos = Vec2 { x: 520 * SUB, y: 254 * SUB };
    game.update();
    assert_eq!(game.save_data.settings.bgm_volume, 900);
    game.input_state.mouse_pos = Vec2 { x: 300 * SUB, y: 142 * SUB };
    game.update();
    assert!(game.save_data.settings.fullscreen);
}

#[test]
fn completion_notice_resolves_the_drawn_texture() {
    let mut game = running_game();
    game.update();
    let handle = game.player_texture_handle;
    let request = game.asset_commands.iter().find(|c| c.path == "assets/player.png").unwrap().request_id;
    assert_eq!(game.notify_asset_loaded(request, 42), Some(handle));
    game.update();
    assert!(game.renderables.iter().any(|r| r.texture_id == 42));
    assert!(game.renderables.iter().any(|r| r.texture_id == 0));
}

#[test]
fn integrity_check_requeues_unresolved_textures() {
    let mut game = running_game();
    game.update();
    let ids: Vec<u32> = game.asset_commands.iter().map(|c| c.request_id).collect();
    assert_eq!(ids.len(), 2);
    game.notify_asset_loaded(ids[0], 11);
    game.asset_server.pending_requests.clear();
    for _ in 0..40 {
        game.update();
    }
    assert!(game.asset_server.has_pending_request("assets/test.png"));
    assert!(!game.asset_server.has_pending_request("assets/player.png"));
    assert!(game.integrity.reported_unresolved_texture_handles.contains(&game.obstacle_texture_handle));
}

#[test]
fn reimport_shortcut_fires_once_per_press() {
    let mut game = running_game();
    game.update();
    game.notify_asset_loaded(1, 5);
    game.notify_asset_loaded(2, 6);
    game.input_state.u_key = true;
    game.update();
    assert_eq!(game.asset_server.pending_requests.len(), 2);
    game.update();
    assert_eq!(game.asset_server.pending_requests.len(), 2);
}

#[test]
fn result_screen_retry_starts_again() {
    let mut game = running_game();
    game.survival_frames = WIN_FRAMES - 1;
    game.update();
    assert_eq!(game.current_state, GameState::Result);
    game.input_state.mouse_clicked = true;
    game.input_state.mouse_pos = Vec2 { x: 400 * SUB, y: 270 * SUB };
    game.update();
    assert_eq!(game.current_state, GameState::InGame);
    assert_eq!(game.save_data.progress.total_play_count, 2);
    assert!(game.text_commands.is_empty() || game.current_state == GameState::InGame);
}

#[test]
fn stress_states_are_entered_explicitly() {
    let mut game = Game::new(SaveData::default());
    game.enter_sprite_stress_test(25);
    assert_eq!(game.current_state, GameState::SpriteStressTest);
    game.update();
    assert_eq!(game.renderables.len(), 25);
    game.enter_ui_stress_test();
    game.update();
    assert_eq!(game.text_commands.len(), 1200);
    assert_eq!(game.text_commands[0].text, "T1");
    assert_eq!(game.text_commands[1199].text, "T1200");
}

#[test]
fn physics_mirrors_follow_the_host() {
    let mut game = Game::new(SaveData::default());
    let layout = miyabi_logic::game::physics_stress_layout();
    assert_eq!(layout.len(), 504);
    let ids: Vec<u64> = (0..layout.len() as u64).map(|i| 100 + i).collect();
    game.enter_physics_stress_test(&layout, &ids);
    assert_eq!(miyabi_logic::game::physics_body_ids(&game.world), ids);
    let positions: Vec<Vec2> = (0..layout.len() as i32).map(|i| Vec2 { x: i, y: 2 * i }).collect();
    game.update_physics_stress_test(Vec::new(), &positions);
    let a = game
        .world
        .archetypes
        .iter()
        .position(|a| a.types.contains(ComponentType::Physics) && a.entity_count > 0)
        .unwrap();
    assert_eq!(game.world.archetypes[a].transforms[1].position.x, 3);
    assert_eq!(game.world.archetypes[a].transforms[1].position.y, 6);
    assert_eq!(game.renderables.len(), 504);
}

#[test]
fn decimal_text() {
    assert_eq!(decimal_string(0), "0");
    assert_eq!(decimal_string(1234), "1234");
    assert_eq!(signed_decimal_string(-5), "-5");
    assert_eq!(signed_decimal_string(i64::MIN), "-9223372036854775808");
}

#[test]
fn obstacle_positions_are_random() {
    let xs: Vec<i32> = (0..200).map(|_| random_obstacle_x()).collect();
    assert!(xs.iter().all(|x| (20 * SUB..780 * SUB).contains(x)));
    assert!(xs.iter().any(|x| *x != xs[0]));
}

#[test]
fn progress_defaults_are_zero() {
    let p = SaveProgress::default();
    assert_eq!(p.best_score, 0);
    assert_eq!(p.total_clear_count, 0);
}

#[test]
fn stress_tests_return_to_title() {
    let mut game = Game::new(SaveData::default());
    game.enter_sprite_stress_test(5);
    game.exit_stress_test();
    assert_eq!(game.current_state, GameState::Title);
    assert!(game.world.archetypes.iter().all(|a| !a.types.contains(ComponentType::Sprite) || a.entity_count == 0));
    game.input_state.mouse_pos = Vec2 { x: 400 * SUB, y: 450 * SUB };
    game.input_state.mouse_clicked = true;
    game.update();
    assert_eq!(game.current_state, GameState::InGame);
}

#[test]
fn no_hit_means_no_effect_sound() {
    let mut game = running_game();
    game.host_commands.clear();
    game.update();
    assert_eq!(game.last_obstacle_step.hits, 0);
    assert!(game.host_commands.is_empty());
}
