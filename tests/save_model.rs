use miyabi_logic::save::{
    backup_path_for, decide_load, startup_data, temp_path_for, LoadState, SaveData, SaveEnvelope,
    SaveError, SaveProgress, SaveRead, SaveSettings, SAVE_SCHEMA_VERSION,
};

#[test]
fn save_and_load_round_trip() {
    let envelope = SaveEnvelope::new(42u32);
    assert_eq!(envelope.save_version, SAVE_SCHEMA_VERSION);
    match decide_load("save_data.json", SaveRead::Envelope(envelope), 0u32) {
        Ok(LoadState::Loaded(v)) => assert_eq!(v, 42),
        _ => panic!("expected loaded state"),
    }
}

#[test]
fn load_missing_returns_default() {
    match decide_load("not_found.json", SaveRead::<u32>::Missing, 0u32) {
        Ok(LoadState::Defaulted { data, backup_path }) => {
            assert_eq!(data, 0);
            assert!(backup_path.is_none());
        }
        _ => panic!("expected defaulted state"),
    }
}

#[test]
fn load_corrupt_file_moves_backup() {
    match decide_load("dir/save_data.json", SaveRead::<u32>::Malformed, 0u32) {
        Ok(LoadState::Defaulted { data, backup_path }) => {
            assert_eq!(data, 0);
            let backup = backup_path.expect("backup path should exist");
            assert_eq!(backup, "dir/save_data.json.bak");
        }
        _ => panic!("expected defaulted state"),
    }
}

#[test]
fn version_mismatch_is_an_error() {
    let envelope = SaveEnvelope { save_version: 2, payload: 1u32 };
    match decide_load("save.json", SaveRead::Envelope(envelope), 0u32) {
        Err(SaveError::VersionMismatch { found, expected }) => {
            assert_eq!(found, 2);
            assert_eq!(expected, 1);
        }
        _ => panic!("expected a version mismatch"),
    }
}

#[test]
fn sibling_paths() {
    assert_eq!(temp_path_for("save/save_data.json"), "save/save_data.json.tmp");
    assert_eq!(temp_path_for("save_data"), "save_data.tmp");
    assert_eq!(backup_path_for("save/save_data.json"), "save/save_data.json.bak");
    assert_eq!(temp_path_for("save/"), "save/");
    assert_eq!(temp_path_for(".."), "..");
    assert_eq!(temp_path_for(""), "");
}

#[test]
fn sanitizing_clamps_volumes() {
    let settings = SaveSettings { master_volume: -5, bgm_volume: 1500, se_volume: 400, fullscreen: true };
    let clean = settings.sanitized();
    assert_eq!(clean.master_volume, 0);
    assert_eq!(clean.bgm_volume, 1000);
    assert_eq!(clean.se_volume, 400);
    assert!(clean.fullscreen);
}

#[test]
fn defaults_are_full_master_and_eighty_percent_others() {
    let d = SaveData::default();
    assert_eq!(d.settings.master_volume, 1000);
    assert_eq!(d.settings.bgm_volume, 800);
    assert_eq!(d.settings.se_volume, 800);
    assert!(!d.settings.fullscreen);
    assert_eq!(d.progress, SaveProgress::default());
}

#[test]
fn startup_falls_back_to_defaults_on_error() {
    let data = startup_data(Err(SaveError::Io { message: "denied".to_string() }));
    assert_eq!(data, SaveData::default());
    let loud = SaveData {
        progress: SaveProgress { best_score: 9, best_survival_sec: 1, total_play_count: 2, total_clear_count: 0 },
        settings: SaveSettings { master_volume: 2000, bgm_volume: 0, se_volume: 0, fullscreen: false },
    };
    let data = startup_data(Ok(LoadState::Loaded(loud)));
    assert_eq!(data.settings.master_volume, 1000);
    assert_eq!(data.progress.best_score, 9);
}

#[test]
fn corrupt_save_defaults_and_names_backup() {
    let result = decide_load("save/save_data.json", SaveRead::<SaveData>::Malformed, SaveData::default());
    match result {
        Ok(LoadState::Defaulted { data, backup_path }) => {
            assert_eq!(data, SaveData::default());
            assert_eq!(backup_path.as_deref(), Some("save/save_data.json.bak"));
        }
        _ => panic!("expected defaults"),
    }
}

#[test]
fn payload_survives_a_json_round_trip() {
    let data = SaveData {
        progress: SaveProgress { best_score: 1234, best_survival_sec: 56, total_play_count: 7, total_clear_count: 2 },
        settings: SaveSettings { master_volume: 700, bgm_volume: 300, se_volume: 1000, fullscreen: true },
    };
    let mut progress = serde_json::Map::new();
    progress.insert("best_score".to_string(), serde_json::Value::from(data.progress.best_score));
    progress.insert("best_survival_sec".to_string(), serde_json::Value::from(data.progress.best_survival_sec));
    progress.insert("total_play_count".to_string(), serde_json::Value::from(data.progress.total_play_count));
    progress.insert("total_clear_count".to_string(), serde_json::Value::from(data.progress.total_clear_count));
    let mut settings = serde_json::Map::new();
    settings.insert("master_volume".to_string(), serde_json::Value::from(data.settings.master_volume as f32 / 1000.0));
    settings.insert("bgm_volume".to_string(), serde_json::Value::from(data.settings.bgm_volume as f32 / 1000.0));
    settings.insert("se_volume".to_string(), serde_json::Value::from(data.settings.se_volume as f32 / 1000.0));
    settings.insert("fullscreen".to_string(), serde_json::Value::from(data.settings.fullscreen));
    let mut payload = serde_json::Map::new();
    payload.insert("progress".to_string(), serde_json::Value::Object(progress));
    payload.insert("settings".to_string(), serde_json::Value::Object(settings));
    let text = serde_json::Value::Object(payload).to_string();
    let back: serde_json::Value = serde_json::from_str(&text).unwrap();
    let read = |v: &serde_json::Value, a: &str, b: &str| v[a][b].as_f64().unwrap();
    let restored = SaveData {
        progress: SaveProgress {
            best_score: read(&back, "progress", "best_score") as u32,
            best_survival_sec: read(&back, "progress", "best_survival_sec") as u32,
            total_play_count: read(&back, "progress", "total_play_count") as u32,
            total_clear_count: read(&back, "progress", "total_clear_count") as u32,
        },
        settings: SaveSettings {
            master_volume: (read(&back, "settings", "master_volume") * 1000.0).round() as i32,
            bgm_volume: (read(&back, "settings", "bgm_volume") * 1000.0).round() as i32,
            se_volume: (read(&back, "settings", "se_volume") * 1000.0).round() as i32,
            fullscreen: back["settings"]["fullscreen"].as_bool().unwrap(),
        },
    };
    assert_eq!(restored, data);
    assert_eq!(startup_data(Ok(LoadState::Loaded(restored))), data);
}
