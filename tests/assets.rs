use miyabi_logic::assets::{AssetCommandType, AssetServer};

#[test]
fn repeated_load_gives_one_handle_and_one_request() {
    let mut server = AssetServer::new();
    let first = server.load_texture("assets/player.png");
    let second = server.load_texture("assets/player.png");
    let third = server.load_texture("assets/player.png");
    assert_eq!(first, 1);
    assert_eq!(second, first);
    assert_eq!(third, first);
    assert_eq!(server.pending_requests.len(), 1);
    assert_eq!(server.pending_requests[0].command_type, AssetCommandType::LoadTexture);
    let other = server.load_texture("assets/test.png");
    assert_eq!(other, 2);
    assert_eq!(server.path_for_texture_handle(2), Some("assets/test.png"));
    assert_eq!(server.asset_id_for_texture_handle(2), Some(2));
    assert_eq!(server.path_for_texture_handle(3), None);
    assert!(server.is_registry_consistent());
}

#[test]
fn dispatched_requests_are_not_dispatched_again() {
    let mut server = AssetServer::new();
    server.load_texture("a.png");
    server.load_texture("b.png");
    let first = server.process();
    assert_eq!(first.len(), 2);
    assert_eq!(first[0].request_id, 1);
    assert_eq!(first[0].path, "a.png");
    assert_eq!(first[1].request_id, 2);
    assert_eq!(first[1].type_, AssetCommandType::LoadTexture);
    let second = server.process();
    assert!(second.is_empty());
    server.load_texture("c.png");
    let third = server.process();
    assert_eq!(third.len(), 1);
    assert_eq!(third[0].request_id, 3);
}

#[test]
fn completion_resolves_only_its_own_path() {
    let mut server = AssetServer::new();
    let a = server.load_texture("a.png");
    let b = server.load_texture("b.png");
    server.process();
    assert_eq!(server.complete_request(2, 77), Some(b));
    assert_eq!(server.texture_id_for_handle(b), 77);
    assert_eq!(server.texture_id_for_handle(a), 0);
    assert!(!server.is_resolved(a));
    assert!(server.has_pending_request_for_texture_handle(a));
    assert!(!server.has_pending_request_for_texture_handle(b));
    assert_eq!(server.complete_request(2, 99), None);
    assert_eq!(server.texture_id_for_handle(b), 77);
}

#[test]
fn reimport_needs_a_registered_path_without_pending_request() {
    let mut server = AssetServer::new();
    assert!(!server.reimport_texture("missing.png"));
    server.load_texture("a.png");
    assert!(!server.reimport_texture("a.png"));
    assert_eq!(server.complete_request(1, 5), Some(1));
    assert!(server.reimport_texture("a.png"));
    assert_eq!(server.pending_requests[0].command_type, AssetCommandType::ReloadTexture);
    assert!(server.has_pending_request("a.png"));
    assert!(!server.reimport_texture("a.png"));
}

#[test]
fn reimport_all_skips_pending_paths() {
    let mut server = AssetServer::new();
    server.load_texture("a.png");
    server.load_texture("b.png");
    server.complete_request(1, 10);
    assert_eq!(server.reimport_all_textures(), 1);
    assert_eq!(server.pending_requests.len(), 2);
    assert_eq!(server.pending_requests[1].path, "a.png");
    assert_eq!(server.reimport_all_textures(), 0);
}
