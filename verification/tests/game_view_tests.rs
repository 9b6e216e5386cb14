use matrix_lang::engine::game_view::GameView;

#[test]
fn test_game_view_default() {
    let game_view = GameView::default();
    assert!(!game_view.is_playing);
    assert!(!game_view.is_paused);
}

#[test]
fn test_toggle_play() {
    let mut game_view = GameView::default();
    game_view.toggle_play();
    assert!(game_view.is_playing);
    assert!(!game_view.is_paused);

    game_view.toggle_play();
    assert!(!game_view.is_playing);
}

#[test]
fn test_toggle_pause() {
    let mut game_view = GameView::default();

    // Should not pause when not playing
    game_view.toggle_pause();
    assert!(!game_view.is_paused);

    // Start playing then pause
    game_view.is_playing = true;
    game_view.toggle_pause();
    assert!(game_view.is_paused);

    // Unpause
    game_view.toggle_pause();
    assert!(!game_view.is_paused);
}

#[test]
fn stepping_needs_a_paused_play() {
    let mut g = GameView::new();
    g.step_frame();
    assert!(!g.step_requested);
    g.toggle_play();
    g.step_frame();
    assert!(!g.step_requested);
    g.toggle_pause();
    g.step_frame();
    assert!(g.step_requested);
}

#[test]
fn camera_and_max_view() {
    let mut g = GameView::new();
    assert_eq!(g.camera_entity, None);
    assert_eq!(g.current_scene_name, "Main Scene");
    g.set_camera_entity(7);
    assert_eq!(g.camera_entity, Some(7));
    g.toggle_max_view();
    assert!(g.max_view);
    g.toggle_max_view();
    assert!(!g.max_view);
}
