use easy_window_switcher::workspace_position::WorkspacePosition;

#[test]
fn workspace_position_test_new() {
    let workspace = WorkspacePosition::new(1920, 1080);
    assert_eq!(workspace.x, 1920);
    assert_eq!(workspace.y, 1080);
}

#[test]
fn workspace_position_test_from_raw_config() {
    let workspace = WorkspacePosition::from_string_position("1920,1080");
    assert_eq!(workspace.x, 1920);
    assert_eq!(workspace.y, 1080);
}
