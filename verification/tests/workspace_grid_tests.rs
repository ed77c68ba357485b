use easy_window_switcher::monitor::Monitor;
use easy_window_switcher::window::{Window, WindowId};
use easy_window_switcher::workspace_grid::WorkspaceGrid;

#[test]
fn workspace_grid_test_my_arrangement() {
    let monitor_arrangement = vec![
        vec![Monitor::new(1920, 1080), Monitor::new(1920, 1080)],
        vec![Monitor::new(3440, 1440)],
        vec![Monitor::new(1440, 2560)],
    ];

    let (workspace_width, workspace_height) =
        WorkspaceGrid::calculate_workspace_size(&monitor_arrangement);

    assert_eq!(workspace_width, 1920 + 3440 + 1440);
    assert_eq!(workspace_height, 2560); // The max height of all columns
}

#[test]
fn workspace_grid_test_different_arrangement() {
    let monitor_arrangement = vec![
        vec![Monitor::new(1920, 1080)],
        vec![Monitor::new(1440, 3440)],
        vec![Monitor::new(1440, 2560)],
    ];

    let (workspace_width, workspace_height) =
        WorkspaceGrid::calculate_workspace_size(&monitor_arrangement);

    assert_eq!(workspace_width, 1920 + 1440 + 1440);
    assert_eq!(workspace_height, 3440); // The max height of all columns
}

#[test]
fn workspace_grid_test_single_monitor() {
    let monitor_arrangement = vec![vec![Monitor::new(1920, 1080)]];

    let (workspace_width, workspace_height) =
        WorkspaceGrid::calculate_workspace_size(&monitor_arrangement);

    assert_eq!(workspace_width, 1920);
    assert_eq!(workspace_height, 1080);
}

#[test]
fn workspace_grid_test_empty_arrangement() {
    let monitor_arrangement: Vec<Vec<Monitor>> = vec![];

    let (workspace_width, workspace_height) =
        WorkspaceGrid::calculate_workspace_size(&monitor_arrangement);

    assert_eq!(workspace_width, 0);
    assert_eq!(workspace_height, 0);
}

fn create_window(x_offset: i32, y_offset: i32) -> Window {
    // Only the offsets matter; everything else can be arbitrary.
    Window {
        id: WindowId(1),
        x_offset,
        y_offset,
        width: 1920,
        height: 1056,
        window_class: "chrome".to_string(),
        title: "Chrome".to_string(),
    }
}

fn create_quad_grid() -> WorkspaceGrid {
    WorkspaceGrid::new(
        0,
        0,
        vec![
            vec![Monitor::new(1920, 1080), Monitor::new(1920, 1080)],
            vec![Monitor::new(3440, 1440)],
            vec![Monitor::new(1440, 2560)],
        ],
    )
}

#[test]
fn workspace_grid_test_first_monitor() {
    let window = create_window(0, 0);
    let grid = create_quad_grid();

    assert_eq!(
        grid.determine_which_monitor_window_is_on(&window).unwrap(),
        0
    );
}

#[test]
fn workspace_grid_test_second_monitor() {
    let window = create_window(0, 1500);
    let grid = create_quad_grid();

    assert_eq!(
        grid.determine_which_monitor_window_is_on(&window).unwrap(),
        1
    );
}

#[test]
fn workspace_grid_test_third_monitor() {
    let window = create_window(1920, 0);
    let grid = create_quad_grid();

    assert_eq!(
        grid.determine_which_monitor_window_is_on(&window).unwrap(),
        2
    );
}

#[test]
fn workspace_grid_test_fourth_monitor() {
    let window = create_window(5364, 0);
    let grid = create_quad_grid();

    assert_eq!(
        grid.determine_which_monitor_window_is_on(&window).unwrap(),
        3
    );
}

#[test]
fn workspace_grid_test_invalid_monitor() {
    let window = create_window(100000, 0);
    let grid = create_quad_grid();

    assert!(grid.determine_which_monitor_window_is_on(&window).is_err());
}

#[test]
fn workspace_grid_test_from_string_dimensions() {
    let grid = WorkspaceGrid::from_string_dimensions(
        " 5760x1080 ",
        vec![vec![Monitor::new(1920, 1080)]],
    );
    assert_eq!(grid.width, 5760);
    assert_eq!(grid.height, 1080);
    assert_eq!(grid.workspace_width, 1920);
    assert_eq!(grid.workspace_height, 1080);
}
