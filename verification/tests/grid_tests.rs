use easy_window_switcher::focus_direction::FocusDirection;
use easy_window_switcher::monitor::{Monitor, MonitorIndex};
use easy_window_switcher::monitor_grid::MonitorGrid;
use easy_window_switcher::window::{Window, WindowId};

fn create_mock_window(x_offset: i32, y_offset: i32) -> Window {
    // Only the offsets matter; everything else can be arbitrary.
    Window {
        id: WindowId(1),
        x_offset,
        y_offset,
        width: 1920,
        height: 1056,
        window_class: "chrome".to_string(),
        title: "Chrome".to_string(),
    }
}

fn create_mock_grid() -> MonitorGrid {
    MonitorGrid(vec![
        vec![Monitor::new(1920, 1080), Monitor::new(1920, 1080)],
        vec![Monitor::new(3440, 1440)],
        vec![Monitor::new(1440, 2560)],
    ])
}

#[test]
fn monitor_grid_test_first_monitor() {
    let window = create_mock_window(0, 0);
    let grid = create_mock_grid();

    assert_eq!(
        grid.determine_which_monitor_window_is_on(&window).unwrap(),
        MonitorIndex(0)
    );
}

#[test]
fn monitor_grid_test_second_monitor() {
    let window = create_mock_window(0, 1500);
    let grid = create_mock_grid();

    assert_eq!(
        grid.determine_which_monitor_window_is_on(&window).unwrap(),
        MonitorIndex(1)
    );
}

#[test]
fn monitor_grid_test_third_monitor() {
    let window = create_mock_window(1920, 0);
    let grid = create_mock_grid();

    assert_eq!(
        grid.determine_which_monitor_window_is_on(&window).unwrap(),
        MonitorIndex(2)
    );
}

#[test]
fn monitor_grid_test_fourth_monitor() {
    let window = create_mock_window(5364, 0);
    let grid = create_mock_grid();

    assert_eq!(
        grid.determine_which_monitor_window_is_on(&window).unwrap(),
        MonitorIndex(3)
    );
}

#[test]
fn monitor_grid_test_invalid_monitor() {
    let window = create_mock_window(100000, 0);
    let grid = create_mock_grid();

    assert!(grid.determine_which_monitor_window_is_on(&window).is_err());
}

#[test]
fn monitor_grid_test_not_on_any_monitor_message() {
    let window = create_mock_window(100000, -7);
    let grid = create_mock_grid();

    let message = grid
        .determine_which_monitor_window_is_on(&window)
        .unwrap_err()
        .message();
    assert_eq!(message, "Window is not on any monitor; position x 100000, y -7");
}

#[test]
fn monitor_grid_test_count() {
    let grid = create_mock_grid();
    assert_eq!(grid.calculate_monitor_count(), 4);
}

#[test]
fn monitor_grid_test_next_monitor_wraparound() {
    let grid = create_mock_grid();

    // Stepping right from the last monitor wraps to the first.
    assert_eq!(
        grid.get_next_monitor(&MonitorIndex(3), &FocusDirection::Right),
        MonitorIndex(0)
    );
    // Stepping left from the first monitor wraps to the last.
    assert_eq!(
        grid.get_next_monitor(&MonitorIndex(0), &FocusDirection::Left),
        MonitorIndex(3)
    );
    // A right step followed by a left step returns to the start.
    let right = grid.get_next_monitor(&MonitorIndex(1), &FocusDirection::Right);
    assert_eq!(
        grid.get_next_monitor(&right, &FocusDirection::Left),
        MonitorIndex(1)
    );
}
