use easy_window_switcher::focus_direction::FocusDirection;
use easy_window_switcher::monitor::MonitorIndex;
use easy_window_switcher::window::{Window, WindowId};
use easy_window_switcher::window_focuser::{
    find_next_monitor_window, is_closest_window_not_on_current_monitor,
};

fn create_mock_windows() -> Vec<Window> {
    let window1 = Window {
        id: WindowId(1),
        x_offset: 10,
        y_offset: 20,
        width: 30,
        height: 40,
        window_class: "class1".to_string(),
        title: "title1".to_string(),
    };

    let window2 = Window {
        id: WindowId(2),
        x_offset: 50,
        y_offset: 60,
        width: 70,
        height: 80,
        window_class: "class2".to_string(),
        title: "title2".to_string(),
    };

    vec![window1, window2]
}

#[test]
fn test_left_true() {
    let windows = create_mock_windows();

    let result = is_closest_window_not_on_current_monitor(&FocusDirection::Left, &windows, 0);

    assert!(result);
}

#[test]
fn test_left_false() {
    let windows = create_mock_windows();

    let result = is_closest_window_not_on_current_monitor(&FocusDirection::Left, &windows, 1);

    assert!(!result);
}

#[test]
fn test_right_true() {
    let windows = create_mock_windows();

    let result = is_closest_window_not_on_current_monitor(&FocusDirection::Right, &windows, 1);

    assert!(result);
}

#[test]
fn test_right_false() {
    let windows = create_mock_windows();

    let result = is_closest_window_not_on_current_monitor(&FocusDirection::Right, &windows, 0);

    assert!(!result);
}

#[test]
fn test_one_window() {
    let mut windows = create_mock_windows();
    windows.truncate(1);

    assert!(is_closest_window_not_on_current_monitor(
        &FocusDirection::Left,
        &windows,
        1
    ));

    assert!(is_closest_window_not_on_current_monitor(
        &FocusDirection::Right,
        &windows,
        0
    ));
}

fn create_mock_index(windows: &[Window]) -> (Vec<Vec<Window>>, MonitorIndex) {
    let windows_by_monitor = vec![vec![windows[0].clone(), windows[1].clone()]];
    let monitor_index = MonitorIndex(0);

    (windows_by_monitor, monitor_index)
}

#[test]
fn test_left_monitor() {
    let windows = create_mock_windows();
    let (windows_by_monitor, monitor_index) = create_mock_index(&windows);

    let result =
        find_next_monitor_window(&windows_by_monitor, &monitor_index, &FocusDirection::Left)
            .unwrap();

    assert_eq!(result.id, WindowId(2));
}

#[test]
fn test_right_monitor() {
    let windows = create_mock_windows();
    let (windows_by_monitor, monitor_index) = create_mock_index(&windows);

    let result =
        find_next_monitor_window(&windows_by_monitor, &monitor_index, &FocusDirection::Right)
            .unwrap();

    assert_eq!(result.id, WindowId(1));
}

#[test]
fn test_one_window_monitor() {
    let windows = create_mock_windows();
    let (mut windows_by_monitor, monitor_index) = create_mock_index(&windows);

    windows_by_monitor[0].truncate(1);

    let result1 =
        find_next_monitor_window(&windows_by_monitor, &monitor_index, &FocusDirection::Left)
            .unwrap();

    let result2 =
        find_next_monitor_window(&windows_by_monitor, &monitor_index, &FocusDirection::Right)
            .unwrap();

    assert_eq!(result1.id, WindowId(1));
    assert_eq!(result2.id, WindowId(1));
}

#[test]
fn test_no_windows() {
    let windows_by_monitor: Vec<Vec<Window>> = Vec::new();
    let monitor_index = MonitorIndex(0);

    let result =
        find_next_monitor_window(&windows_by_monitor, &monitor_index, &FocusDirection::Right);

    assert!(result.is_none());
}
