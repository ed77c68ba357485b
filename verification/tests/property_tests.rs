use easy_window_switcher::focus_direction::FocusDirection;
use easy_window_switcher::monitor::{Monitor, MonitorIndex};
use easy_window_switcher::monitor_grid::MonitorGrid;
use easy_window_switcher::monitor_layout::{
    parse_monitor_config, parse_workspace, select_connected_outputs,
};
use easy_window_switcher::window::{Window, WindowId};
use easy_window_switcher::window_focuser::{
    find_closest_window, focus_by_direction, focus_by_monitor_index,
};
use easy_window_switcher::workspace::Workspace;

fn window_at(id: usize, x_offset: i32, y_offset: i32) -> Window {
    Window {
        id: WindowId(id),
        x_offset,
        y_offset,
        width: 800,
        height: 600,
        window_class: "app.App".to_string(),
        title: format!("window {}", id),
    }
}

fn quad_grid() -> MonitorGrid {
    MonitorGrid(vec![
        vec![Monitor::new(1920, 1080), Monitor::new(1920, 1080)],
        vec![Monitor::new(3440, 1440)],
        vec![Monitor::new(1440, 2560)],
    ])
}

// Quad layout: locate assigns each sample point to the expected monitor and
// rejects a point beyond all extents.
#[test]
fn test_quad_layout_locate_examples() {
    let grid = quad_grid();

    assert_eq!(
        grid.determine_which_monitor_window_is_on(&window_at(1, 0, 0))
            .unwrap(),
        MonitorIndex(0)
    );
    assert_eq!(
        grid.determine_which_monitor_window_is_on(&window_at(1, 0, 1500))
            .unwrap(),
        MonitorIndex(1)
    );
    assert_eq!(
        grid.determine_which_monitor_window_is_on(&window_at(1, 1920, 0))
            .unwrap(),
        MonitorIndex(2)
    );
    assert_eq!(
        grid.determine_which_monitor_window_is_on(&window_at(1, 5364, 0))
            .unwrap(),
        MonitorIndex(3)
    );
    assert!(grid
        .determine_which_monitor_window_is_on(&window_at(1, 100000, 0))
        .is_err());
}

// Direction wraparound: on a single monitor with one window, requesting
// Left or Right focus re-selects that same window.
#[test]
fn test_single_monitor_wraparound() {
    let grid = MonitorGrid(vec![vec![Monitor::new(1920, 1080)]]);
    let windows = vec![window_at(7, 100, 100)];

    let left = find_closest_window(&WindowId(7), &grid, &windows, &FocusDirection::Left)
        .unwrap()
        .unwrap();
    let right = find_closest_window(&WindowId(7), &grid, &windows, &FocusDirection::Right)
        .unwrap()
        .unwrap();

    assert_eq!(left.id, WindowId(7));
    assert_eq!(right.id, WindowId(7));
}

// Monitor-index focus: the leftmost window of the requested monitor is
// chosen, and a monitor index with no windows is a no-op.
#[test]
fn test_focus_by_monitor_index_selection() {
    let workspace = Workspace::new(MonitorGrid(vec![
        vec![Monitor::new(1920, 1080)],
        vec![Monitor::new(1920, 1080)],
    ]));
    let windows = vec![
        window_at(2, 500, 100),  // B: monitor 0, further right
        window_at(1, 10, 100),   // A: monitor 0, leftmost
        window_at(3, 2000, 100), // C: monitor 1
    ];

    let first = focus_by_monitor_index(&workspace, windows.clone(), &MonitorIndex(0)).unwrap();
    assert_eq!(first, Some(WindowId(1)));

    let second = focus_by_monitor_index(&workspace, windows.clone(), &MonitorIndex(1)).unwrap();
    assert_eq!(second, Some(WindowId(3)));

    let none = focus_by_monitor_index(&workspace, windows, &MonitorIndex(2)).unwrap();
    assert_eq!(none, None);
}

// Window parsing round trip on the descriptor format.
#[test]
fn test_window_parsing_round_trip() {
    let descriptor = "0x05000006 0 1920 24 1920 1056 gnome-terminal.Gnome devin-Desktop Terminal";
    let window = Window::from_raw_config(descriptor).unwrap();

    assert_eq!(window.id, WindowId(83886086));
    assert_eq!(window.x_offset, 1920);
    assert_eq!(window.y_offset, 24);
    assert_eq!(window.width, 1920);
    assert_eq!(window.height, 1056);
    assert_eq!(window.window_class, "gnome-terminal.Gnome");
    assert_eq!(window.title, "Terminal");
}

// Repeated direction-focus calls with unchanged state pick the same target.
#[test]
fn test_direction_focus_deterministic() {
    let workspace = Workspace::new(quad_grid());
    let windows = vec![
        window_at(1, 10, 30),
        window_at(2, 600, 30),
        window_at(3, 2500, 700),
        window_at(4, 5500, 100),
    ];

    let first = focus_by_direction(
        &workspace,
        windows.clone(),
        &WindowId(2),
        &FocusDirection::Right,
    )
    .unwrap();
    let second = focus_by_direction(
        &workspace,
        windows.clone(),
        &WindowId(2),
        &FocusDirection::Right,
    )
    .unwrap();

    assert_eq!(first, second);
    assert_eq!(first, Some(WindowId(3)));
}

// Stepping to the adjacent window on the same monitor.
#[test]
fn test_adjacent_window_same_monitor() {
    let grid = MonitorGrid(vec![vec![Monitor::new(1920, 1080)]]);
    let windows = vec![window_at(1, 10, 30), window_at(2, 600, 30)];

    let right = find_closest_window(&WindowId(1), &grid, &windows, &FocusDirection::Right)
        .unwrap()
        .unwrap();
    assert_eq!(right.id, WindowId(2));

    let left = find_closest_window(&WindowId(2), &grid, &windows, &FocusDirection::Left)
        .unwrap()
        .unwrap();
    assert_eq!(left.id, WindowId(1));
}

// The wraparound search skips monitors without windows.
#[test]
fn test_wraparound_skips_empty_monitor() {
    let grid = MonitorGrid(vec![
        vec![Monitor::new(1920, 1080)],
        vec![Monitor::new(1920, 1080)],
        vec![Monitor::new(1920, 1080)],
    ]);
    let windows = vec![window_at(1, 10, 30), window_at(2, 4000, 30)];

    let right = find_closest_window(&WindowId(1), &grid, &windows, &FocusDirection::Right)
        .unwrap()
        .unwrap();
    assert_eq!(right.id, WindowId(2));

    let left = find_closest_window(&WindowId(1), &grid, &windows, &FocusDirection::Left)
        .unwrap()
        .unwrap();
    assert_eq!(left.id, WindowId(2));
}

// Inconsistent external state: the focused window is not in the window
// list.
#[test]
fn test_focused_window_not_found() {
    let grid = MonitorGrid(vec![vec![Monitor::new(1920, 1080)]]);
    let windows = vec![window_at(1, 10, 30)];

    let result = find_closest_window(&WindowId(99), &grid, &windows, &FocusDirection::Left);
    assert!(result.is_err());
    assert!(result
        .unwrap_err()
        .message()
        .contains("Invariant violated: current focused window not found"));
}

// No windows at all: the resolver reports nothing to focus, not an error.
#[test]
fn test_no_windows_is_benign() {
    let grid = MonitorGrid(vec![vec![Monitor::new(1920, 1080)]]);
    let windows: Vec<Window> = Vec::new();

    let result = find_closest_window(&WindowId(1), &grid, &windows, &FocusDirection::Left).unwrap();
    assert!(result.is_none());
}

// Workspace size is unchanged when columns are reordered.
#[test]
fn test_workspace_size_column_reorder() {
    let a = MonitorGrid(vec![
        vec![Monitor::new(1920, 1080), Monitor::new(1920, 1080)],
        vec![Monitor::new(3440, 1440)],
        vec![Monitor::new(1440, 2560)],
    ]);
    let b = MonitorGrid(vec![
        vec![Monitor::new(1440, 2560)],
        vec![Monitor::new(3440, 1440)],
        vec![Monitor::new(1920, 1080), Monitor::new(1920, 1080)],
    ]);

    assert_eq!(
        Workspace::calculate_workspace_size(&a),
        Workspace::calculate_workspace_size(&b)
    );
}

// Parsing the full quad monitor listing into a workspace.
#[test]
fn test_parse_workspace_quad() {
    let raw = vec![
        "DisplayPort-0 connected 3440x1440+1920+540 (normal left inverted right x axis y axis) 800mm x 337mm".to_owned(),
        "DisplayPort-1 connected 1440x2560+5360+0 right (normal left inverted right x axis y axis) 597mm x 336mm".to_owned(),
        "DisplayPort-2 connected 1920x1080+0+0 (normal left inverted right x axis y axis) 527mm x 296mm".to_owned(),
        "HDMI-A-0 connected primary 1920x1080+0+1080 (normal left inverted right x axis y axis) 527mm x 296mm".to_owned(),
    ];

    let workspace = parse_workspace(&raw).unwrap();
    assert_eq!(workspace.workspace_width, 1920 + 3440 + 1440);
    assert_eq!(workspace.workspace_height, 2560);
}

// A monitor with a non-positive dimension is rejected as unsupported.
#[test]
fn test_parse_workspace_rejects_zero_dimension() {
    let raw = vec![
        "DisplayPort-0 connected 0x1080+0+0 (normal left inverted right x axis y axis) 527mm x 296mm".to_owned(),
    ];

    let result = parse_workspace(&raw);
    assert!(result.is_err());
    assert_eq!(result.unwrap_err().message(), "Unsupported monitor layout");
}

// Only lines with the connected marker survive the output filter.
#[test]
fn test_select_connected_outputs() {
    let raw = "Screen 0: minimum 320 x 200, current 6800 x 2560, maximum 16384 x 16384\nDisplayPort-0 connected 3440x1440+1920+540 (normal left inverted right x axis y axis) 800mm x 337mm\nDisplayPort-1 disconnected (normal left inverted right x axis y axis)\nHDMI-A-0 connected primary 1920x1080+0+1080 (normal left inverted right x axis y axis) 527mm x 296mm\n";

    let lines = select_connected_outputs(raw);
    assert_eq!(lines.len(), 2);
    assert!(lines[0].starts_with("DisplayPort-0"));
    assert!(lines[1].starts_with("HDMI-A-0"));
}

// A malformed window descriptor surfaces the descriptive error message.
#[test]
fn test_malformed_window_message() {
    let result = Window::from_raw_config("Invalid Config");
    assert_eq!(
        result.unwrap_err().message(),
        "Malformed window config: Invalid Config"
    );
}

// A window id beyond the machine's range is rejected.
#[test]
fn test_window_id_overflow_rejected() {
    let result = Window::parse_id("0xFFFFFFFFFFFFFFFFF");
    assert!(result.is_err());
}

// An offset beyond the pixel range is rejected as a parse failure.
#[test]
fn test_monitor_offset_overflow_rejected() {
    let config = "DisplayPort-0 connected 1920x1080+99999999999+0 (normal) 527mm x 296mm";
    assert!(parse_monitor_config(config).is_err());
}

// Decimal rendering edges: zero and a negative offset.
#[test]
fn test_decimal_rendering_edges() {
    assert_eq!(WindowId(0).to_string(), "0");
    let window = Window::new(
        WindowId(1),
        -100,
        -50,
        800,
        600,
        "app.App".to_string(),
        "w".to_string(),
    );
    assert!(window.to_string().contains("X Offset: -100"));
    assert!(window.to_string().contains("Y Offset: -50"));
}

// Windows with equal x offsets keep their original order (the sort is
// stable): the first-listed window is chosen as the leftmost.
#[test]
fn test_equal_offsets_keep_order() {
    let workspace = Workspace::new(MonitorGrid(vec![vec![Monitor::new(1920, 1080)]]));
    let windows = vec![window_at(5, 100, 100), window_at(6, 100, 100)];

    let chosen = focus_by_monitor_index(&workspace, windows, &MonitorIndex(0)).unwrap();
    assert_eq!(chosen, Some(WindowId(5)));
}
