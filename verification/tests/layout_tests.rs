use easy_window_switcher::monitor::Monitor;
use easy_window_switcher::monitor_layout::{parse_monitor_config, parse_raw_monitors_config};
use easy_window_switcher::window::{parse_windows_config, WindowId};

#[test]
fn test_can_parse_quad_monitor_config() {
    let mock_config = vec![
        "DisplayPort-0 connected 3440x1440+1920+540 (normal left inverted right x axis y axis) 800mm x 337mm".to_owned(),
        "DisplayPort-1 connected 1440x2560+5360+0 right (normal left inverted right x axis y axis) 597mm x 336mm".to_owned(),
        "DisplayPort-2 connected 1920x1080+0+0 (normal left inverted right x axis y axis) 527mm x 296mm".to_owned(),
        "HDMI-A-0 connected primary 1920x1080+0+1080 (normal left inverted right x axis y axis) 527mm x 296mm".to_owned(),
    ];

    let monitor_grid = parse_raw_monitors_config(&mock_config).unwrap();

    assert_eq!(
        monitor_grid,
        vec![
            vec![Monitor::new(1920, 1080), Monitor::new(1920, 1080)],
            vec![Monitor::new(3440, 1440)],
            vec![Monitor::new(1440, 2560)],
        ]
    );
}

#[test]
fn test_parse_normal_monitor() {
    let config = "DisplayPort-0 connected 3440x1440+1920+540 (normal left inverted right x axis y axis) 800mm x 337mm".to_string();
    let result = parse_monitor_config(&config).unwrap();
    assert_eq!(result, ("3440x1440".to_string(), 1920, 540));
}

#[test]
fn test_parse_primary_monitor() {
    let config = "HDMI-A-0 connected primary 1920x1080+0+1080 (normal left inverted right x axis y axis) 527mm x 296mm".to_string();
    let result = parse_monitor_config(&config).unwrap();
    assert_eq!(result, ("1920x1080".to_string(), 0, 1080));
}

#[test]
fn test_parse_monitor_at_origin() {
    let config = "DisplayPort-2 connected 1920x1080+0+0 (normal left inverted right x axis y axis) 527mm x 296mm".to_string();
    let result = parse_monitor_config(&config).unwrap();
    assert_eq!(result, ("1920x1080".to_string(), 0, 0));
}

#[test]
fn test_parse_monitor_large_offsets() {
    let config = "DisplayPort-1 connected 1440x2560+5360+0 right (normal left inverted right x axis y axis) 597mm x 336mm".to_string();
    let result = parse_monitor_config(&config).unwrap();
    assert_eq!(result, ("1440x2560".to_string(), 5360, 0));
}

#[test]
fn test_parse_invalid_config_too_few_parts() {
    let config = "DisplayPort-0 connected".to_string();
    let result = parse_monitor_config(&config);
    assert!(result.is_err());
    assert!(result
        .unwrap_err()
        .message()
        .contains("Invalid monitor config"));
}

#[test]
fn test_parse_invalid_config_bad_position() {
    let config = "DisplayPort-0 connected badposition (normal left inverted right x axis y axis) 800mm x 337mm".to_string();
    let result = parse_monitor_config(&config);
    assert!(result.is_err());
}

#[test]
fn test_parse_invalid_config_missing_offsets() {
    let config = "DisplayPort-0 connected 1920x1080+0 (normal left inverted right x axis y axis) 527mm x 296mm".to_string();
    let result = parse_monitor_config(&config);
    assert!(result.is_err());
    assert!(result
        .unwrap_err()
        .message()
        .contains("Invalid monitor config"));
}

#[test]
fn test_parse_invalid_config_non_numeric_offset() {
    let config = "DisplayPort-0 connected 1920x1080+abc+0 (normal left inverted right x axis y axis) 527mm x 296mm".to_string();
    let result = parse_monitor_config(&config);
    assert!(result.is_err());
}

#[test]
fn test_empty_monitor_config() {
    let mock_config = vec![];
    let monitor_grid = parse_raw_monitors_config(&mock_config).unwrap();
    assert!(monitor_grid.is_empty());
}

#[test]
fn xrandr_test_single_monitor() {
    let mock_config = vec![
        "DisplayPort-0 connected 1920x1080+0+0 (normal left inverted right x axis y axis) 527mm x 296mm".to_owned(),
    ];
    let monitor_grid = parse_raw_monitors_config(&mock_config).unwrap();
    assert_eq!(monitor_grid, vec![vec![Monitor::new(1920, 1080)]]);
}

#[test]
fn test_vertical_monitor_stack() {
    let mock_config = vec![
        "DisplayPort-0 connected 1920x1080+0+0 (normal left inverted right x axis y axis) 527mm x 296mm".to_owned(),
        "DisplayPort-1 connected 1920x1080+0+1080 (normal left inverted right x axis y axis) 527mm x 296mm".to_owned(),
    ];
    let monitor_grid = parse_raw_monitors_config(&mock_config).unwrap();
    assert_eq!(
        monitor_grid,
        vec![vec![Monitor::new(1920, 1080), Monitor::new(1920, 1080)]]
    );
}

#[test]
fn test_horizontal_monitor_layout() {
    let mock_config = vec![
        "DisplayPort-0 connected 1920x1080+0+0 (normal left inverted right x axis y axis) 527mm x 296mm".to_owned(),
        "DisplayPort-1 connected 1920x1080+1920+0 (normal left inverted right x axis y axis) 527mm x 296mm".to_owned(),
    ];
    let monitor_grid = parse_raw_monitors_config(&mock_config).unwrap();
    assert_eq!(
        monitor_grid,
        vec![
            vec![Monitor::new(1920, 1080)],
            vec![Monitor::new(1920, 1080)]
        ]
    );
}

#[test]
fn test_mixed_resolution_monitors() {
    let mock_config = vec![
        "DisplayPort-0 connected 1920x1080+0+0 (normal left inverted right x axis y axis) 527mm x 296mm".to_owned(),
        "DisplayPort-1 connected 2560x1440+1920+0 (normal left inverted right x axis y axis) 597mm x 336mm".to_owned(),
    ];
    let monitor_grid = parse_raw_monitors_config(&mock_config).unwrap();
    assert_eq!(
        monitor_grid,
        vec![
            vec![Monitor::new(1920, 1080)],
            vec![Monitor::new(2560, 1440)]
        ]
    );
}

#[test]
fn test_invalid_monitor_dimensions() {
    let mock_config = vec![
        "DisplayPort-0 connected invalidx1080+0+0 (normal left inverted right x axis y axis) 527mm x 296mm".to_owned(),
    ];
    let result = parse_raw_monitors_config(&mock_config);
    assert!(result.is_err());
}

#[test]
fn test_parse_windows_config() {
    let windows_config = [
        // Should get excluded because of the `N/A` window class.
        "0x0340000b  0 -159 -1156 59   1056 N/A                   devin-5900x unity-launcher",
        // Should get excluded because of the `nemo-desktop.Nemo-desktop` window class.
        "0x03800003 -1 0    1080 1920 1080 nemo-desktop.Nemo-desktop  devin-5900x Desktop",
        // Should get excluded because of the 0 `y_offset`.
        // (Note: not a real window config; added for testing purposes)
        "0x04a00006  0 1920 0  3440 1416 code.Code             devin-5900x wmctrl.rs - easy-window-switcher-rs - Visual Studio Code",
        // This is the only real window that should be included.
        "0x04a00006  0 1920 564  3440 1416 code.Code             devin-5900x wmctrl.rs - easy-window-switcher-rs - Visual Studio Code",
    ]
    .join("\n");

    let windows = parse_windows_config(&windows_config).unwrap();

    assert_eq!(windows.len(), 1);

    if let Some(window) = windows.iter().find(|w| w.window_class == "code.Code") {
        assert_eq!(window.id, WindowId(77594630));
        assert_eq!(window.x_offset, 1920);
        assert_eq!(window.y_offset, 564);
        assert_eq!(window.width, 3440);
        assert_eq!(window.height, 1416);

        assert_eq!(
            window.title,
            "wmctrl.rs - easy-window-switcher-rs - Visual Studio Code"
        );
    } else {
        panic!("Failed to parse window correctly");
    }
}
