use easy_window_switcher::window::{Window, WindowId, WINDOW_DECORATION};

#[test]
fn test_window_id_creation() {
    let id = WindowId(123456);
    assert_eq!(id.0, 123456);
}

#[test]
fn test_window_id_display() {
    let id = WindowId(0x05000006);
    assert_eq!(id.to_string(), "83886086");
}

#[test]
fn test_window_id_equality() {
    let id1 = WindowId(100);
    let id2 = WindowId(100);
    let id3 = WindowId(200);

    assert_eq!(id1, id2);
    assert_ne!(id1, id3);
}

#[test]
fn test_window_id_clone() {
    let id1 = WindowId(42);
    let id2 = id1.clone();
    assert_eq!(id1.0, id2.0);
}

#[test]
fn test_window_decoration_constant() {
    assert_eq!(WINDOW_DECORATION, 24);
}

#[test]
fn test_parse_valid_hex() {
    let result = Window::parse_id("0x05000006").unwrap();
    assert_eq!(result, WindowId(83886086));
}

#[test]
fn test_parse_valid_hex_lowercase() {
    let result = Window::parse_id("0x05a0000b").unwrap();
    assert_eq!(result, WindowId(94371851));
}

#[test]
fn test_parse_valid_hex_uppercase() {
    let result = Window::parse_id("0x05A0000B").unwrap();
    assert_eq!(result, WindowId(94371851));
}

#[test]
fn test_parse_invalid_hex_format() {
    // This works because parse_id only strips a leading "0x" when present.
    let result = Window::parse_id("05000006").unwrap();
    assert_eq!(result, WindowId(83886086));
}

#[test]
fn test_parse_missing_hex_prefix_still_works() {
    let result = Window::parse_id("ABC").unwrap();
    assert_eq!(result, WindowId(2748)); // ABC in hex = 2748 in decimal
}

#[test]
fn test_parse_invalid_hex_characters() {
    let result = Window::parse_id("0xGGGGGGGG");
    assert!(result.is_err());
}

#[test]
fn test_parse_empty_string() {
    let result = Window::parse_id("");
    assert!(result.is_err());
}

#[test]
fn test_parse_malformed_prefix() {
    let result = Window::parse_id("0X05000006");
    assert!(result.is_err());
}

#[test]
fn test_from_raw_config_with_long_title() {
    let raw_config = "0x05000006  0 1920 24   1920 1056 gnome-terminal-server.Gnome-terminal  devin-Desktop This is a very long window title with many words";
    let window = Window::from_raw_config(raw_config).unwrap();
    assert_eq!(
        window.title,
        "This is a very long window title with many words"
    );
}

#[test]
fn test_from_raw_config_with_single_word_title() {
    let raw_config = "0x05000006  0 1920 24   1920 1056 gnome-terminal-server.Gnome-terminal  devin-Desktop Terminal";
    let window = Window::from_raw_config(raw_config).unwrap();
    assert_eq!(window.title, "Terminal");
}

#[test]
fn test_from_raw_config_with_empty_title() {
    let raw_config = "0x05000006  0 1920 24   1920 1056 gnome-terminal-server.Gnome-terminal  devin-Desktop";
    let window = Window::from_raw_config(raw_config).unwrap();
    assert_eq!(window.title, "");
}

#[test]
fn test_from_raw_config_too_few_tokens_is_rejected() {
    let raw_config = "0x05000006  0 1920";
    let result = Window::from_raw_config(raw_config);
    assert!(result.is_err());
}

#[test]
fn test_from_raw_config_invalid_id() {
    let raw_config = "invalid_id  0 1920 24   1920 1056 gnome-terminal-server.Gnome-terminal  devin-Desktop Terminal";
    let result = Window::from_raw_config(raw_config);
    assert!(result.is_err());
}

#[test]
fn test_from_raw_config_invalid_numbers() {
    let raw_config = "0x05000006  0 abc 24   1920 1056 gnome-terminal-server.Gnome-terminal  devin-Desktop Terminal";
    let result = Window::from_raw_config(raw_config);
    assert!(result.is_err());
}

#[test]
fn test_from_raw_config_negative_values() {
    let raw_config = "0x05000006  0 -100 -50   1920 1056 gnome-terminal-server.Gnome-terminal  devin-Desktop Terminal";
    let window = Window::from_raw_config(raw_config).unwrap();
    assert_eq!(window.x_offset, -100);
    assert_eq!(window.y_offset, -50);
}

#[test]
fn test_from_raw_config_zero_dimensions() {
    let raw_config = "0x05000006  0 0 0   0 0 gnome-terminal-server.Gnome-terminal  devin-Desktop Terminal";
    let window = Window::from_raw_config(raw_config).unwrap();
    assert_eq!(window.width, 0);
    assert_eq!(window.height, 0);
}

#[test]
fn test_window_creation() {
    let window = Window::new(
        WindowId(0x05000006),
        1920,
        24,
        1920,
        1056,
        "gnome-terminal-server.Gnome-terminal".to_string(),
        "Terminal".to_string(),
    );

    assert_eq!(window.id, WindowId(83886086));
    assert_eq!(window.x_offset, 1920);
    assert_eq!(window.y_offset, 24);
    assert_eq!(window.width, 1920);
    assert_eq!(window.height, 1056);
    assert_eq!(window.window_class, "gnome-terminal-server.Gnome-terminal");
    assert_eq!(window.title, "Terminal");
}

#[test]
fn window_test_from_raw_config() {
    let raw_config = "0x05000006  0 1920 24   1920 1056 gnome-terminal-server.Gnome-terminal  devin-Desktop Terminal";

    match Window::from_raw_config(raw_config) {
        Ok(window) => {
            assert_eq!(window.id, WindowId(83886086));
            assert_eq!(window.x_offset, 1920);
            assert_eq!(window.y_offset, 24);
            assert_eq!(window.width, 1920);
            assert_eq!(window.height, 1056);
            assert_eq!(window.window_class, "gnome-terminal-server.Gnome-terminal");
            assert_eq!(window.title, "Terminal".to_string());
        }
        Err(e) => panic!("Failed to parse raw config: {}", e.message()),
    }
}

#[test]
fn test_invalid_raw_config() {
    let raw_config = "Invalid Config";

    if Window::from_raw_config(raw_config).is_ok() {
        panic!("Expected error for invalid config")
    }
}

#[test]
fn window_test_display() {
    let window = Window::new(
        WindowId(0x05000006),
        1920,
        24,
        1920,
        1056,
        "gnome-terminal-server.Gnome-terminal".to_string(),
        "Terminal".to_string(),
    );

    let expected_output = "ID: 83886086\nX Offset: 1920\nY Offset: 24\nDimensions: 1920x1056\nClass: gnome-terminal-server.Gnome-terminal\nTitle: Terminal";
    assert_eq!(window.to_string(), expected_output);
}
