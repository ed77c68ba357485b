use easy_window_switcher::focus_direction::FocusDirection;
use easy_window_switcher::monitor::MonitorIndex;

#[test]
fn test_valid_left() {
    let result = FocusDirection::try_from_string("left").unwrap();
    assert_eq!(result, FocusDirection::Left);
}

#[test]
fn test_valid_right() {
    let result = FocusDirection::try_from_string("right").unwrap();
    assert_eq!(result, FocusDirection::Right);
}

#[test]
fn test_invalid_direction() {
    let result = FocusDirection::try_from_string("up");
    assert!(result.is_err());
    assert!(result
        .unwrap_err()
        .message()
        .contains("Invalid focus direction: up"));
}

#[test]
fn test_empty_string() {
    let result = FocusDirection::try_from_string("");
    assert!(result.is_err());
}

#[test]
fn test_case_sensitive() {
    let result = FocusDirection::try_from_string("Left");
    assert!(result.is_err());
}

#[test]
fn test_left_to_int() {
    assert_eq!(FocusDirection::Left.to_int(), -1);
}

#[test]
fn test_right_to_int() {
    assert_eq!(FocusDirection::Right.to_int(), 1);
}

#[test]
fn test_from_focus_direction_for_i32() {
    let left: i32 = FocusDirection::Left.into();
    let right: i32 = FocusDirection::Right.into();

    assert_eq!(left, -1);
    assert_eq!(right, 1);
}

#[test]
fn test_from_focus_direction_ref_for_i32() {
    let left: i32 = (&FocusDirection::Left).into();
    let right: i32 = (&FocusDirection::Right).into();

    assert_eq!(left, -1);
    assert_eq!(right, 1);
}

#[test]
fn test_try_from_string() {
    let left = FocusDirection::try_from_string(&"left".to_string()).unwrap();
    let right = FocusDirection::try_from_string(&"right".to_string()).unwrap();

    assert_eq!(left, FocusDirection::Left);
    assert_eq!(right, FocusDirection::Right);

    let invalid = FocusDirection::try_from_string(&"invalid".to_string());
    assert!(invalid.is_err());
}

#[test]
fn test_try_from_str() {
    let left = FocusDirection::try_from_string("left").unwrap();
    let right = FocusDirection::try_from_string("right").unwrap();

    assert_eq!(left, FocusDirection::Left);
    assert_eq!(right, FocusDirection::Right);

    let invalid = FocusDirection::try_from_string("invalid");
    assert!(invalid.is_err());
}

#[test]
fn test_args_parsing_direction_left() {
    let direction = "left";
    let focus_direction = FocusDirection::try_from_string(direction).unwrap();
    assert_eq!(focus_direction, FocusDirection::Left);
}

#[test]
fn test_args_parsing_direction_right() {
    let direction = "right";
    let focus_direction = FocusDirection::try_from_string(direction).unwrap();
    assert_eq!(focus_direction, FocusDirection::Right);
}

#[test]
fn test_args_parsing_invalid_direction() {
    let direction = "up";
    let result = FocusDirection::try_from_string(direction);
    assert!(result.is_err());
}

#[test]
fn test_monitor_index_creation() {
    let monitor = 3;
    let monitor_index = MonitorIndex(monitor);
    assert_eq!(monitor_index.0, 3);
}
