//! Verified core of a keyboard-driven window switcher for multi-monitor
//! desktops: parsers for the display server's monitor and window listings,
//! a monitor grid with wraparound index arithmetic and point-to-monitor
//! resolution, a workspace filter, and the focus resolver that picks the
//! next window to focus.

pub mod errors;
pub mod grid_geometry;
pub mod focus_direction;
pub mod monitor;
pub mod monitor_grid;
pub mod monitor_layout;
pub mod text;
pub mod window;
pub mod window_focuser;
pub mod workspace;
pub mod workspace_grid;
pub mod workspace_position;
