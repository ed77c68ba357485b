//! The library's error type, with exactly specified human-readable messages.

use vstd::prelude::*;
use crate::text::{int_string_of, i32_to_string};

verus! {

/// Everything that can go wrong while parsing display state or resolving
/// focus.
#[derive(Debug)]
pub enum FocusError {
    /// A monitor descriptor line did not have the expected shape.
    InvalidMonitorConfig(String),
    /// A `WxH` dimensions string did not have the expected shape.
    InvalidMonitorDimensions(String),
    /// A focus direction string was neither `left` nor `right`.
    InvalidFocusDirection(String),
    /// A window descriptor line did not have the expected shape.
    MalformedWindowConfig(String),
    /// A window's offsets place it outside every monitor's extents.
    WindowNotOnAnyMonitor(i32, i32),
    /// The externally reported focused window is not in the window list.
    FocusedWindowNotFound,
    /// A parsed monitor layout has non-positive dimensions or extents beyond
    /// what the pixel arithmetic can represent.
    UnsupportedMonitorLayout,
}

/// The message that [`FocusError::message`] renders.
pub open spec fn spec_message(e: FocusError) -> Seq<char> {
    match e {
        FocusError::InvalidMonitorConfig(s) => "Invalid monitor config: "@ + s@,
        FocusError::InvalidMonitorDimensions(s) => "Invalid monitor dimensions: "@ + s@,
        FocusError::InvalidFocusDirection(s) => "Invalid focus direction: "@ + s@,
        FocusError::MalformedWindowConfig(s) => "Malformed window config: "@ + s@,
        FocusError::WindowNotOnAnyMonitor(x, y) => "Window is not on any monitor; position x "@
            + int_string_of(x as int) + ", y "@ + int_string_of(y as int),
        FocusError::FocusedWindowNotFound =>
            "Invariant violated: current focused window not found on current monitor"@,
        FocusError::UnsupportedMonitorLayout => "Unsupported monitor layout"@,
    }
}

impl FocusError {
    /// A human-readable description of the error.
    pub fn message(&self) -> (r: String)
        ensures
            r@ == spec_message(*self),
    {
        let mut out = String::new();
        match self {
            FocusError::InvalidMonitorConfig(s) => {
                out.append("Invalid monitor config: ");
                out.append(s.as_str());
                proof {
                    assert(out@ =~= spec_message(*self));
                }
            },
            FocusError::InvalidMonitorDimensions(s) => {
                out.append("Invalid monitor dimensions: ");
                out.append(s.as_str());
                proof {
                    assert(out@ =~= spec_message(*self));
                }
            },
            FocusError::InvalidFocusDirection(s) => {
                out.append("Invalid focus direction: ");
                out.append(s.as_str());
                proof {
                    assert(out@ =~= spec_message(*self));
                }
            },
            FocusError::MalformedWindowConfig(s) => {
                out.append("Malformed window config: ");
                out.append(s.as_str());
                proof {
                    assert(out@ =~= spec_message(*self));
                }
            },
            FocusError::WindowNotOnAnyMonitor(x, y) => {
                out.append("Window is not on any monitor; position x ");
                let xs = i32_to_string(*x);
                out.append(xs.as_str());
                out.append(", y ");
                let ys = i32_to_string(*y);
                out.append(ys.as_str());
                proof {
                    assert(out@ =~= spec_message(*self));
                }
            },
            FocusError::FocusedWindowNotFound => {
                out.append(
                    "Invariant violated: current focused window not found on current monitor",
                );
                proof {
                    assert(out@ =~= spec_message(*self));
                }
            },
            FocusError::UnsupportedMonitorLayout => {
                out.append("Unsupported monitor layout");
                proof {
                    assert(out@ =~= spec_message(*self));
                }
            },
        }
        out
    }
}

} // verus!
