//! A monitor's pixel dimensions and its position index in the grid.

use vstd::prelude::*;
use crate::errors::FocusError;
use crate::text::{
    dec_string_of, spec_parse_i32, spec_split, split_on, parse_i32, usize_to_string, views_of,
};

verus! {

/// A monitor's position within a linear left-to-right, top-to-bottom
/// traversal of the grid.
#[derive(Clone, Copy, Debug, Eq, Hash, PartialEq, Structural)]
pub struct MonitorIndex(pub usize);

impl MonitorIndex {
    /// The index rendered in decimal.
    pub fn to_string(&self) -> (r: String)
        ensures
            r@ == dec_string_of(self.0 as int),
    {
        usize_to_string(self.0)
    }
}

/// One physical display's pixel dimensions.
#[derive(Clone, Copy, Debug, Eq, PartialEq, Structural)]
pub struct Monitor {
    pub width: i32,
    pub height: i32,
}

/// What a `WxH` dimensions string yields: exactly two `x`-separated fields,
/// each a valid decimal integer.
pub open spec fn spec_monitor_dims(s: Seq<char>) -> Option<(int, int)> {
    let parts = spec_split(s, 'x');
    if parts.len() == 2 {
        match (spec_parse_i32(parts[0]), spec_parse_i32(parts[1])) {
            (Some(w), Some(h)) => Some((w, h)),
            _ => None,
        }
    } else {
        None
    }
}

impl Monitor {
    pub fn new(width: i32, height: i32) -> (m: Monitor)
        ensures
            m.width == width,
            m.height == height,
    {
        Monitor { width, height }
    }

    /// Parses a `WxH` dimensions string, e.g. `1920x1080`.
    pub fn from_string_dimensions(raw_dimensions: &str) -> (r: Result<Monitor, FocusError>)
        ensures
            match r {
                Ok(m) => spec_monitor_dims(raw_dimensions@) == Some(
                    (m.width as int, m.height as int),
                ),
                Err(e) => {
                    &&& spec_monitor_dims(raw_dimensions@) is None
                    &&& e matches FocusError::InvalidMonitorDimensions(t) && t@ == raw_dimensions@
                },
            },
    {
        let parts = split_on(raw_dimensions, 'x');
        if parts.len() != 2 {
            return Err(FocusError::InvalidMonitorDimensions(raw_dimensions.to_owned()));
        }
        proof {
            assert(views_of(parts@)[0] == parts@[0]@);
            assert(views_of(parts@)[1] == parts@[1]@);
        }
        let w = parse_i32(parts[0].as_str());
        let h = parse_i32(parts[1].as_str());
        match (w, h) {
            (Some(width), Some(height)) => Ok(Monitor::new(width, height)),
            _ => Err(FocusError::InvalidMonitorDimensions(raw_dimensions.to_owned())),
        }
    }
}

} // verus!
