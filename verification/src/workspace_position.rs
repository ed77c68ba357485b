//! The position of one workspace within the window manager's full plane of
//! workspaces, as its top-leftmost pixel.

use vstd::prelude::*;
use crate::text::{parse_usize, spec_parse_usize, spec_split, spec_trim, split_on, trim_str, views_of};

verus! {

/// A `X,Y` string whose comma-separated fields, once trimmed, are all valid
/// sizes, at least two of them.
pub open spec fn valid_position_string(s: Seq<char>) -> bool {
    let parts = spec_split(s, ',');
    &&& parts.len() >= 2
    &&& forall|i: int|
        0 <= i < parts.len() ==> spec_parse_usize(spec_trim(#[trigger] parts[i])) is Some
}

/// The top-leftmost pixel of one workspace within the plane of all
/// workspaces.
#[derive(Debug)]
pub struct WorkspacePosition {
    pub x: usize,
    pub y: usize,
}

impl WorkspacePosition {
    pub fn new(x: usize, y: usize) -> (r: Self)
        ensures
            r.x == x,
            r.y == y,
    {
        WorkspacePosition { x, y }
    }

    /// Builds a position from a raw `X,Y` string, e.g. `1920,1080`.
    pub fn from_string_position(string_position: &str) -> (r: Self)
        requires
            valid_position_string(string_position@),
        ensures
            Some(r.x as int) == spec_parse_usize(
                spec_trim(spec_split(string_position@, ',')[0]),
            ),
            Some(r.y as int) == spec_parse_usize(
                spec_trim(spec_split(string_position@, ',')[1]),
            ),
    {
        let parts = split_on(string_position, ',');
        proof {
            assert(views_of(parts@)[0] == parts@[0]@);
            assert(views_of(parts@)[1] == parts@[1]@);
        }
        let xt = trim_str(parts[0].as_str());
        let x = match parse_usize(xt.as_str()) {
            Some(v) => v,
            None => {
                proof {
                    assert(false);
                }
                0
            },
        };
        let yt = trim_str(parts[1].as_str());
        let y = match parse_usize(yt.as_str()) {
            Some(v) => v,
            None => {
                proof {
                    assert(false);
                }
                0
            },
        };
        WorkspacePosition { x, y }
    }
}

} // verus!
