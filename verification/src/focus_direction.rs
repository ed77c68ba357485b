//! The two horizontal focus directions and their signed step values.

use vstd::prelude::*;
use crate::errors::FocusError;
use crate::text::str_eq;

verus! {

#[derive(Clone, Debug, PartialEq, Eq, Structural)]
pub enum FocusDirection {
    Left,
    Right,
}

/// The signed step a direction stands for: `-1` for left, `+1` for right.
pub open spec fn spec_step(d: FocusDirection) -> int {
    match d {
        FocusDirection::Left => -1,
        FocusDirection::Right => 1,
    }
}

impl FocusDirection {
    /// Parses `left` or `right` (case-sensitive); anything else is rejected.
    pub fn try_from_string(value: &str) -> (r: Result<FocusDirection, FocusError>)
        ensures
            value@ == "left"@ ==> r == Ok::<FocusDirection, FocusError>(FocusDirection::Left),
            value@ == "right"@ ==> r == Ok::<FocusDirection, FocusError>(FocusDirection::Right),
            value@ != "left"@ && value@ != "right"@ ==> (r matches Err(e) && e matches
                FocusError::InvalidFocusDirection(t) && t@ == value@),
    {
        proof {
            reveal_strlit("left");
            reveal_strlit("right");
            assert("left"@.len() == 4);
            assert("right"@.len() == 5);
        }
        if str_eq(value, "left") {
            Ok(FocusDirection::Left)
        } else if str_eq(value, "right") {
            Ok(FocusDirection::Right)
        } else {
            Err(FocusError::InvalidFocusDirection(value.to_owned()))
        }
    }

    /// The signed step this direction stands for.
    pub fn to_int(&self) -> (r: i32)
        ensures
            r as int == spec_step(*self),
    {
        match self {
            FocusDirection::Left => -1,
            FocusDirection::Right => 1,
        }
    }
}

impl From<FocusDirection> for i32 {
    fn from(value: FocusDirection) -> (r: i32) {
        value.to_int()
    }
}

impl vstd::std_specs::convert::FromSpecImpl<FocusDirection> for i32 {
    open spec fn obeys_from_spec() -> bool {
        true
    }

    open spec fn from_spec(v: FocusDirection) -> i32 {
        match v {
            FocusDirection::Left => -1i32,
            FocusDirection::Right => 1i32,
        }
    }
}

impl<'a> From<&'a FocusDirection> for i32 {
    fn from(value: &'a FocusDirection) -> (r: i32) {
        value.to_int()
    }
}

impl<'a> vstd::std_specs::convert::FromSpecImpl<&'a FocusDirection> for i32 {
    open spec fn obeys_from_spec() -> bool {
        true
    }

    open spec fn from_spec(v: &'a FocusDirection) -> i32 {
        match v {
            FocusDirection::Left => -1i32,
            FocusDirection::Right => 1i32,
        }
    }
}

} // verus!
