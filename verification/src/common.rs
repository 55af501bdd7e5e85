use vstd::prelude::*;
use crate::fixed::{QUARTER_TURN, HALF_TURN};

verus! {

/// Where the reference direction (angle zero) of a dial points.  A custom
/// orientation carries its own fixed-point angle.
#[derive(Clone, Copy, PartialEq, Eq, Structural, Debug)]
pub enum Orientation {
    Right,
    Bottom,
    Left,
    Top,
    Custom(i64),
}

impl Orientation {
    /// The rotation angle of this orientation, in fixed-point angle units.
    pub fn angle(&self) -> (r: i64)
        ensures
            self is Right ==> r == 0,
            self is Bottom ==> r == QUARTER_TURN,
            self is Left ==> r == HALF_TURN,
            self is Top ==> r == QUARTER_TURN * 3,
            self is Custom ==> r == self->Custom_0,
    {
        match *self {
            Orientation::Right => 0,
            Orientation::Bottom => QUARTER_TURN,
            Orientation::Left => HALF_TURN,
            Orientation::Top => QUARTER_TURN * 3,
            Orientation::Custom(angle) => angle,
        }
    }
}

/// The rotational sense in which a dial's value increases.
#[derive(Clone, Copy, PartialEq, Eq, Structural, Debug)]
pub enum Winding {
    Clockwise,
    Counterclockwise,
}

impl Winding {
    /// The sign factor applied to angular offsets: `1` for clockwise,
    /// `-1` for counterclockwise.
    pub fn to_sign(&self) -> (r: i64)
        ensures
            *self == Winding::Clockwise ==> r == 1,
            *self == Winding::Counterclockwise ==> r == -1,
    {
        match *self {
            Winding::Clockwise => 1,
            Winding::Counterclockwise => -1,
        }
    }
}

/// How a dial treats values that leave its nominal range.
#[derive(Clone, Copy, PartialEq, Eq, Structural, Debug)]
pub enum WrapMode {
    Unwrapped,
    Signed,
    Unsigned,
}

} // verus!
