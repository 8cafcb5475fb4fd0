//! Arrow keys as directions.

use vstd::prelude::*;
use crate::coords::Dir;

verus! {

/// The direction of the arrow key with the given scan code, if it is one.
pub open spec fn arrow(code: u32) -> Option<Dir> {
    if code == 123 {
        Some(Dir::West)
    } else if code == 124 {
        Some(Dir::East)
    } else if code == 125 {
        Some(Dir::South)
    } else if code == 126 {
        Some(Dir::North)
    } else {
        None
    }
}

/// Convert a keyboard scan code to a direction: up, down, left or right.
pub trait ToDirection: Sized {
    /// The scan code that this value stands for.
    spec fn scancode(self) -> u32;

    /// Return the keyboard scan code for `self`.
    fn as_scancode(self) -> (code: u32)
        ensures
            code == self.scancode(),
    ;

    /// Map from scan code to which arrow key it is.
    fn to_direction(self) -> (dir: Option<Dir>)
        ensures
            dir == arrow(self.scancode()),
    {
        match self.as_scancode() {
            123 => Some(Dir::West),
            124 => Some(Dir::East),
            125 => Some(Dir::South),
            126 => Some(Dir::North),
            _ => None,
        }
    }
}

impl ToDirection for Option<u32> {
    open spec fn scancode(self) -> u32 {
        match self {
            Some(code) => code,
            None => 0,
        }
    }

    fn as_scancode(self) -> (code: u32) {
        self.unwrap_or(0)
    }
}

} // verus!
