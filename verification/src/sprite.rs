//! Sprites: single cells drawn at a pixel position of their own.

use vstd::prelude::*;
use crate::cell::Cell;
use crate::coords::PixelCoord;

verus! {

/// A cell drawn at a position given in pixels, relative to the layer it is
/// drawn with, and at a scale of its own.
#[derive(Copy, Clone, Debug, PartialEq, Eq)]
pub struct Sprite {
    pub cell: Cell,
    pub position: PixelCoord,
    pub scale: PixelCoord,
}

} // verus!
