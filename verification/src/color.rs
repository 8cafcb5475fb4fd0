//! Colours with an alpha channel.

use vstd::prelude::*;
use vstd::std_specs::convert::FromSpecImpl;

verus! {

/// A simple colour: red, green, blue and alpha, a byte each.
#[derive(Copy, Clone, Debug, PartialEq, Eq, Structural)]
pub struct Color {
    pub r: u8,
    pub g: u8,
    pub b: u8,
    pub a: u8,
}

impl Color {
    pub fn rgba(r: u8, g: u8, b: u8, a: u8) -> (c: Color)
        ensures
            c == (Color { r, g, b, a }),
    {
        Self { r, g, b, a }
    }
}

impl From<Color> for [u8; 4] {
    /// The four channels as bytes, in the order red, green, blue, alpha.
    fn from(color: Color) -> [u8; 4] {
        [color.r, color.g, color.b, color.a]
    }
}

impl FromSpecImpl<Color> for [u8; 4] {
    open spec fn obeys_from_spec() -> bool {
        true
    }

    open spec fn from_spec(color: Color) -> [u8; 4] {
        [color.r, color.g, color.b, color.a]
    }
}

/// Fully transparent black.
pub fn clear() -> (c: Color)
    ensures
        c == (Color { r: 0, g: 0, b: 0, a: 0 }),
{
    Color { r: 0, g: 0, b: 0, a: 0 }
}

/// Opaque white.
pub fn white() -> (c: Color)
    ensures
        c == (Color { r: 255, g: 255, b: 255, a: 255 }),
{
    Color { r: 255, g: 255, b: 255, a: 255 }
}

/// Opaque black.
pub fn black() -> (c: Color)
    ensures
        c == (Color { r: 0, g: 0, b: 0, a: 255 }),
{
    Color { r: 0, g: 0, b: 0, a: 255 }
}

/// Opaque red.
pub fn red() -> (c: Color)
    ensures
        c == (Color { r: 255, g: 0, b: 0, a: 255 }),
{
    Color { r: 255, g: 0, b: 0, a: 255 }
}

/// Opaque green.
pub fn green() -> (c: Color)
    ensures
        c == (Color { r: 0, g: 255, b: 0, a: 255 }),
{
    Color { r: 0, g: 255, b: 0, a: 255 }
}

/// Opaque blue.
pub fn blue() -> (c: Color)
    ensures
        c == (Color { r: 0, g: 0, b: 255, a: 255 }),
{
    Color { r: 0, g: 0, b: 255, a: 255 }
}

/// Opaque yellow.
pub fn yellow() -> (c: Color)
    ensures
        c == (Color { r: 255, g: 255, b: 0, a: 255 }),
{
    Color { r: 255, g: 255, b: 0, a: 255 }
}

/// Opaque purple.
pub fn purple() -> (c: Color)
    ensures
        c == (Color { r: 255, g: 0, b: 255, a: 255 }),
{
    Color { r: 255, g: 0, b: 255, a: 255 }
}

} // verus!
