//! Text-mode grids of cells, and a cave generator built on them.
//!
//! The crate offers a small family of grid types indexed by [`Coord`], a
//! cellular-automaton map generator whose output can be made fully connected,
//! and the cell, colour and layer types used to draw such grids as glyphs.

pub mod cell;
pub mod color;
pub mod coords;
pub mod drawing;
pub mod equality;
pub mod flood;
pub mod font;
pub mod fov;
pub mod grid;
pub mod keyboard;
pub mod layer;
pub mod life;
pub mod line;
pub mod mapgen;
pub mod nearest;
pub mod paths;
pub mod regions;
pub mod render;
pub mod sprite;
pub mod vecgrid;

pub use cell::{Bg, BgChar, Cell, Char, Fg, FgBg, FgChar};
pub use color::{black, blue, clear, green, purple, red, white, yellow, Color};
pub use coords::{pxy, xy, Coord, CoordIterator, Dir, PixelCoord};
pub use drawing::{Canvas, RectStyle, Wall};
pub use font::{Font, Glyph, GlyphIterator};
pub use fov::shadowcast;
pub use grid::{CountableNeighbors, Grid, GridIterator, GridMut};
pub use keyboard::ToDirection;
pub use layer::{CharIterator, Layer, OptionCell};
pub use mapgen::CellularMap;
pub use sprite::Sprite;
pub use vecgrid::VecGrid;
