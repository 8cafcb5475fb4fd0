//! The contents of a cell, and the parts a cell is put together from.

use vstd::prelude::*;
use core::ops::{Add, BitOrAssign};
use vstd::std_specs::ops::AddSpecImpl;
use vstd::std_specs::convert::FromSpecImpl;
use crate::color::{clear, white, Color};

verus! {

/// A cell's contents.
#[derive(Copy, Clone, Debug, Eq)]
pub struct Cell {
    /// The character to display
    pub ch: u8,
    /// The foreground, used for the set pixels of the glyph
    pub fg: Color,
    /// The background, used for the other pixels of the glyph
    pub bg: Color,
}

/// A foreground colour on its own.
///
/// To create a cell, you can instantiate the struct, but it is more common
/// to add up a foreground, a background and a character, in any order and
/// grouping. A cell can be taken apart again with `From`, and changed with
/// `|=`, which takes over every part that the right-hand side has.
#[derive(Copy, Clone, Debug, PartialEq, Eq, Structural)]
pub struct Fg(pub Color);

/// A background colour on its own.
#[derive(Copy, Clone, Debug, PartialEq, Eq, Structural)]
pub struct Bg(pub Color);

/// A character on its own.
#[derive(Copy, Clone, Debug, Eq)]
pub struct Char(pub u8);

/// A foreground and a background colour.
#[derive(Copy, Clone, Debug, PartialEq, Eq, Structural)]
pub struct FgBg {
    pub fg: Color,
    pub bg: Color,
}

/// A foreground colour and a character.
#[derive(Copy, Clone, Debug, PartialEq, Eq, Structural)]
pub struct FgChar {
    pub fg: Color,
    pub ch: u8,
}

/// A background colour and a character.
#[derive(Copy, Clone, Debug, PartialEq, Eq, Structural)]
pub struct BgChar {
    pub bg: Color,
    pub ch: u8,
}

impl PartialEq for Cell {
    /// Two cells are equal where they show the same character in the same
    /// colours.
    fn eq(&self, other: &Cell) -> (r: bool) {
        self.ch == other.ch && self.fg == other.fg && self.bg == other.bg
    }
}

impl vstd::std_specs::cmp::PartialEqSpecImpl for Cell {
    open spec fn obeys_eq_spec() -> bool {
        true
    }

    open spec fn eq_spec(&self, other: &Cell) -> bool {
        self.ch == other.ch && self.fg == other.fg && self.bg == other.bg
    }
}

impl PartialEq for Char {
    /// Two characters are equal where they are the same byte.
    fn eq(&self, other: &Char) -> (r: bool) {
        self.0 == other.0
    }
}

impl vstd::std_specs::cmp::PartialEqSpecImpl for Char {
    open spec fn obeys_eq_spec() -> bool {
        true
    }

    open spec fn eq_spec(&self, other: &Char) -> bool {
        self.0 == other.0
    }
}

impl Default for Cell {
    /// A white space on a clear background.
    fn default() -> (cell: Self)
        ensures
            cell == (Cell {
                ch: 32,
                fg: Color { r: 255, g: 255, b: 255, a: 255 },
                bg: Color { r: 0, g: 0, b: 0, a: 0 },
            }),
    {
        Cell { ch: 32, fg: white(), bg: clear() }
    }
}

impl Add<Bg> for Fg {
    type Output = FgBg;

    fn add(self, rhs: Bg) -> FgBg {
        FgBg { fg: self.0, bg: rhs.0 }
    }
}

impl AddSpecImpl<Bg> for Fg {
    open spec fn obeys_add_spec() -> bool {
        true
    }

    open spec fn add_req(self, rhs: Bg) -> bool {
        true
    }

    open spec fn add_spec(self, rhs: Bg) -> FgBg {
        FgBg { fg: self.0, bg: rhs.0 }
    }
}

impl Add<Fg> for Bg {
    type Output = FgBg;

    fn add(self, rhs: Fg) -> FgBg {
        FgBg { fg: rhs.0, bg: self.0 }
    }
}

impl AddSpecImpl<Fg> for Bg {
    open spec fn obeys_add_spec() -> bool {
        true
    }

    open spec fn add_req(self, rhs: Fg) -> bool {
        true
    }

    open spec fn add_spec(self, rhs: Fg) -> FgBg {
        FgBg { fg: rhs.0, bg: self.0 }
    }
}

impl Add<Char> for Fg {
    type Output = FgChar;

    fn add(self, rhs: Char) -> FgChar {
        FgChar { fg: self.0, ch: rhs.0 }
    }
}

impl AddSpecImpl<Char> for Fg {
    open spec fn obeys_add_spec() -> bool {
        true
    }

    open spec fn add_req(self, rhs: Char) -> bool {
        true
    }

    open spec fn add_spec(self, rhs: Char) -> FgChar {
        FgChar { fg: self.0, ch: rhs.0 }
    }
}

impl Add<Fg> for Char {
    type Output = FgChar;

    fn add(self, rhs: Fg) -> FgChar {
        FgChar { fg: rhs.0, ch: self.0 }
    }
}

impl AddSpecImpl<Fg> for Char {
    open spec fn obeys_add_spec() -> bool {
        true
    }

    open spec fn add_req(self, rhs: Fg) -> bool {
        true
    }

    open spec fn add_spec(self, rhs: Fg) -> FgChar {
        FgChar { fg: rhs.0, ch: self.0 }
    }
}

impl Add<Char> for Bg {
    type Output = BgChar;

    fn add(self, rhs: Char) -> BgChar {
        BgChar { bg: self.0, ch: rhs.0 }
    }
}

impl AddSpecImpl<Char> for Bg {
    open spec fn obeys_add_spec() -> bool {
        true
    }

    open spec fn add_req(self, rhs: Char) -> bool {
        true
    }

    open spec fn add_spec(self, rhs: Char) -> BgChar {
        BgChar { bg: self.0, ch: rhs.0 }
    }
}

impl Add<Bg> for Char {
    type Output = BgChar;

    fn add(self, rhs: Bg) -> BgChar {
        BgChar { bg: rhs.0, ch: self.0 }
    }
}

impl AddSpecImpl<Bg> for Char {
    open spec fn obeys_add_spec() -> bool {
        true
    }

    open spec fn add_req(self, rhs: Bg) -> bool {
        true
    }

    open spec fn add_spec(self, rhs: Bg) -> BgChar {
        BgChar { bg: rhs.0, ch: self.0 }
    }
}

impl Add<BgChar> for Fg {
    type Output = Cell;

    fn add(self, rhs: BgChar) -> Cell {
        Cell { ch: rhs.ch, fg: self.0, bg: rhs.bg }
    }
}

impl AddSpecImpl<BgChar> for Fg {
    open spec fn obeys_add_spec() -> bool {
        true
    }

    open spec fn add_req(self, rhs: BgChar) -> bool {
        true
    }

    open spec fn add_spec(self, rhs: BgChar) -> Cell {
        Cell { ch: rhs.ch, fg: self.0, bg: rhs.bg }
    }
}

impl Add<Fg> for BgChar {
    type Output = Cell;

    fn add(self, rhs: Fg) -> Cell {
        Cell { ch: self.ch, fg: rhs.0, bg: self.bg }
    }
}

impl AddSpecImpl<Fg> for BgChar {
    open spec fn obeys_add_spec() -> bool {
        true
    }

    open spec fn add_req(self, rhs: Fg) -> bool {
        true
    }

    open spec fn add_spec(self, rhs: Fg) -> Cell {
        Cell { ch: self.ch, fg: rhs.0, bg: self.bg }
    }
}

impl Add<FgChar> for Bg {
    type Output = Cell;

    fn add(self, rhs: FgChar) -> Cell {
        Cell { ch: rhs.ch, fg: rhs.fg, bg: self.0 }
    }
}

impl AddSpecImpl<FgChar> for Bg {
    open spec fn obeys_add_spec() -> bool {
        true
    }

    open spec fn add_req(self, rhs: FgChar) -> bool {
        true
    }

    open spec fn add_spec(self, rhs: FgChar) -> Cell {
        Cell { ch: rhs.ch, fg: rhs.fg, bg: self.0 }
    }
}

impl Add<Bg> for FgChar {
    type Output = Cell;

    fn add(self, rhs: Bg) -> Cell {
        Cell { ch: self.ch, fg: self.fg, bg: rhs.0 }
    }
}

impl AddSpecImpl<Bg> for FgChar {
    open spec fn obeys_add_spec() -> bool {
        true
    }

    open spec fn add_req(self, rhs: Bg) -> bool {
        true
    }

    open spec fn add_spec(self, rhs: Bg) -> Cell {
        Cell { ch: self.ch, fg: self.fg, bg: rhs.0 }
    }
}

impl Add<FgBg> for Char {
    type Output = Cell;

    fn add(self, rhs: FgBg) -> Cell {
        Cell { ch: self.0, fg: rhs.fg, bg: rhs.bg }
    }
}

impl AddSpecImpl<FgBg> for Char {
    open spec fn obeys_add_spec() -> bool {
        true
    }

    open spec fn add_req(self, rhs: FgBg) -> bool {
        true
    }

    open spec fn add_spec(self, rhs: FgBg) -> Cell {
        Cell { ch: self.0, fg: rhs.fg, bg: rhs.bg }
    }
}

impl Add<Char> for FgBg {
    type Output = Cell;

    fn add(self, rhs: Char) -> Cell {
        Cell { ch: rhs.0, fg: self.fg, bg: self.bg }
    }
}

impl AddSpecImpl<Char> for FgBg {
    open spec fn obeys_add_spec() -> bool {
        true
    }

    open spec fn add_req(self, rhs: Char) -> bool {
        true
    }

    open spec fn add_spec(self, rhs: Char) -> Cell {
        Cell { ch: rhs.0, fg: self.fg, bg: self.bg }
    }
}

impl BitOrAssign<Fg> for Cell {
    fn bitor_assign(&mut self, rhs: Fg)
        ensures
            final(self).fg == rhs.0,
            final(self).ch == old(self).ch,
            final(self).bg == old(self).bg,
    {
        self.fg = rhs.0;
    }
}

impl BitOrAssign<Bg> for Cell {
    fn bitor_assign(&mut self, rhs: Bg)
        ensures
            final(self).bg == rhs.0,
            final(self).ch == old(self).ch,
            final(self).fg == old(self).fg,
    {
        self.bg = rhs.0;
    }
}

impl BitOrAssign<Char> for Cell {
    fn bitor_assign(&mut self, rhs: Char)
        ensures
            final(self).ch == rhs.0,
            final(self).fg == old(self).fg,
            final(self).bg == old(self).bg,
    {
        self.ch = rhs.0;
    }
}

impl BitOrAssign<FgBg> for Cell {
    fn bitor_assign(&mut self, rhs: FgBg)
        ensures
            final(self).fg == rhs.fg,
            final(self).bg == rhs.bg,
            final(self).ch == old(self).ch,
    {
        self.fg = rhs.fg;
        self.bg = rhs.bg;
    }
}

impl BitOrAssign<FgChar> for Cell {
    fn bitor_assign(&mut self, rhs: FgChar)
        ensures
            final(self).fg == rhs.fg,
            final(self).ch == rhs.ch,
            final(self).bg == old(self).bg,
    {
        self.fg = rhs.fg;
        self.ch = rhs.ch;
    }
}

impl BitOrAssign<BgChar> for Cell {
    fn bitor_assign(&mut self, rhs: BgChar)
        ensures
            final(self).bg == rhs.bg,
            final(self).ch == rhs.ch,
            final(self).fg == old(self).fg,
    {
        self.bg = rhs.bg;
        self.ch = rhs.ch;
    }
}

impl BitOrAssign<Cell> for Cell {
    fn bitor_assign(&mut self, rhs: Cell)
        ensures
            final(self).ch == rhs.ch,
            final(self).fg == rhs.fg,
            final(self).bg == rhs.bg,
    {
        self.ch = rhs.ch;
        self.fg = rhs.fg;
        self.bg = rhs.bg;
    }
}

impl From<Cell> for Fg {
    fn from(value: Cell) -> Fg {
        Fg(value.fg)
    }
}

impl FromSpecImpl<Cell> for Fg {
    open spec fn obeys_from_spec() -> bool {
        true
    }

    open spec fn from_spec(value: Cell) -> Fg {
        Fg(value.fg)
    }
}

impl From<Cell> for Bg {
    fn from(value: Cell) -> Bg {
        Bg(value.bg)
    }
}

impl FromSpecImpl<Cell> for Bg {
    open spec fn obeys_from_spec() -> bool {
        true
    }

    open spec fn from_spec(value: Cell) -> Bg {
        Bg(value.bg)
    }
}

impl From<Cell> for Char {
    fn from(value: Cell) -> Char {
        Char(value.ch)
    }
}

impl FromSpecImpl<Cell> for Char {
    open spec fn obeys_from_spec() -> bool {
        true
    }

    open spec fn from_spec(value: Cell) -> Char {
        Char(value.ch)
    }
}

impl From<Cell> for FgBg {
    fn from(value: Cell) -> FgBg {
        FgBg { fg: value.fg, bg: value.bg }
    }
}

impl FromSpecImpl<Cell> for FgBg {
    open spec fn obeys_from_spec() -> bool {
        true
    }

    open spec fn from_spec(value: Cell) -> FgBg {
        FgBg { fg: value.fg, bg: value.bg }
    }
}

impl From<Cell> for FgChar {
    fn from(value: Cell) -> FgChar {
        FgChar { fg: value.fg, ch: value.ch }
    }
}

impl FromSpecImpl<Cell> for FgChar {
    open spec fn obeys_from_spec() -> bool {
        true
    }

    open spec fn from_spec(value: Cell) -> FgChar {
        FgChar { fg: value.fg, ch: value.ch }
    }
}

impl From<Cell> for BgChar {
    fn from(value: Cell) -> BgChar {
        BgChar { bg: value.bg, ch: value.ch }
    }
}

impl FromSpecImpl<Cell> for BgChar {
    open spec fn obeys_from_spec() -> bool {
        true
    }

    open spec fn from_spec(value: Cell) -> BgChar {
        BgChar { bg: value.bg, ch: value.ch }
    }
}

impl From<FgBg> for Fg {
    fn from(value: FgBg) -> Fg {
        Fg(value.fg)
    }
}

impl FromSpecImpl<FgBg> for Fg {
    open spec fn obeys_from_spec() -> bool {
        true
    }

    open spec fn from_spec(value: FgBg) -> Fg {
        Fg(value.fg)
    }
}

impl From<FgBg> for Bg {
    fn from(value: FgBg) -> Bg {
        Bg(value.bg)
    }
}

impl FromSpecImpl<FgBg> for Bg {
    open spec fn obeys_from_spec() -> bool {
        true
    }

    open spec fn from_spec(value: FgBg) -> Bg {
        Bg(value.bg)
    }
}

impl From<FgChar> for Fg {
    fn from(value: FgChar) -> Fg {
        Fg(value.fg)
    }
}

impl FromSpecImpl<FgChar> for Fg {
    open spec fn obeys_from_spec() -> bool {
        true
    }

    open spec fn from_spec(value: FgChar) -> Fg {
        Fg(value.fg)
    }
}

impl From<FgChar> for Char {
    fn from(value: FgChar) -> Char {
        Char(value.ch)
    }
}

impl FromSpecImpl<FgChar> for Char {
    open spec fn obeys_from_spec() -> bool {
        true
    }

    open spec fn from_spec(value: FgChar) -> Char {
        Char(value.ch)
    }
}

impl From<BgChar> for Bg {
    fn from(value: BgChar) -> Bg {
        Bg(value.bg)
    }
}

impl FromSpecImpl<BgChar> for Bg {
    open spec fn obeys_from_spec() -> bool {
        true
    }

    open spec fn from_spec(value: BgChar) -> Bg {
        Bg(value.bg)
    }
}

impl From<BgChar> for Char {
    fn from(value: BgChar) -> Char {
        Char(value.ch)
    }
}

impl FromSpecImpl<BgChar> for Char {
    open spec fn obeys_from_spec() -> bool {
        true
    }

    open spec fn from_spec(value: BgChar) -> Char {
        Char(value.ch)
    }
}

} // verus!
