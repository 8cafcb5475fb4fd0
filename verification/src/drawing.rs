//! Drawing on anything that cells can be set on.

use vstd::prelude::*;
use crate::cell::Cell;
use crate::color::Color;
use crate::coords::{fits, xy, Coord};
use crate::grid::Grid;
use crate::layer::{Layer, OptionCell};

verus! {

/// The byte that a character is stored as: its code where that is below 256,
/// and the low byte of its code otherwise.
pub open spec fn byte_of(ch: char) -> u8 {
    ((ch as u32) & 0xff) as u8
}

/// The parts to lay over a cell for the given character and colours.
pub open spec fn paint(ch: Option<char>, fg: Option<Color>, bg: Option<Color>) -> OptionCell {
    OptionCell {
        ch: match ch {
            Some(c) => Some(byte_of(c)),
            None => None,
        },
        fg,
        bg,
    }
}

/// Whether `at` lies in the rectangle of the given size whose top left
/// corner is `pos`.
pub open spec fn in_rect(at: Coord, pos: Coord, size: Coord) -> bool {
    pos.0 <= at.0 < pos.0 + size.0 && pos.1 <= at.1 < pos.1 + size.1
}

/// The 8 characters (4 sides and 4 corners) making up a rectangle border.
#[derive(Copy, Clone, Debug, PartialEq, Eq, Structural)]
pub struct Wall {
    pub nw: u8,
    pub n: u8,
    pub ne: u8,
    pub w: u8,
    pub e: u8,
    pub sw: u8,
    pub s: u8,
    pub se: u8,
}

/// Styles of ASCII rectangles.
#[derive(Copy, Clone, Debug, PartialEq, Eq, Structural)]
pub enum RectStyle {
    /// Normal rectangles use the `+`, `-`, and `|` characters.
    NORMAL,
    /// Rounded rectangles use slashes to "round" the corners.
    ROUNDED,
    /// Single-bar rectangles use the single-line walls of code page 437.
    SINGLE,
    /// Double-bar rectangles use the double-line walls of code page 437.
    DOUBLE,
}

impl RectStyle {
    /// The characters of a rectangular border in this style.
    pub open spec fn border(self) -> Wall {
        match self {
            RectStyle::NORMAL => Wall {
                nw: 0x2b,
                n: 0x2d,
                ne: 0x2b,
                w: 0x7c,
                e: 0x7c,
                sw: 0x2b,
                s: 0x2d,
                se: 0x2b,
            },
            RectStyle::ROUNDED => Wall {
                nw: 0x2f,
                n: 0x2d,
                ne: 0x5c,
                w: 0x7c,
                e: 0x7c,
                sw: 0x5c,
                s: 0x2d,
                se: 0x2f,
            },
            RectStyle::SINGLE => Wall {
                nw: 0xda,
                n: 0xc4,
                ne: 0xbf,
                w: 0xb3,
                e: 0xb3,
                sw: 0xc0,
                s: 0xc4,
                se: 0xd9,
            },
            RectStyle::DOUBLE => Wall {
                nw: 0xc9,
                n: 0xcd,
                ne: 0xbb,
                w: 0xba,
                e: 0xba,
                sw: 0xc8,
                s: 0xcd,
                se: 0xbc,
            },
        }
    }

    /// Return the characters needed for a given `RectStyle` to draw a
    /// rectangular border in that style.
    pub fn wall(self) -> (wall: Wall)
        ensures
            wall == self.border(),
    {
        match self {
            RectStyle::NORMAL => Wall {
                nw: 0x2b,
                n: 0x2d,
                ne: 0x2b,
                w: 0x7c,
                e: 0x7c,
                sw: 0x2b,
                s: 0x2d,
                se: 0x2b,
            },
            RectStyle::ROUNDED => Wall {
                nw: 0x2f,
                n: 0x2d,
                ne: 0x5c,
                w: 0x7c,
                e: 0x7c,
                sw: 0x5c,
                s: 0x2d,
                se: 0x2f,
            },
            RectStyle::SINGLE => Wall {
                nw: 0xda,
                n: 0xc4,
                ne: 0xbf,
                w: 0xb3,
                e: 0xb3,
                sw: 0xc0,
                s: 0xc4,
                se: 0xd9,
            },
            RectStyle::DOUBLE => Wall {
                nw: 0xc9,
                n: 0xcd,
                ne: 0xbb,
                w: 0xba,
                e: 0xba,
                sw: 0xc8,
                s: 0xcd,
                se: 0xbc,
            },
        }
    }
}

/// The corner of the outline that ends up at `at`, if any. Of corners that
/// fall on one cell the one drawn last shows: they are drawn in the order
/// north-west, north-east, south-west, south-east.
pub open spec fn corners(wall: Wall, pos: Coord, size: Coord, at: Coord) -> Option<u8> {
    let left = pos.0 as int;
    let top = pos.1 as int;
    let right = pos.0 + size.0 - 1;
    let bottom = pos.1 + size.1 - 1;
    if at.0 == right && at.1 == bottom {
        Some(wall.se)
    } else if at.0 == left && at.1 == bottom {
        Some(wall.sw)
    } else if at.0 == right && at.1 == top {
        Some(wall.ne)
    } else if at.0 == left && at.1 == top {
        Some(wall.nw)
    } else {
        None
    }
}

/// The border character at `at` once the corners and the top and bottom
/// sides left of column `upto` are drawn.
pub open spec fn rows_drawn(wall: Wall, pos: Coord, size: Coord, at: Coord, upto: int) -> Option<u8> {
    let left = pos.0 as int;
    let top = pos.1 as int;
    let right = pos.0 + size.0 - 1;
    let bottom = pos.1 + size.1 - 1;
    if at.1 == bottom && left < at.0 < right && at.0 < upto {
        Some(wall.s)
    } else if at.1 == top && left < at.0 < right && at.0 < upto {
        Some(wall.n)
    } else {
        corners(wall, pos, size, at)
    }
}

/// The border character at `at` once the corners, the top and bottom sides
/// and the left and right sides above row `upto` are drawn.
pub open spec fn columns_drawn(wall: Wall, pos: Coord, size: Coord, at: Coord, upto: int) -> Option<u8> {
    let left = pos.0 as int;
    let top = pos.1 as int;
    let right = pos.0 + size.0 - 1;
    let bottom = pos.1 + size.1 - 1;
    if at.0 == right && top < at.1 < bottom && at.1 < upto {
        Some(wall.e)
    } else if at.0 == left && top < at.1 < bottom && at.1 < upto {
        Some(wall.w)
    } else {
        rows_drawn(wall, pos, size, at, right)
    }
}

/// The cell `under` with the border character drawn on it in the given
/// colours, or as it is where there is no border character.
pub open spec fn bordered(border: Option<u8>, fg: Option<Color>, bg: Option<Color>, under: Cell) -> Cell {
    match border {
        Some(b) => (OptionCell { ch: Some(b), fg, bg }).over(under),
        None => under,
    }
}

/// A byte taken as a character is stored as that byte again.
pub proof fn lemma_byte_of_char(b: u8)
    ensures
        byte_of(b as char) == b,
{
    assert(((b as u32) & 0xff) as u8 == b) by (bit_vector);
}

/// The border character that ends up at `at` when the outline of the
/// rectangle is drawn, if any. Where the rectangle is so thin that parts of
/// the outline fall on one cell, the part drawn last shows: corners first,
/// then the top and bottom sides, then the left and right ones.
pub open spec fn outline(wall: Wall, pos: Coord, size: Coord, at: Coord) -> Option<u8> {
    let left = pos.0 as int;
    let top = pos.1 as int;
    let right = pos.0 + size.0 - 1;
    let bottom = pos.1 + size.1 - 1;
    if at.0 == right && top < at.1 < bottom {
        Some(wall.e)
    } else if at.0 == left && top < at.1 < bottom {
        Some(wall.w)
    } else if at.1 == bottom && left < at.0 < right {
        Some(wall.s)
    } else if at.1 == top && left < at.0 < right {
        Some(wall.n)
    } else if at.0 == right && at.1 == bottom {
        Some(wall.se)
    } else if at.0 == left && at.1 == bottom {
        Some(wall.sw)
    } else if at.0 == right && at.1 == top {
        Some(wall.ne)
    } else if at.0 == left && at.1 == top {
        Some(wall.nw)
    } else {
        None
    }
}

/// A Canvas is anything that we can set a cell on: anything that lets us put
/// an optionally-colored ASCII char into a spot on a grid. `Layer` is a
/// canvas.
pub trait Canvas: Sized {
    /// The size of the canvas.
    spec fn bounds(&self) -> Coord;

    /// The cell shown at a coordinate inside the canvas.
    spec fn shown(&self, at: Coord) -> Cell;

    /// The canvas is in a consistent state.
    spec fn ready(&self) -> bool;

    /// Set a cell, optionally set the color as well. Outside the canvas
    /// nothing happens.
    fn set(&mut self, at: Coord, ch: Option<char>, fg: Option<Color>, bg: Option<Color>)
        requires
            old(self).ready(),
        ensures
            final(self).ready(),
            final(self).bounds() == old(self).bounds(),
            at.inside(old(self).bounds()) ==> final(self).shown(at) == paint(ch, fg, bg).over(
                old(self).shown(at),
            ),
            forall|c: Coord|
                c.inside(old(self).bounds()) && c != at ==> final(self).shown(c) == old(self).shown(
                    c,
                ),
    ;

    /// Return the size of the grid
    fn size(&self) -> (dims: Coord)
        requires
            self.ready(),
        ensures
            dims == self.bounds(),
    ;

    /// Return whether a given point lies left of the right edge and above the
    /// bottom edge of the canvas: uses `size` to determine
    fn within(&self, point: Coord) -> (b: bool)
        requires
            self.ready(),
        ensures
            b == (point.0 < self.bounds().0 && point.1 < self.bounds().1),
    {
        let Coord(x, y) = point;
        let Coord(xmax, ymax) = self.size();
        x < xmax && y < ymax
    }

    /// Fill a rectangle with a single character. The rectangle is clipped to
    /// the region of the canvas.
    fn fill_rect(
        &mut self,
        ch: Option<char>,
        fg: Option<Color>,
        bg: Option<Color>,
        pos: Coord,
        size: Coord,
    )
        requires
            old(self).ready(),
            fits(pos.0 + size.0),
            fits(pos.1 + size.1),
        ensures
            final(self).ready(),
            final(self).bounds() == old(self).bounds(),
            forall|c: Coord|
                c.inside(old(self).bounds()) ==> #[trigger] final(self).shown(c) == (if in_rect(
                    c,
                    pos,
                    size,
                ) {
                    paint(ch, fg, bg).over(old(self).shown(c))
                } else {
                    old(self).shown(c)
                }),
    {
        let ghost start = *self;
        let ghost bounds = self.bounds();
        let mut y = pos.1;
        while y < pos.1 + size.1
            invariant
                self.ready(),
                self.bounds() == bounds,
                bounds == start.bounds(),
                fits(pos.0 + size.0),
                fits(pos.1 + size.1),
                pos.1 <= y,
                forall|c: Coord|
                    c.inside(bounds) ==> #[trigger] self.shown(c) == (if in_rect(c, pos, size)
                        && c.1 < y {
                        paint(ch, fg, bg).over(start.shown(c))
                    } else {
                        start.shown(c)
                    }),
            decreases pos.1 + size.1 - y,
        {
            let mut x = pos.0;
            while x < pos.0 + size.0
                invariant
                    self.ready(),
                    self.bounds() == bounds,
                    bounds == start.bounds(),
                    fits(pos.0 + size.0),
                    fits(pos.1 + size.1),
                    pos.1 <= y < pos.1 + size.1,
                    pos.0 <= x,
                    forall|c: Coord|
                        c.inside(bounds) ==> #[trigger] self.shown(c) == (if in_rect(c, pos, size)
                            && (c.1 < y || (c.1 == y && c.0 < x)) {
                            paint(ch, fg, bg).over(start.shown(c))
                        } else {
                            start.shown(c)
                        }),
                decreases pos.0 + size.0 - x,
            {
                let ghost before = *self;
                if self.within(xy(x, y)) {
                    self.set(xy(x, y), ch, fg, bg)
                }
                proof {
                    assert forall|c: Coord| c.inside(bounds) implies #[trigger] self.shown(c) == (
                    if in_rect(c, pos, size) && (c.1 < y || (c.1 == y && c.0 < x + 1)) {
                        paint(ch, fg, bg).over(start.shown(c))
                    } else {
                        start.shown(c)
                    }) by {
                        if c == Coord(x, y) {
                            assert(before.shown(c) == start.shown(c));
                        } else {
                            assert(self.shown(c) == before.shown(c));
                        }
                    }
                }
                x += 1;
            }
            y += 1;
        }
    }

    /// Draw the outline of a rectangle, clipped to the region of the canvas.
    /// Rectangles can be drawn in several styles, see `RectStyle`.
    fn rect(&mut self, wall: Wall, fg: Option<Color>, bg: Option<Color>, pos: Coord, size: Coord)
        requires
            old(self).ready(),
            fits(pos.0 + size.0),
            fits(pos.1 + size.1),
            fits(pos.0 + size.0 - 1),
            fits(pos.1 + size.1 - 1),
            fits(pos.0 + 1),
            fits(pos.1 + 1),
        ensures
            final(self).ready(),
            final(self).bounds() == old(self).bounds(),
            forall|c: Coord|
                c.inside(old(self).bounds()) ==> #[trigger] final(self).shown(c) == bordered(
                    outline(wall, pos, size, c),
                    fg,
                    bg,
                    old(self).shown(c),
                ),
    {
        let ghost start = *self;
        let ghost bounds = self.bounds();
        let right = pos.0 + size.0 - 1;
        let bottom = pos.1 + size.1 - 1;
        proof {
            lemma_byte_of_char(wall.nw);
            lemma_byte_of_char(wall.ne);
            lemma_byte_of_char(wall.sw);
            lemma_byte_of_char(wall.se);
            lemma_byte_of_char(wall.n);
            lemma_byte_of_char(wall.s);
            lemma_byte_of_char(wall.w);
            lemma_byte_of_char(wall.e);
        }
        self.set(pos, Some(wall.nw as char), fg, bg);
        self.set(xy(right, pos.1), Some(wall.ne as char), fg, bg);
        self.set(xy(pos.0, bottom), Some(wall.sw as char), fg, bg);
        self.set(xy(right, bottom), Some(wall.se as char), fg, bg);
        assert forall|c: Coord| c.inside(bounds) implies #[trigger] self.shown(c) == bordered(
            corners(wall, pos, size, c),
            fg,
            bg,
            start.shown(c),
        ) by {}
        let mut x = pos.0 + 1;
        while x < right
            invariant
                self.ready(),
                self.bounds() == bounds,
                bounds == start.bounds(),
                right == pos.0 + size.0 - 1,
                bottom == pos.1 + size.1 - 1,
                pos.0 < x,
                byte_of(wall.n as char) == wall.n,
                byte_of(wall.s as char) == wall.s,
                forall|c: Coord|
                    c.inside(bounds) ==> #[trigger] self.shown(c) == bordered(
                        rows_drawn(wall, pos, size, c, x as int),
                        fg,
                        bg,
                        start.shown(c),
                    ),
            decreases right - x,
        {
            let ghost before = *self;
            self.set(xy(x, pos.1), Some(wall.n as char), fg, bg);
            let ghost between = *self;
            self.set(xy(x, bottom), Some(wall.s as char), fg, bg);
            proof {
                assert forall|c: Coord| c.inside(bounds) implies #[trigger] self.shown(c)
                    == bordered(rows_drawn(wall, pos, size, c, x + 1), fg, bg, start.shown(c)) by {
                    assert(before.shown(c) == bordered(
                        rows_drawn(wall, pos, size, c, x as int),
                        fg,
                        bg,
                        start.shown(c),
                    ));
                    if c == Coord(x, bottom) {
                    } else if c == Coord(x, pos.1) {
                        assert(self.shown(c) == between.shown(c));
                    } else {
                        assert(self.shown(c) == between.shown(c));
                        assert(between.shown(c) == before.shown(c));
                    }
                }
            }
            x += 1;
        }
        assert forall|c: Coord| c.inside(bounds) implies #[trigger] self.shown(c) == bordered(
            columns_drawn(wall, pos, size, c, pos.1 + 1),
            fg,
            bg,
            start.shown(c),
        ) by {
            assert(self.shown(c) == bordered(
                rows_drawn(wall, pos, size, c, x as int),
                fg,
                bg,
                start.shown(c),
            ));
        }
        let mut y = pos.1 + 1;
        while y < bottom
            invariant
                self.ready(),
                self.bounds() == bounds,
                bounds == start.bounds(),
                right == pos.0 + size.0 - 1,
                bottom == pos.1 + size.1 - 1,
                pos.1 < y,
                byte_of(wall.w as char) == wall.w,
                byte_of(wall.e as char) == wall.e,
                forall|c: Coord|
                    c.inside(bounds) ==> #[trigger] self.shown(c) == bordered(
                        columns_drawn(wall, pos, size, c, y as int),
                        fg,
                        bg,
                        start.shown(c),
                    ),
            decreases bottom - y,
        {
            let ghost before = *self;
            self.set(xy(pos.0, y), Some(wall.w as char), fg, bg);
            let ghost between = *self;
            self.set(xy(right, y), Some(wall.e as char), fg, bg);
            proof {
                assert forall|c: Coord| c.inside(bounds) implies #[trigger] self.shown(c)
                    == bordered(columns_drawn(wall, pos, size, c, y + 1), fg, bg, start.shown(c)) by {
                    assert(before.shown(c) == bordered(
                        columns_drawn(wall, pos, size, c, y as int),
                        fg,
                        bg,
                        start.shown(c),
                    ));
                    if c == Coord(right, y) {
                    } else if c == Coord(pos.0, y) {
                        assert(self.shown(c) == between.shown(c));
                    } else {
                        assert(self.shown(c) == between.shown(c));
                        assert(between.shown(c) == before.shown(c));
                    }
                }
            }
            y += 1;
        }
        assert forall|c: Coord| c.inside(bounds) implies #[trigger] self.shown(c) == bordered(
            outline(wall, pos, size, c),
            fg,
            bg,
            start.shown(c),
        ) by {
            assert(self.shown(c) == bordered(
                columns_drawn(wall, pos, size, c, y as int),
                fg,
                bg,
                start.shown(c),
            ));
        }
    }

    /// Fill with a given char / color
    fn fill(&mut self, ch: Option<char>, fg: Option<Color>, bg: Option<Color>)
        requires
            old(self).ready(),
        ensures
            final(self).ready(),
            final(self).bounds() == old(self).bounds(),
            forall|c: Coord|
                c.inside(old(self).bounds()) ==> #[trigger] final(self).shown(c) == paint(
                    ch,
                    fg,
                    bg,
                ).over(old(self).shown(c)),
    {
        let size = self.size();
        self.fill_rect(ch, fg, bg, xy(0, 0), size)
    }
}

impl<'a> Canvas for Layer<'a> {
    open spec fn bounds(&self) -> Coord {
        self.extent()
    }

    open spec fn shown(&self, at: Coord) -> Cell {
        self.lookup(at)
    }

    open spec fn ready(&self) -> bool {
        self.wf()
    }

    fn set(&mut self, at: Coord, ch: Option<char>, fg: Option<Color>, bg: Option<Color>) {
        let byte = match ch {
            Some(c) => Some(((c as u32) & 0xff) as u8),
            None => None,
        };
        Layer::set(self, at, OptionCell { ch: byte, fg, bg })
    }

    fn size(&self) -> (dims: Coord) {
        Layer::size(self)
    }
}

} // verus!
