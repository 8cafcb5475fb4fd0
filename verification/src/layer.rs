//! Layers: rectangular grids of coloured glyphs, placed on a pixel surface.

use vstd::prelude::*;
use core::ops::{Index, IndexMut};
use crate::cell::{Cell, Char};
use crate::color::Color;
use crate::coords::{
    area, fits, lemma_linear_index_inside, lemma_nth_coord_inside, linear_index, nth_coord, pxy,
    Coord, PixelCoord,
};
use crate::font::{Font, Glyph};
use crate::grid::{Grid, GridMut};
use crate::render::{blends_pixels, blitted, rows_of};
use crate::sprite::Sprite;
use crate::vecgrid::VecGrid;

verus! {

/// The parts of a cell that are to be changed: each of the character, the
/// foreground and the background is either given or left as it is.
#[derive(Copy, Clone, Debug, PartialEq, Eq, Structural)]
pub struct OptionCell {
    pub ch: Option<u8>,
    pub fg: Option<Color>,
    pub bg: Option<Color>,
}

impl OptionCell {
    /// The cell `under` with the given parts laid over it.
    pub open spec fn over(self, under: Cell) -> Cell {
        Cell {
            ch: match self.ch {
                Some(ch) => ch,
                None => under.ch,
            },
            fg: match self.fg {
                Some(fg) => fg,
                None => under.fg,
            },
            bg: match self.bg {
                Some(bg) => bg,
                None => under.bg,
            },
        }
    }

    /// Lays the given parts over `under`.
    pub fn apply(self, under: Cell) -> (cell: Cell)
        ensures
            cell == self.over(under),
    {
        Cell {
            ch: match self.ch {
                Some(ch) => ch,
                None => under.ch,
            },
            fg: match self.fg {
                Some(fg) => fg,
                None => under.fg,
            },
            bg: match self.bg {
                Some(bg) => bg,
                None => under.bg,
            },
        }
    }
}

/// The side of a glyph in pixels.
pub const GLYPH_SIDE: i32 = 8;

/// A scale factor as it is applied: at least 1.
pub open spec fn at_least_one(scale: i32) -> int {
    if scale < 1 {
        1
    } else {
        scale as int
    }
}

/// Where along one axis the cell at position `at` starts, in pixels.
pub open spec fn pixel_at(at: i32, scale: i32, origin: i32) -> int {
    at * 8 * at_least_one(scale) + origin
}

/// Represents a rectangular grid of colored glyphs: its size in characters,
/// and its position in pixels. Borrows a font to know which glyphs to draw.
pub struct Layer<'a> {
    /// The font to display the layer in
    pub font: &'a Font,
    /// How much to scale the glyphs, enlarging only. `pxy(1, 2)` will double
    /// the height to 8x16
    pub scale: PixelCoord,
    /// Where to place the layer in the target texture
    pub origin: PixelCoord,
    data: VecGrid<Cell>,
}

impl<'a> Layer<'a> {
    /// The cells of the layer.
    pub closed spec fn cells_grid(&self) -> VecGrid<Cell> {
        self.data
    }

    /// The font of the layer.
    pub closed spec fn typeface(&self) -> &'a Font {
        self.font
    }

    /// The scale of the layer.
    pub closed spec fn scaling(&self) -> PixelCoord {
        self.scale
    }

    /// The pixel position of the layer.
    pub closed spec fn placement(&self) -> PixelCoord {
        self.origin
    }

    /// Whether the cell at `c` has a pixel position that fits an `i32`, and
    /// can be reached without leaving the range of `i32` on the way.
    pub open spec fn places(&self, c: Coord) -> bool {
        &&& fits(c.0 * 8)
        &&& fits(c.1 * 8)
        &&& fits(c.0 * 8 * at_least_one(self.scaling().0))
        &&& fits(c.1 * 8 * at_least_one(self.scaling().1))
        &&& fits(pixel_at(c.0, self.scaling().0, self.placement().0))
        &&& fits(pixel_at(c.1, self.scaling().1, self.placement().1))
    }

    /// Whether every cell of the layer has a pixel position.
    pub open spec fn placed(&self) -> bool {
        forall|c: Coord| c.inside(self.extent()) ==> #[trigger] self.places(c)
    }

    /// The normal way to create a Layer: every cell a white space on a clear
    /// background.
    pub fn new(font: &'a Font, size: Coord, scale: PixelCoord, origin: PixelCoord) -> (layer: Self)
        requires
            0 <= size.0,
            0 <= size.1,
            size.0 * size.1 <= i32::MAX,
        ensures
            layer.wf(),
            layer.extent() == size,
            layer.typeface() == font,
            layer.scaling() == scale,
            layer.placement() == origin,
            forall|c: Coord| layer.lookup(c) == layer.filler(),
    {
        let data = VecGrid::new(size, Cell::default());
        Self { font, scale, origin, data }
    }

    /// Returns the size of this Layer
    pub fn size(&self) -> (dims: Coord)
        requires
            self.wf(),
        ensures
            dims == self.extent(),
            area(dims) <= i32::MAX,
    {
        self.data.size()
    }

    /// Starts a walk over all the cells in the layer, in reading order. Each
    /// step hands out a cell's glyph, its two colours and its position in
    /// pixels.
    pub fn cells(&self) -> (it: CharIterator<'_>)
        ensures
            it.layer() == self,
            it.position() == 0,
    {
        CharIterator { layer: self, n: 0 }
    }

    /// The cells of this layer as a grid.
    pub fn grid(&self) -> (grid: &VecGrid<Cell>)
        ensures
            *grid == self.cells_grid(),
    {
        &self.data
    }

    /// The cells of this layer as a grid that can be written to.
    pub fn grid_mut(&mut self) -> (grid: &mut VecGrid<Cell>)
        ensures
            *grid == old(self).cells_grid(),
            final(self).cells_grid() == *final(grid),
            final(self).typeface() == old(self).typeface(),
            final(self).scaling() == old(self).scaling(),
            final(self).placement() == old(self).placement(),
    {
        &mut self.data
    }

    /// Returns the `PixelCoord` corresponding to a given `Coord` in this
    /// layer, taking into account the scale factor and origin.
    pub fn pixel_coord(&self, coord: Coord) -> (at: PixelCoord)
        requires
            self.places(coord),
        ensures
            at.0 == pixel_at(coord.0, self.scaling().0, self.placement().0),
            at.1 == pixel_at(coord.1, self.scaling().1, self.placement().1),
    {
        let scalex = if self.scale.0 < 1 {
            1
        } else {
            self.scale.0
        };
        let scaley = if self.scale.1 < 1 {
            1
        } else {
            self.scale.1
        };
        let px = coord.0 * 8 * scalex + self.origin.0;
        let py = coord.1 * 8 * scaley + self.origin.1;
        pxy(px, py)
    }

    /// Create a new `VecGrid<Char>` with the characters (uncolored) from this
    /// Layer
    pub fn chars(&self) -> (out: VecGrid<Char>)
        requires
            self.wf(),
        ensures
            out.wf(),
            out.extent() == self.extent(),
            out.filler() == Char(32),
            forall|c: Coord| c.inside(self.extent()) ==> out.lookup(c) == Char(self.lookup(c).ch),
    {
        let pick = |at: Coord, cell: &Cell| -> (ch: Char)
            ensures
                ch == Char(cell.ch),
            { Char(cell.ch) };
        self.data.map_grid(pick, Char(32))
    }

    /// Lays the given parts over the cell at `at`. Outside the layer nothing
    /// happens.
    pub fn set(&mut self, at: Coord, cell: OptionCell)
        requires
            old(self).wf(),
        ensures
            final(self).wf(),
            final(self).extent() == old(self).extent(),
            final(self).typeface() == old(self).typeface(),
            final(self).scaling() == old(self).scaling(),
            final(self).placement() == old(self).placement(),
            at.inside(old(self).extent()) ==> final(self).lookup(at) == cell.over(
                old(self).lookup(at),
            ),
            forall|c: Coord| c != at ==> final(self).lookup(c) == old(self).lookup(c),
            !at.inside(old(self).extent()) ==> final(self).lookup(at) == old(self).lookup(at),
    {
        if self.data.contains(at) {
            let under = *self.data.get(at).unwrap();
            *self.data.index_mut(at) = cell.apply(under);
        }
    }
}

impl<'a> Clone for Layer<'a> {
    /// A layer with the same font, scale and origin and a copy of the cells.
    fn clone(&self) -> (copy: Self)
        ensures
            copy.typeface() == self.typeface(),
            copy.scaling() == self.scaling(),
            copy.placement() == self.placement(),
            copy.extent() == self.extent(),
            copy.wf() == self.wf(),
            forall|c: Coord| copy.lookup(c) == self.lookup(c),
    {
        Layer { font: self.font, scale: self.scale, origin: self.origin, data: self.data.clone() }
    }
}

impl<'a> Grid for Layer<'a> {
    type CellType = Cell;

    open spec fn extent(&self) -> Coord {
        self.cells_grid().extent()
    }

    open spec fn lookup(&self, at: Coord) -> Cell {
        self.cells_grid().lookup(at)
    }

    open spec fn filler(&self) -> Cell {
        Cell {
            ch: 32,
            fg: Color { r: 255, g: 255, b: 255, a: 255 },
            bg: Color { r: 0, g: 0, b: 0, a: 0 },
        }
    }

    open spec fn wf(&self) -> bool {
        self.cells_grid().wf() && self.cells_grid().filler() == self.filler()
    }

    proof fn lemma_lookup_outside(&self, at: Coord) {
        self.cells_grid().lemma_lookup_outside(at);
    }

    fn size(&self) -> (dims: Coord) {
        self.data.size()
    }

    fn default(&self) -> (d: Cell) {
        Cell::default()
    }

    fn get(&self, index: Coord) -> (r: Option<&Cell>) {
        self.data.get(index)
    }
}

impl<'a> GridMut for Layer<'a> {
    fn get_mut(&mut self, index: Coord) -> (r: Option<&mut Cell>) {
        self.data.get_mut(index)
    }
}

impl<'a> Index<Coord> for Layer<'a> {
    type Output = Cell;

    /// `layer[place]`: the cell at a coordinate inside the layer.
    fn index(&self, index: Coord) -> (cell: &Cell)
        ensures
            *cell == self.lookup(index),
    {
        self.data.get(index).unwrap()
    }
}

impl<'a> vstd::std_specs::core::IndexSpecImpl<Coord> for Layer<'a> {
    open spec fn index_req(&self, index: &Coord) -> bool {
        self.wf() && index.inside(self.extent())
    }
}

impl<'a> IndexMut<Coord> for Layer<'a> {
    /// `layer[place] = cell`: the cell at a coordinate inside the layer.
    fn index_mut(&mut self, index: Coord) -> (cell: &mut Cell)
        requires
            old(self).wf(),
            index.inside(old(self).extent()),
        ensures
            final(self).wf(),
            final(self).extent() == old(self).extent(),
            final(self).typeface() == old(self).typeface(),
            final(self).scaling() == old(self).scaling(),
            final(self).placement() == old(self).placement(),
            *cell == old(self).lookup(index),
            final(self).lookup(index) == *final(cell),
            forall|c: Coord| c != index ==> final(self).lookup(c) == old(self).lookup(c),
    {
        self.data.index_mut(index)
    }
}

/// A scale as it is applied: at least 1 in each direction.
pub open spec fn applied(scale: PixelCoord) -> PixelCoord {
    PixelCoord(at_least_one(scale.0) as i32, at_least_one(scale.1) as i32)
}

impl<'a> Layer<'a> {
    /// Whether every cell of the layer can be drawn: it has a pixel
    /// position, and so has the far corner of its glyph.
    pub open spec fn drawable(&self) -> bool {
        &&& self.placed()
        &&& fits(at_least_one(self.scaling().0) * 8)
        &&& fits(at_least_one(self.scaling().1) * 8)
        &&& forall|c: Coord|
            c.inside(self.extent()) ==> fits(
                #[trigger] pixel_at(c.0, self.scaling().0, self.placement().0) + at_least_one(
                    self.scaling().0,
                ) * 8,
            )
        &&& forall|c: Coord|
            c.inside(self.extent()) ==> fits(
                #[trigger] pixel_at(c.1, self.scaling().1, self.placement().1) + at_least_one(
                    self.scaling().1,
                ) * 8,
            )
    }

    /// Whether `after` is the surface `before` with the cell at position `k`
    /// in reading order drawn on it.
    pub open spec fn cell_drawn<B: Fn(Color, &[u8]) -> [u8; 4]>(
        &self,
        blend: &B,
        before: Seq<u8>,
        after: Seq<u8>,
        width: int,
        k: int,
    ) -> bool {
        let at = nth_coord(self.extent(), k);
        let cell = self.lookup(at);
        blitted(
            blend,
            before,
            after,
            width,
            self.typeface().glyphs()[cell.ch as int],
            cell.fg,
            cell.bg,
            PixelCoord(
                pixel_at(at.0, self.scaling().0, self.placement().0) as i32,
                pixel_at(at.1, self.scaling().1, self.placement().1) as i32,
            ),
            applied(self.scaling()),
        )
    }

    /// Whether `after` is the surface `before` with all the cells of the
    /// layer drawn on it, one after the other in reading order: there are
    /// stages of the surface, one more than cells, that lead from `before`
    /// to `after`, each cell taking one stage to the next.
    pub open spec fn cells_drawn<B: Fn(Color, &[u8]) -> [u8; 4]>(
        &self,
        blend: &B,
        before: Seq<u8>,
        after: Seq<u8>,
        width: int,
    ) -> bool {
        exists|stages: Seq<Seq<u8>>|
            {
                &&& stages.len() == area(self.extent()) + 1
                &&& stages[0] == before
                &&& stages[stages.len() - 1] == after
                &&& forall|k: int, l: int|
                    0 <= k < area(self.extent()) && l == k + 1 ==> self.cell_drawn(
                        blend,
                        #[trigger] stages[k],
                        #[trigger] stages[l],
                        width,
                        k,
                    )
            }
    }

    /// Draws the Layer into the frame at its pixel position: every cell's
    /// glyph in the cell's colours, in reading order, each pixel blended
    /// into the frame by `blend`. The frame holds RGBA pixels, `width` of
    /// them to a row; what lies outside it is left out.
    pub fn draw<B: Fn(Color, &[u8]) -> [u8; 4]>(&self, pixels: &mut [u8], width: usize, blend: &B)
        requires
            self.wf(),
            self.drawable(),
            0 < width <= i32::MAX,
            rows_of(old(pixels)@.len() as int, width as int) <= i32::MAX,
            blends_pixels(blend),
        ensures
            self.cells_drawn(blend, old(pixels)@, final(pixels)@, width as int),
    {
        let scale = PixelCoord(
            if self.scale.0 < 1 {
                1
            } else {
                self.scale.0
            },
            if self.scale.1 < 1 {
                1
            } else {
                self.scale.1
            },
        );
        let ghost before = pixels@;
        let ghost mut stages: Seq<Seq<u8>> = seq![before];
        let mut it = self.cells();
        loop
            invariant_except_break
                it.wf(),
            invariant
                it.layer() == self,
                self.wf(),
                self.drawable(),
                scale == applied(self.scaling()),
                0 < width <= i32::MAX,
                pixels@.len() == before.len(),
                rows_of(before.len() as int, width as int) <= i32::MAX,
                blends_pixels(blend),
                0 <= it.position() <= area(self.extent()),
                stages.len() == it.position() + 1,
                stages[0] == before,
                stages[it.position()] == pixels@,
                forall|k: int, l: int|
                    0 <= k < it.position() && l == k + 1 ==> self.cell_drawn(
                        blend,
                        #[trigger] stages[k],
                        #[trigger] stages[l],
                        width as int,
                        k,
                    ),
            ensures
                it.position() == area(self.extent()),
            decreases area(self.extent()) - it.position(),
        {
            let ghost n = it.position();
            let ghost mid = pixels@;
            match it.next() {
                Some((glyph, fg, bg, pc)) => {
                    proof {
                        lemma_nth_coord_inside(self.extent(), n);
                        let at = nth_coord(self.extent(), n);
                        assert(self.places(at));
                    }
                    self.blit(pixels, width, glyph, fg, bg, pc, scale, blend);
                    proof {
                        let at = nth_coord(self.extent(), n);
                        let cell = self.lookup(at);
                        let corner = PixelCoord(
                            pixel_at(at.0, self.scaling().0, self.placement().0) as i32,
                            pixel_at(at.1, self.scaling().1, self.placement().1) as i32,
                        );
                        assert(pc == corner);
                        assert(blitted(
                            blend,
                            mid,
                            pixels@,
                            width as int,
                            self.typeface().glyphs()[cell.ch as int],
                            cell.fg,
                            cell.bg,
                            corner,
                            applied(self.scaling()),
                        ));
stages = stages.push(pixels@);
                        assert(self.cell_drawn(blend, mid, pixels@, width as int, n));
                    }
                },
                None => {
                    break ;
                },
            }
        }
    }

    /// Whether `after` is the surface `before` with the sprite drawn on it. A
    /// sprite's position counts from the position of the layer.
    pub open spec fn sprite_drawn<B: Fn(Color, &[u8]) -> [u8; 4]>(
        &self,
        blend: &B,
        sprite: Sprite,
        before: Seq<u8>,
        after: Seq<u8>,
        width: int,
    ) -> bool {
        blitted(
            blend,
            before,
            after,
            width,
            self.typeface().glyphs()[sprite.cell.ch as int],
            sprite.cell.fg,
            sprite.cell.bg,
            PixelCoord(
                (sprite.position.0 + self.placement().0) as i32,
                (sprite.position.1 + self.placement().1) as i32,
            ),
            applied(sprite.scale),
        )
    }

    /// Whether `after` is the surface `before` with the sprites drawn on it,
    /// one after the other: there are stages of the surface, one more than
    /// sprites, that lead from `before` to `after`, each sprite taking one
    /// stage to the next.
    pub open spec fn sprites_drawn<B: Fn(Color, &[u8]) -> [u8; 4]>(
        &self,
        blend: &B,
        sprites: Seq<Sprite>,
        before: Seq<u8>,
        after: Seq<u8>,
        width: int,
    ) -> bool {
        exists|stages: Seq<Seq<u8>>|
            {
                &&& stages.len() == sprites.len() + 1
                &&& stages[0] == before
                &&& stages[stages.len() - 1] == after
                &&& forall|k: int, l: int|
                    0 <= k < sprites.len() && l == k + 1 ==> self.sprite_drawn(
                        blend,
                        sprites[k],
                        #[trigger] stages[k],
                        #[trigger] stages[l],
                        width,
                    )
            }
    }

    /// Whether a sprite can be drawn with this layer: its position, counted
    /// from the layer's, and the far corner of its glyph fit an `i32`.
    pub open spec fn shows(&self, sprite: Sprite) -> bool {
        &&& fits(sprite.position.0 + self.placement().0)
        &&& fits(sprite.position.1 + self.placement().1)
        &&& fits(at_least_one(sprite.scale.0) * 8)
        &&& fits(at_least_one(sprite.scale.1) * 8)
        &&& fits(sprite.position.0 + self.placement().0 + at_least_one(sprite.scale.0) * 8)
        &&& fits(sprite.position.1 + self.placement().1 + at_least_one(sprite.scale.1) * 8)
    }

    /// Draw a list of sprites to the pixel buffer. Sprites aren't stored as
    /// part of the layer, but it's often useful to draw them with the same
    /// layout as the layer they're on top of. A sprite has a cell, a scale of
    /// its own (which still treats 1x as a minimum), and a position, which
    /// is an offset from the layer's position: moving the layer also moves
    /// the sprites it draws.
    pub fn draw_sprites<B: Fn(Color, &[u8]) -> [u8; 4]>(
        &self,
        sprites: &[Sprite],
        pixels: &mut [u8],
        width: usize,
        blend: &B,
    )
        requires
            forall|i: int| 0 <= i < sprites@.len() ==> self.shows(#[trigger] sprites@[i]),
            0 < width <= i32::MAX,
            rows_of(old(pixels)@.len() as int, width as int) <= i32::MAX,
            blends_pixels(blend),
        ensures
            self.sprites_drawn(blend, sprites@, old(pixels)@, final(pixels)@, width as int),
    {
        let ghost before = pixels@;
        let ghost mut stages: Seq<Seq<u8>> = seq![before];
        let mut i: usize = 0;
        while i < sprites.len()
            invariant
                i <= sprites.len(),
                forall|i: int| 0 <= i < sprites@.len() ==> self.shows(#[trigger] sprites@[i]),
                0 < width <= i32::MAX,
                pixels@.len() == before.len(),
                rows_of(before.len() as int, width as int) <= i32::MAX,
                blends_pixels(blend),
                stages.len() == i + 1,
                stages[0] == before,
                stages[i as int] == pixels@,
                forall|k: int, l: int|
                    0 <= k < i && l == k + 1 ==> self.sprite_drawn(
                        blend,
                        sprites@[k],
                        #[trigger] stages[k],
                        #[trigger] stages[l],
                        width as int,
                    ),
            decreases sprites.len() - i,
        {
            let sprite = sprites[i];
            let ghost mid = pixels@;
            let Cell { ch, fg, bg } = sprite.cell;
            let glyph = self.font[ch];
            let scale = PixelCoord(
                if sprite.scale.0 < 1 {
                    1
                } else {
                    sprite.scale.0
                },
                if sprite.scale.1 < 1 {
                    1
                } else {
                    sprite.scale.1
                },
            );
            proof {
                assert(self.shows(sprites@[i as int]));
            }
            let at = PixelCoord(sprite.position.0 + self.origin.0, sprite.position.1 + self.origin.1);
            self.blit(pixels, width, glyph, fg, bg, at, scale, blend);
            proof {
                let corner = PixelCoord(
                    (sprite.position.0 + self.placement().0) as i32,
                    (sprite.position.1 + self.placement().1) as i32,
                );
                assert(at == corner);
                assert(scale == applied(sprite.scale));
                assert(blitted(
                    blend,
                    mid,
                    pixels@,
                    width as int,
                    self.typeface().glyphs()[sprite.cell.ch as int],
                    sprite.cell.fg,
                    sprite.cell.bg,
                    corner,
                    applied(sprite.scale),
                ));
stages = stages.push(pixels@);
                assert(self.sprite_drawn(blend, sprite, mid, pixels@, width as int));
            }
            i += 1;
        }
    }
}

/// A walk over the characters of a `Layer`, usually created through
/// `Layer::cells`.
pub struct CharIterator<'a> {
    layer: &'a Layer<'a>,
    n: usize,
}

impl<'a> CharIterator<'a> {
    /// The layer being walked.
    pub closed spec fn layer(&self) -> &'a Layer<'a> {
        self.layer
    }

    /// How many cells have been handed out so far.
    pub closed spec fn position(&self) -> int {
        self.n as int
    }

    /// The walk belongs to a consistent layer whose cells all have pixel
    /// positions, and has not run past it.
    pub open spec fn wf(&self) -> bool {
        &&& self.layer().wf()
        &&& self.layer().placed()
        &&& 0 <= self.position() <= area(self.layer().extent())
    }

    /// Hands out the glyph, the foreground, the background and the pixel
    /// position of the next cell in reading order, or `None` at the end.
    pub fn next(&mut self) -> (r: Option<(Glyph, Color, Color, PixelCoord)>)
        requires
            old(self).wf(),
        ensures
            final(self).wf(),
            final(self).layer() == old(self).layer(),
            old(self).position() < area(old(self).layer().extent()) ==> {
                let at = nth_coord(old(self).layer().extent(), old(self).position());
                let cell = old(self).layer().lookup(at);
                &&& final(self).position() == old(self).position() + 1
                &&& r matches Some((glyph, fg, bg, pc))
                &&& glyph == old(self).layer().typeface().glyphs()[cell.ch as int]
                &&& fg == cell.fg
                &&& bg == cell.bg
                &&& pc.0 == pixel_at(at.0, old(self).layer().scaling().0, old(self).layer().placement().0)
                &&& pc.1 == pixel_at(at.1, old(self).layer().scaling().1, old(self).layer().placement().1)
            },
            old(self).position() >= area(old(self).layer().extent()) ==> {
                &&& r.is_none()
                &&& final(self).position() == old(self).position()
            },
    {
        let n = self.n;
        let dims = self.layer.size();
        if dims.0 <= 0 || dims.1 <= 0 {
            return None;
        }
        let total: i64 = dims.0 as i64 * dims.1 as i64;
        if (n as i64) < total {
            self.n = n + 1;
            let coord = self.layer.data.coord(n);
            let c = *self.layer.data.get(coord).unwrap();
            let glyph = self.layer.font[c.ch];
            Some((glyph, c.fg, c.bg, self.layer.pixel_coord(coord)))
        } else {
            None
        }
    }
}

} // verus!
