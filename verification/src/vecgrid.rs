//! A grid stored densely in a vector, row by row.

use vstd::prelude::*;
use vstd::std_specs::iter::IteratorSpec;
use core::ops::{Index, IndexMut};
use crate::coords::{area, lemma_linear_index_inside, lemma_linear_index_injective, lemma_nth_coord_inside, linear_index, nth_coord, xy, Coord};
use crate::grid::{Grid, GridMut};

verus! {

/// An implementation of [`Grid`] backed by a `Vec`.
///
/// The cells are kept in reading order. The extent is fixed when the grid is
/// made, and `width * height` cells are stored.
pub struct VecGrid<T> {
    cells: Vec<T>,
    width: usize,
    height: usize,
    default: T,
}

impl<T> VecGrid<T> {
    /// The stored cells in reading order.
    pub closed spec fn cells(&self) -> Seq<T> {
        self.cells@
    }

    /// The number of columns.
    pub closed spec fn columns(&self) -> int {
        self.width as int
    }

    /// The number of rows.
    pub closed spec fn rows(&self) -> int {
        self.height as int
    }

    /// The value read outside the extent.
    pub closed spec fn fill(&self) -> T {
        self.default
    }
}

impl<T> View for VecGrid<T> {
    type V = Seq<T>;

    /// A grid is viewed as its cells in reading order.
    open spec fn view(&self) -> Seq<T> {
        self.cells()
    }
}

impl<T: Copy> Grid for VecGrid<T> {
    type CellType = T;

    open spec fn extent(&self) -> Coord {
        Coord(self.columns() as i32, self.rows() as i32)
    }

    open spec fn lookup(&self, at: Coord) -> T {
        if at.inside(self.extent()) {
            self.cells()[linear_index(self.extent(), at)]
        } else {
            self.fill()
        }
    }

    open spec fn filler(&self) -> T {
        self.fill()
    }

    open spec fn wf(&self) -> bool {
        &&& 0 <= self.columns() <= i32::MAX
        &&& 0 <= self.rows() <= i32::MAX
        &&& self.cells().len() == self.columns() * self.rows()
        &&& self.cells().len() <= i32::MAX
    }

    proof fn lemma_lookup_outside(&self, at: Coord) {
        assert(self.filler() == self.fill());
    }

    fn size(&self) -> (dims: Coord) {
        xy(self.width as i32, self.height as i32)
    }

    fn default(&self) -> (d: T) {
        assert(self.filler() == self.fill());
        self.default
    }

    fn get(&self, index: Coord) -> (r: Option<&T>) {
        if self.contains(index) {
            proof {
                lemma_linear_index_inside(self.extent(), index);
            }
            Some(&self.cells[index.1 as usize * self.width + index.0 as usize])
        } else {
            None
        }
    }
}

impl<T: Copy> GridMut for VecGrid<T> {
    fn get_mut(&mut self, index: Coord) -> (r: Option<&mut T>) {
        if self.contains(index) {
            proof {
                lemma_linear_index_inside(self.extent(), index);
                assert forall|c: Coord| c.inside(self.extent()) && c != index implies {
                    &&& 0 <= #[trigger] linear_index(self.extent(), c) < self.cells().len()
                    &&& linear_index(self.extent(), c) != linear_index(self.extent(), index)
                } by {
                    lemma_linear_index_inside(self.extent(), c);
                    lemma_linear_index_injective(self.extent(), c, index);
                }
            }
            Some(&mut self.cells[index.1 as usize * self.width + index.0 as usize])
        } else {
            None
        }
    }
}

impl<T: Copy> VecGrid<T> {
    /// Makes a grid of the given size with every cell set to `default`.
    pub fn new(size: Coord, default: T) -> (grid: VecGrid<T>)
        requires
            0 <= size.0,
            0 <= size.1,
            size.0 * size.1 <= i32::MAX,
        ensures
            grid.wf(),
            grid.extent() == size,
            grid.filler() == default,
            grid@ == Seq::new((size.0 * size.1) as nat, |i: int| default),
            forall|c: Coord| grid.lookup(c) == default,
    {
        let (width, height) = (size.0 as usize, size.1 as usize);
        assert(size.0 * size.1 >= 0) by (nonlinear_arith)
            requires
                0 <= size.0,
                0 <= size.1,
        ;
        let total: usize = width * height;
        let mut cells: Vec<T> = Vec::with_capacity(total);
        while cells.len() < total
            invariant
                cells.len() <= total,
                forall|i: int| 0 <= i < cells.len() ==> cells[i] == default,
            decreases total - cells.len(),
        {
            cells.push(default);
        }
        let grid = Self { cells, width, height, default };
        proof {
            assert(grid@ =~= Seq::new((size.0 * size.1) as nat, |i: int| default));
            assert forall|c: Coord| grid.lookup(c) == default by {
                if c.inside(grid.extent()) {
                    lemma_linear_index_inside(grid.extent(), c);
                }
            }
        }
        grid
    }

    /// Makes a grid from cells given in reading order, `width` of them to a
    /// row. Cells after the last full row are dropped; with a width of zero
    /// the grid is empty.
    pub fn from_vec(cells: Vec<T>, width: usize, default: T) -> (grid: VecGrid<T>)
        requires
            cells.len() <= i32::MAX,
            width <= i32::MAX,
        ensures
            grid.wf(),
            grid.extent() == Coord(width as i32, full_rows(cells.len() as int, width as int) as i32),
            grid.filler() == default,
            grid@ == cells@.take(width * full_rows(cells.len() as int, width as int)),
    {
        let mut cells = cells;
        let height: usize = if width == 0 {
            0
        } else {
            cells.len() / width
        };
        proof {
            if width > 0 {
                let n = cells.len() as int;
                let w = width as int;
                vstd::arithmetic::div_mod::lemma_fundamental_div_mod(n, w);
                assert(0 <= (n / w) * w <= n) by (nonlinear_arith)
                    requires
                        n == w * (n / w) + n % w,
                        0 <= n % w < w,
                        0 < w,
                        0 <= n,
                ;
                assert(n / w <= n) by (nonlinear_arith)
                    requires
                        0 <= (n / w) * w <= n,
                        0 < w,
                        0 <= n,
                ;
                assert(w * (n / w) == (n / w) * w) by (nonlinear_arith);
            }
        }
        cells.truncate(width * height);
        Self { cells, width, height, default }
    }

    /// Builds a new grid of the same extent whose cells are `func` applied to
    /// each coordinate and cell of this one.
    pub fn map_grid<A: Copy, F: Fn(Coord, &T) -> A>(&self, func: F, default: A) -> (out: VecGrid<A>)
        requires
            self.wf(),
            forall|c: Coord|
                c.inside(self.extent()) ==> call_requires(func, (c, &#[trigger] self.lookup(c))),
        ensures
            out.wf(),
            out.extent() == self.extent(),
            out.filler() == default,
            forall|c: Coord|
                c.inside(self.extent()) ==> call_ensures(
                    func,
                    (c, &self.lookup(c)),
                    #[trigger] out.lookup(c),
                ),
    {
        let list = self.map(func);
        let out = VecGrid { cells: list, width: self.width, height: self.height, default };
        proof {
            assert(area(self.extent()) == self.columns() * self.rows()) by (nonlinear_arith)
                requires
                    self.extent() == Coord(self.columns() as i32, self.rows() as i32),
                    0 <= self.columns() <= i32::MAX,
                    0 <= self.rows() <= i32::MAX,
                    area(self.extent()) == if self.extent().0 <= 0 || self.extent().1 <= 0 {
                        0
                    } else {
                        self.extent().0 * self.extent().1
                    },
            ;
            assert forall|c: Coord| c.inside(self.extent()) implies call_ensures(
                func,
                (c, &self.lookup(c)),
                #[trigger] out.lookup(c),
            ) by {
                lemma_linear_index_inside(self.extent(), c);
                assert(out.lookup(c) == list[linear_index(self.extent(), c)]);
            }
        }
        out
    }

    /// Replaces the cell at `at`. Outside the grid nothing happens.
    pub fn set(&mut self, at: Coord, value: T)
        requires
            old(self).wf(),
        ensures
            final(self).wf(),
            final(self).extent() == old(self).extent(),
            final(self).filler() == old(self).filler(),
            at.inside(old(self).extent()) ==> final(self).lookup(at) == value,
            at.inside(old(self).extent()) ==> final(self)@ == old(self)@.update(
                linear_index(old(self).extent(), at),
                value,
            ),
            !at.inside(old(self).extent()) ==> final(self)@ == old(self)@,
            forall|c: Coord| c != at ==> final(self).lookup(c) == old(self).lookup(c),
    {
        if self.contains(at) {
            proof {
                lemma_linear_index_inside(self.extent(), at);
                assert forall|c: Coord| c.inside(self.extent()) && c != at implies {
                    &&& 0 <= #[trigger] linear_index(self.extent(), c) < self.cells().len()
                    &&& linear_index(self.extent(), c) != linear_index(self.extent(), at)
                } by {
                    lemma_linear_index_inside(self.extent(), c);
                    lemma_linear_index_injective(self.extent(), c, at);
                }
            }
            self.cells.set(at.1 as usize * self.width + at.0 as usize, value);
        }
    }
}

/// The number of full rows that `len` cells make at `width` cells to a row.
pub open spec fn full_rows(len: int, width: int) -> int {
    if width <= 0 {
        0
    } else {
        len / width
    }
}

impl<T: Copy> Clone for VecGrid<T> {
    fn clone(&self) -> (copy: Self)
        ensures
            copy@ == self@,
            copy.columns() == self.columns(),
            copy.rows() == self.rows(),
            copy.fill() == self.fill(),
    {
        let mut cells: Vec<T> = Vec::with_capacity(self.cells.len());
        let mut i: usize = 0;
        while i < self.cells.len()
            invariant
                i <= self.cells.len(),
                cells@ == self.cells@.take(i as int),
            decreases self.cells.len() - i,
        {
            cells.push(self.cells[i]);
            i += 1;
            assert(cells@ =~= self.cells@.take(i as int));
        }
        assert(cells@ =~= self.cells@);
        Self { cells, width: self.width, height: self.height, default: self.default }
    }
}

impl<T: Copy> Index<Coord> for VecGrid<T> {
    type Output = T;

    /// `grid[place]`: the cell at a coordinate inside the grid.
    fn index(&self, index: Coord) -> (cell: &T)
        ensures
            *cell == self.lookup(index),
    {
        self.get(index).unwrap()
    }
}

impl<T: Copy> vstd::std_specs::core::IndexSpecImpl<Coord> for VecGrid<T> {
    open spec fn index_req(&self, index: &Coord) -> bool {
        self.wf() && index.inside(self.extent())
    }
}

impl<T: Copy> IndexMut<Coord> for VecGrid<T> {
    /// `grid[place] = value`: the cell at a coordinate inside the grid.
    /// Writing through the reference changes that one cell and nothing else.
    fn index_mut(&mut self, index: Coord) -> (cell: &mut T)
        requires
            old(self).wf(),
            index.inside(old(self).extent()),
        ensures
            final(self).wf(),
            final(self).extent() == old(self).extent(),
            final(self).filler() == old(self).filler(),
            *cell == old(self).lookup(index),
            final(self).lookup(index) == *final(cell),
            final(self)@ == old(self)@.update(linear_index(old(self).extent(), index), *final(cell)),
            forall|c: Coord| c != index ==> final(self).lookup(c) == old(self).lookup(c),
    {
        proof {
            lemma_linear_index_inside(self.extent(), index);
            assert forall|c: Coord| c.inside(self.extent()) && c != index implies {
                &&& 0 <= #[trigger] linear_index(self.extent(), c) < self.cells().len()
                &&& linear_index(self.extent(), c) != linear_index(self.extent(), index)
            } by {
                lemma_linear_index_inside(self.extent(), c);
                lemma_linear_index_injective(self.extent(), c, index);
            }
        }
        &mut self.cells[index.1 as usize * self.width + index.0 as usize]
    }
}

/// Whether position `i` of `text` holds a line break: a line feed, or a
/// carriage return directly before one.
pub open spec fn is_break(text: Seq<char>, i: int) -> bool {
    text[i] == '\n' || (text[i] == '\r' && i + 1 < text.len() && text[i + 1] == '\n')
}

/// The first `upto` characters of `text` without their line breaks.
pub open spec fn unbroken(text: Seq<char>, upto: int) -> Seq<char>
    decreases upto,
{
    if upto <= 0 {
        Seq::empty()
    } else if is_break(text, upto - 1) {
        unbroken(text, upto - 1)
    } else {
        unbroken(text, upto - 1).push(text[upto - 1])
    }
}

/// The position of the first line feed at or after `from`, or the length of
/// the text where there is none.
pub open spec fn first_newline(text: Seq<char>, from: int) -> int
    decreases text.len() - from,
{
    if from >= text.len() {
        text.len() as int
    } else if text[from] == '\n' {
        from
    } else {
        first_newline(text, from + 1)
    }
}

/// The length of the first line of `text`, its line break not counted.
pub open spec fn first_line_len(text: Seq<char>) -> int {
    unbroken(text, first_newline(text, 0)).len() as int
}

/// The characters of a text, one by one.
fn text_chars(text: &str) -> (out: Vec<char>)
    ensures
        out@ == text@,
{
    let mut out: Vec<char> = Vec::new();
    let chars = text.chars();
    for c in it: chars
        invariant
            out@ == it.seq().take(it.index() as int),
            it.seq() == text@,
    {
        out.push(c);
        assert(out@ =~= it.seq().take(it.index() + 1));
    }
    assert(out@ =~= text@);
    out
}

proof fn lemma_unbroken_len(text: Seq<char>, upto: int)
    requires
        0 <= upto <= text.len(),
    ensures
        unbroken(text, upto).len() <= upto,
    decreases upto,
{
    if upto > 0 {
        lemma_unbroken_len(text, upto - 1);
    }
}

proof fn lemma_first_newline_step(text: Seq<char>, from: int, i: int)
    requires
        0 <= from <= i <= text.len(),
        forall|k: int| from <= k < i ==> text[k] != '\n',
    ensures
        first_newline(text, from) == first_newline(text, i),
    decreases i - from,
{
    if from < i {
        lemma_first_newline_step(text, from + 1, i);
    }
}

impl VecGrid<char> {
    /// Reads a grid of characters from text, one row to a line. The first
    /// line gives the width; the filler is a space.
    pub fn from(value: &str) -> (grid: Self)
        requires
            value@.len() <= i32::MAX,
        ensures
            grid.wf(),
            grid.filler() == ' ',
            grid.extent() == Coord(
                first_line_len(value@) as i32,
                full_rows(
                    unbroken(value@, value@.len() as int).len() as int,
                    first_line_len(value@),
                ) as i32,
            ),
            grid@ == unbroken(value@, value@.len() as int).take(
                first_line_len(value@) * full_rows(
                    unbroken(value@, value@.len() as int).len() as int,
                    first_line_len(value@),
                ),
            ),
    {
        let text = text_chars(value);
        let mut cells: Vec<char> = Vec::new();
        let mut width: usize = 0;
        let mut seen_newline = false;
        let mut i: usize = 0;
        while i < text.len()
            invariant
                i <= text.len(),
                text@ == value@,
                text.len() <= i32::MAX,
                cells@ == unbroken(text@, i as int),
                width <= text.len(),
                seen_newline ==> width == first_line_len(text@),
                !seen_newline ==> forall|k: int| 0 <= k < i ==> text[k] != '\n',
            decreases text.len() - i,
        {
            let c = text[i];
            let is_break = c == '\n' || (c == '\r' && i + 1 < text.len() && text[i + 1] == '\n');
            if c == '\n' && !seen_newline {
                proof {
                    lemma_first_newline_step(text@, 0, i as int);
                    lemma_unbroken_len(text@, i as int);
                }
                width = cells.len();
                seen_newline = true;
            }
            if !is_break {
                cells.push(c);
            }
            i += 1;
        }
        proof {
            lemma_unbroken_len(text@, text.len() as int);
        }
        if !seen_newline {
            proof {
                lemma_first_newline_step(text@, 0, text.len() as int);
            }
            width = cells.len();
        }
        VecGrid::from_vec(cells, width, ' ')
    }
}

/// The stored rows joined by line feeds.
pub open spec fn rows_text(cells: Seq<char>, width: int, upto: int) -> Seq<char>
    decreases upto,
{
    if upto <= 0 {
        Seq::empty()
    } else if width > 0 && (upto - 1) % width == 0 && upto - 1 > 0 {
        rows_text(cells, width, upto - 1).push('\n').push(cells[upto - 1])
    } else {
        rows_text(cells, width, upto - 1).push(cells[upto - 1])
    }
}

/// `String::push` of the standard library appends the character to the end
/// of the string.
///
/// Trusted: the standard library documents this, and nothing here checks it.
pub assume_specification[ String::push ](s: &mut String, ch: char)
    ensures
        final(s)@ == old(s)@.push(ch),
;

impl VecGrid<char> {
    /// Writes the grid out as text, one line to a row, with a line feed
    /// between rows.
    pub fn to_text(&self) -> (text: String)
        ensures
            text@ == rows_text(self@, self.columns(), self@.len() as int),
    {
        let mut s = String::new();
        let mut i: usize = 0;
        while i < self.cells.len()
            invariant
                i <= self.cells.len(),
                s@ == rows_text(self@, self.columns(), i as int),
            decreases self.cells.len() - i,
        {
            if self.width > 0 && i % self.width == 0 && i > 0 {
                s.push('\n');
            }
            s.push(self.cells[i]);
            i += 1;
        }
        s
    }
}

} // verus!
