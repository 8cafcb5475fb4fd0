//! The grid abstraction: anything that can be read by [`Coord`] within fixed
//! bounds, with a default value standing in for everything outside.

use vstd::prelude::*;
use crate::coords::{area, lemma_nth_coord_inside, linear_index, nth_coord, xy, Coord};
use crate::equality::{cell_eq, cell_eq_known};

verus! {

/// `point` alone where it lies inside `extent`, nothing otherwise.
pub open spec fn keep_inside(extent: Coord, point: Coord) -> Seq<Coord> {
    if point.inside(extent) {
        seq![point]
    } else {
        Seq::empty()
    }
}

/// The orthogonal neighbours of `point` that lie inside `extent`, in the order
/// north, east, south, west.
pub open spec fn inside_neighbors(extent: Coord, point: Coord) -> Seq<Coord> {
    keep_inside(extent, point.shifted(0, -1)) + keep_inside(extent, point.shifted(1, 0))
        + keep_inside(extent, point.shifted(0, 1)) + keep_inside(extent, point.shifted(-1, 0))
}

/// Whether `==` can answer `same` when asked whether `a` equals `b`. For
/// characters, integers, `bool` and the cells of this library that fixes
/// the answer.
pub open spec fn compares<T: PartialEq>(a: &T, b: &T, same: bool) -> bool {
    call_ensures(<T as PartialEq>::eq, (a, b), same)
}

/// `==` on characters: whether the two are the same character.
///
/// Trusted: the standard library documents this, and nothing here checks it.
pub assume_specification[ <char as PartialEq<char>>::eq ](x: &char, y: &char) -> (r: bool)
    ensures
        r == (*x == *y),
;

/// Operations on a rectangular grid of cells.
///
/// A grid is modelled by its extent and by `lookup`, which says what is read
/// at every coordinate: the stored cell inside the extent, the filler outside.
pub trait Grid: Sized {
    /// The type of thing this is a grid of.
    type CellType;

    /// The grid's extent: `(width, height)`.
    spec fn extent(&self) -> Coord;

    /// What is read at a coordinate, inside the extent or not.
    spec fn lookup(&self, at: Coord) -> Self::CellType;

    /// The value that stands in for cells outside the extent.
    spec fn filler(&self) -> Self::CellType;

    /// The representation is consistent, and small enough to be walked with
    /// 32-bit positions.
    spec fn wf(&self) -> bool;

    /// Outside the extent every lookup reads the filler.
    proof fn lemma_lookup_outside(&self, at: Coord)
        requires
            self.wf(),
        ensures
            !at.inside(self.extent()) ==> self.lookup(at) == self.filler(),
    ;

    /// Return how large the grid is.
    fn size(&self) -> (dims: Coord)
        requires
            self.wf(),
        ensures
            dims == self.extent(),
            area(dims) <= i32::MAX,
    ;

    /// The default value to use for unset cells in the grid (or if we look at
    /// a cell outside the grid).
    fn default(&self) -> (d: Self::CellType)
        requires
            self.wf(),
        ensures
            d == self.filler(),
    ;

    /// Get a cell in the grid: `Some` for any point within the size of the
    /// grid, and `None` for any point outside the grid.
    fn get(&self, index: Coord) -> (r: Option<&Self::CellType>)
        requires
            self.wf(),
        ensures
            index.inside(self.extent()) ==> r == Some(&self.lookup(index)),
            !index.inside(self.extent()) ==> r.is_none(),
    ;

    /// Is a given point inside the grid?
    fn contains(&self, point: Coord) -> (b: bool)
        requires
            self.wf(),
        ensures
            b == point.inside(self.extent()),
    {
        let dims = self.size();
        !(point.0 < 0 || point.1 < 0 || point.1 >= dims.1 || point.0 >= dims.0)
    }

    /// Returns the `Coord` of the `n`-th cell in the grid, in reading order:
    /// left-to-right, top-to-bottom. This is also the order in which `iter`
    /// traverses the grid.
    fn coord(&self, n: usize) -> (c: Coord)
        requires
            self.wf(),
            n < area(self.extent()),
        ensures
            c == nth_coord(self.extent(), n as int),
            c.inside(self.extent()),
    {
        let Coord(width, _) = self.size();
        proof {
            lemma_nth_coord_inside(self.extent(), n as int);
        }
        xy(n as i32 % width, n as i32 / width)
    }

    /// Starts a traversal of the cells in reading order.
    fn iter(&self) -> (it: GridIterator<'_, Self>)
        requires
            self.wf(),
        ensures
            it.grid() == self,
            it.position() == 0,
    {
        GridIterator { grid: self, n: 0 }
    }

    /// Applies `func` to every cell in reading order and collects the results.
    fn map<A, F: Fn(Coord, &Self::CellType) -> A>(&self, func: F) -> (out: Vec<A>)
        requires
            self.wf(),
            forall|c: Coord|
                c.inside(self.extent()) ==> call_requires(func, (c, &#[trigger] self.lookup(c))),
        ensures
            out.len() == area(self.extent()),
            forall|n: int|
                0 <= n < out.len() ==> call_ensures(
                    func,
                    (nth_coord(self.extent(), n), &self.lookup(nth_coord(self.extent(), n))),
                    #[trigger] out[n],
                ),
    {
        let dims = self.size();
        let total: usize = if dims.0 <= 0 || dims.1 <= 0 {
            0
        } else {
            (dims.0 as i64 * dims.1 as i64) as usize
        };
        let mut out: Vec<A> = Vec::with_capacity(total);
        let mut it = dims.into_iter();
        loop
            invariant_except_break
                self.wf(),
                dims == self.extent(),
                it.wf(),
                it.extent() == dims,
                it.position() == out.len(),
                out.len() <= area(dims),
            invariant
                forall|c: Coord|
                    c.inside(self.extent()) ==> call_requires(
                        func,
                        (c, &#[trigger] self.lookup(c)),
                    ),
                forall|n: int|
                    0 <= n < out.len() ==> call_ensures(
                        func,
                        (nth_coord(self.extent(), n), &self.lookup(nth_coord(self.extent(), n))),
                        #[trigger] out[n],
                    ),
            ensures
                out.len() == area(self.extent()),
            decreases area(dims) - it.position(),
        {
            match it.next() {
                Some(pt) => {
                    proof {
                        lemma_nth_coord_inside(dims, out.len() as int);
                    }
                    let cell = self.get(pt).unwrap();
                    out.push(func(pt, cell));
                },
                None => {
                    break ;
                },
            }
        }
        out
    }

    /// Runs a given function on all orthogonally-adjacent cells, running it on
    /// the default for any cells not in the grid. The results come back in
    /// the order north, south, east, west.
    fn for_neighbors<T, F: Fn(Coord, &Self::CellType) -> T>(&self, point: Coord, func: F) -> (r: (
        T,
        T,
        T,
        T,
    ))
        requires
            self.wf(),
            point.can_shift(1, 1),
            point.can_shift(-1, -1),
            call_requires(func, (point.shifted(0, -1), &self.lookup(point.shifted(0, -1)))),
            call_requires(func, (point.shifted(0, 1), &self.lookup(point.shifted(0, 1)))),
            call_requires(func, (point.shifted(1, 0), &self.lookup(point.shifted(1, 0)))),
            call_requires(func, (point.shifted(-1, 0), &self.lookup(point.shifted(-1, 0)))),
        ensures
            call_ensures(func, (point.shifted(0, -1), &self.lookup(point.shifted(0, -1))), r.0),
            call_ensures(func, (point.shifted(0, 1), &self.lookup(point.shifted(0, 1))), r.1),
            call_ensures(func, (point.shifted(1, 0), &self.lookup(point.shifted(1, 0))), r.2),
            call_ensures(func, (point.shifted(-1, 0), &self.lookup(point.shifted(-1, 0))), r.3),
    {
        let def = self.default();
        let Coord(x, y) = point;
        proof {
            self.lemma_lookup_outside(point.shifted(0, -1));
            self.lemma_lookup_outside(point.shifted(0, 1));
            self.lemma_lookup_outside(point.shifted(1, 0));
            self.lemma_lookup_outside(point.shifted(-1, 0));
        }
        let n = func(xy(x, y - 1), self.get(xy(x, y - 1)).unwrap_or(&def));
        let s = func(xy(x, y + 1), self.get(xy(x, y + 1)).unwrap_or(&def));
        let e = func(xy(x + 1, y), self.get(xy(x + 1, y)).unwrap_or(&def));
        let w = func(xy(x - 1, y), self.get(xy(x - 1, y)).unwrap_or(&def));
        (n, s, e, w)
    }
    /// Just like `for_neighbors`, except that it visits the diagonal
    /// neighbours and returns `(ne, se, sw, nw)`.
    fn for_diagonals<T, F: Fn(Coord, &Self::CellType) -> T>(&self, point: Coord, func: F) -> (r: (
        T,
        T,
        T,
        T,
    ))
        requires
            self.wf(),
            point.can_shift(1, 1),
            point.can_shift(-1, -1),
            call_requires(func, (point.shifted(1, -1), &self.lookup(point.shifted(1, -1)))),
            call_requires(func, (point.shifted(1, 1), &self.lookup(point.shifted(1, 1)))),
            call_requires(func, (point.shifted(-1, 1), &self.lookup(point.shifted(-1, 1)))),
            call_requires(func, (point.shifted(-1, -1), &self.lookup(point.shifted(-1, -1)))),
        ensures
            call_ensures(func, (point.shifted(1, -1), &self.lookup(point.shifted(1, -1))), r.0),
            call_ensures(func, (point.shifted(1, 1), &self.lookup(point.shifted(1, 1))), r.1),
            call_ensures(func, (point.shifted(-1, 1), &self.lookup(point.shifted(-1, 1))), r.2),
            call_ensures(func, (point.shifted(-1, -1), &self.lookup(point.shifted(-1, -1))), r.3),
    {
        let def = self.default();
        let Coord(x, y) = point;
        proof {
            self.lemma_lookup_outside(point.shifted(1, -1));
            self.lemma_lookup_outside(point.shifted(1, 1));
            self.lemma_lookup_outside(point.shifted(-1, 1));
            self.lemma_lookup_outside(point.shifted(-1, -1));
        }
        let ne = func(xy(x + 1, y - 1), self.get(xy(x + 1, y - 1)).unwrap_or(&def));
        let se = func(xy(x + 1, y + 1), self.get(xy(x + 1, y + 1)).unwrap_or(&def));
        let sw = func(xy(x - 1, y + 1), self.get(xy(x - 1, y + 1)).unwrap_or(&def));
        let nw = func(xy(x - 1, y - 1), self.get(xy(x - 1, y - 1)).unwrap_or(&def));
        (ne, se, sw, nw)
    }

    /// The coordinates of our orthogonal neighbours, but only the ones
    /// actually in the grid, in the order north, east, south, west.
    fn neighbor_coords(&self, point: Coord) -> (out: Vec<Coord>)
        requires
            self.wf(),
            point.can_shift(1, 1),
            point.can_shift(-1, -1),
        ensures
            out@ == inside_neighbors(self.extent(), point),
    {
        let dims = self.size();
        let mut out: Vec<Coord> = Vec::new();
        if point.north().within(dims) {
            out.push(point.north());
        }
        if point.east().within(dims) {
            out.push(point.east());
        }
        if point.south().within(dims) {
            out.push(point.south());
        }
        if point.west().within(dims) {
            out.push(point.west());
        }
        proof {
            let e = self.extent();
            let n = keep_inside(e, point.shifted(0, -1));
            let ea = keep_inside(e, point.shifted(1, 0));
            let so = keep_inside(e, point.shifted(0, 1));
            let w = keep_inside(e, point.shifted(-1, 0));
            assert(out@ =~= n + ea + so + w);
        }
        out
    }

    /// Convenience method for `for_neighbors` just comparing with `==`.
    fn neighbors_equal(&self, point: Coord, val: Self::CellType) -> (r: (bool, bool, bool, bool)) where
        Self::CellType: PartialEq,

        requires
            self.wf(),
            point.can_shift(1, 1),
            point.can_shift(-1, -1),
        ensures
            compares(&self.lookup(point.shifted(0, -1)), &val, r.0),
            compares(&self.lookup(point.shifted(0, 1)), &val, r.1),
            compares(&self.lookup(point.shifted(1, 0)), &val, r.2),
            compares(&self.lookup(point.shifted(-1, 0)), &val, r.3),
            cell_eq_known::<Self::CellType>() ==> {
                &&& r.0 == cell_eq(&self.lookup(point.shifted(0, -1)), &val)
                &&& r.1 == cell_eq(&self.lookup(point.shifted(0, 1)), &val)
                &&& r.2 == cell_eq(&self.lookup(point.shifted(1, 0)), &val)
                &&& r.3 == cell_eq(&self.lookup(point.shifted(-1, 0)), &val)
            },
    {
        let same = |c: Coord, cell: &Self::CellType| -> (b: bool)
            ensures
                compares(cell, &val, b),
                cell_eq_known::<Self::CellType>() ==> b == cell_eq(cell, &val),
            { *cell == val };
        self.for_neighbors(point, same)
    }

    /// Convenience method for `for_diagonals` just comparing with `==`.
    fn diagonals_equal(&self, point: Coord, val: Self::CellType) -> (r: (bool, bool, bool, bool)) where
        Self::CellType: PartialEq,

        requires
            self.wf(),
            point.can_shift(1, 1),
            point.can_shift(-1, -1),
        ensures
            compares(&self.lookup(point.shifted(1, -1)), &val, r.0),
            compares(&self.lookup(point.shifted(1, 1)), &val, r.1),
            compares(&self.lookup(point.shifted(-1, 1)), &val, r.2),
            compares(&self.lookup(point.shifted(-1, -1)), &val, r.3),
            cell_eq_known::<Self::CellType>() ==> {
                &&& r.0 == cell_eq(&self.lookup(point.shifted(1, -1)), &val)
                &&& r.1 == cell_eq(&self.lookup(point.shifted(1, 1)), &val)
                &&& r.2 == cell_eq(&self.lookup(point.shifted(-1, 1)), &val)
                &&& r.3 == cell_eq(&self.lookup(point.shifted(-1, -1)), &val)
            },
    {
        let same = |c: Coord, cell: &Self::CellType| -> (b: bool)
            ensures
                compares(cell, &val, b),
                cell_eq_known::<Self::CellType>() ==> b == cell_eq(cell, &val),
            { *cell == val };
        self.for_diagonals(point, same)
    }

    /// Returns the first coordinate, in reading order, of a cell that fits
    /// the given filter, or `None` where no cell does.
    fn find<F: Fn(&Self::CellType) -> bool>(&self, test: F) -> (r: Option<Coord>)
        requires
            self.wf(),
            forall|c: Coord|
                c.inside(self.extent()) ==> call_requires(test, (&#[trigger] self.lookup(c),)),
        ensures
            match r {
                Some(c) => exists|n: int|
                    {
                        &&& 0 <= n < area(self.extent())
                        &&& c == nth_coord(self.extent(), n)
                        &&& call_ensures(test, (&self.lookup(c),), true)
                        &&& forall|m: int|
                            0 <= m < n ==> call_ensures(
                                test,
                                (&self.lookup(#[trigger] nth_coord(self.extent(), m)),),
                                false,
                            )
                    },
                None => forall|m: int|
                    0 <= m < area(self.extent()) ==> call_ensures(
                        test,
                        (&self.lookup(#[trigger] nth_coord(self.extent(), m)),),
                        false,
                    ),
            },
    {
        let dims = self.size();
        let mut it = dims.into_iter();
        loop
            invariant
                self.wf(),
                dims == self.extent(),
                it.wf(),
                it.extent() == dims,
                forall|c: Coord|
                    c.inside(self.extent()) ==> call_requires(test, (&#[trigger] self.lookup(c),)),
                forall|m: int|
                    0 <= m < it.position() ==> call_ensures(
                        test,
                        (&self.lookup(#[trigger] nth_coord(self.extent(), m)),),
                        false,
                    ),
            decreases area(dims) - it.position(),
        {
            let ghost n = it.position();
            match it.next() {
                Some(c) => {
                    proof {
                        lemma_nth_coord_inside(dims, n);
                    }
                    if test(self.get(c).unwrap()) {
                        return Some(c);
                    }
                },
                None => {
                    return None;
                },
            }
        }
    }

    /// Returns every coordinate whose cell fits the given filter, in reading
    /// order.
    fn find_all<F: Fn(&Self::CellType) -> bool>(&self, test: F) -> (out: Vec<Coord>)
        requires
            self.wf(),
            forall|c: Coord|
                c.inside(self.extent()) ==> call_requires(test, (&#[trigger] self.lookup(c),)),
        ensures
            forall|i: int|
                0 <= i < out.len() ==> (#[trigger] out[i]).inside(self.extent()) && call_ensures(
                    test,
                    (&self.lookup(out[i]),),
                    true,
                ),
            forall|m: int|
                0 <= m < area(self.extent()) ==> out@.contains(
                    #[trigger] nth_coord(self.extent(), m),
                ) || call_ensures(test, (&self.lookup(nth_coord(self.extent(), m)),), false),
            forall|i: int, j: int|
                0 <= i < j < out.len() ==> linear_index(self.extent(), out[i])
                    < linear_index(self.extent(), out[j]),
    {
        let dims = self.size();
        let mut out: Vec<Coord> = Vec::new();
        let mut it = dims.into_iter();
        loop
            invariant_except_break
                it.wf(),
                it.extent() == dims,
            invariant
                self.wf(),
                dims == self.extent(),
                forall|c: Coord|
                    c.inside(self.extent()) ==> call_requires(test, (&#[trigger] self.lookup(c),)),
                forall|i: int|
                    0 <= i < out.len() ==> (#[trigger] out[i]).inside(self.extent())
                        && call_ensures(test, (&self.lookup(out[i]),), true),
                forall|i: int|
                    0 <= i < out.len() ==> linear_index(
                        self.extent(),
                        #[trigger] out[i],
                    ) < it.position(),
                forall|m: int|
                    0 <= m < it.position() ==> out@.contains(
                        #[trigger] nth_coord(self.extent(), m),
                    ) || call_ensures(test, (&self.lookup(nth_coord(self.extent(), m)),), false),
                forall|i: int, j: int|
                    0 <= i < j < out.len() ==> linear_index(self.extent(), out[i])
                        < linear_index(self.extent(), out[j]),
            ensures
                it.position() >= area(dims),
            decreases area(dims) - it.position(),
        {
            let ghost n = it.position();
            let ghost before = out@;
            match it.next() {
                Some(c) => {
                    proof {
                        lemma_nth_coord_inside(dims, n);
                    }
                    if test(self.get(c).unwrap()) {
                        out.push(c);
                    }
                    proof {
                        assert forall|m: int| 0 <= m < n + 1 implies out@.contains(
                            #[trigger] nth_coord(self.extent(), m),
                        ) || call_ensures(
                            test,
                            (&self.lookup(nth_coord(self.extent(), m)),),
                            false,
                        ) by {
                            if m < n {
                                if before.contains(nth_coord(self.extent(), m)) {
                                    let k = choose|k: int|
                                        0 <= k < before.len() && before[k] == nth_coord(
                                            self.extent(),
                                            m,
                                        );
                                    assert(out@[k] == before[k]);
                                }
                            } else {
                                if out.len() > before.len() {
                                    assert(out@[out.len() - 1] == c);
                                }
                            }
                        }
                    }
                },
                None => {
                    break ;
                },
            }
        }
        out
    }
}

/// A traversal of a grid's cells in reading order.
pub struct GridIterator<'a, G> {
    grid: &'a G,
    n: i32,
}

impl<'a, G> GridIterator<'a, G> {
    /// The grid being traversed.
    pub closed spec fn grid(&self) -> &'a G {
        self.grid
    }

    /// How many cells have been handed out so far.
    pub closed spec fn position(&self) -> int {
        self.n as int
    }
}

impl<'a, G: Grid> GridIterator<'a, G> {
    /// The traversal belongs to a consistent grid and has not run past it.
    pub open spec fn wf(&self) -> bool {
        &&& self.grid().wf()
        &&& 0 <= self.position() <= area(self.grid().extent())
    }

    /// Hands out the next cell in reading order, or `None` at the end.
    pub fn next(&mut self) -> (r: Option<&'a G::CellType>)
        requires
            old(self).wf(),
        ensures
            final(self).wf(),
            final(self).grid() == old(self).grid(),
            old(self).position() < area(old(self).grid().extent()) ==> {
                &&& r == Some(
                    &old(self).grid().lookup(
                        nth_coord(old(self).grid().extent(), old(self).position()),
                    ),
                )
                &&& final(self).position() == old(self).position() + 1
            },
            old(self).position() >= area(old(self).grid().extent()) ==> {
                &&& r.is_none()
                &&& final(self).position() == old(self).position()
            },
    {
        let dims = self.grid.size();
        if dims.0 <= 0 || dims.1 <= 0 {
            return None;
        }
        let total: i64 = dims.0 as i64 * dims.1 as i64;
        if (self.n as i64) < total {
            let coord = self.grid.coord(self.n as usize);
            self.n += 1;
            self.grid.get(coord)
        } else {
            None
        }
    }
}

/// A grid whose cells can be changed in place.
pub trait GridMut: Grid {
    /// This behaves just like `get`: `Some` for any coordinate in the bounds
    /// of the grid and `None` outside. Writing through the reference changes
    /// that one cell and nothing else.
    fn get_mut(&mut self, index: Coord) -> (r: Option<&mut Self::CellType>)
        requires
            old(self).wf(),
        ensures
            final(self).wf(),
            final(self).extent() == old(self).extent(),
            final(self).filler() == old(self).filler(),
            index.inside(old(self).extent()) ==> {
                &&& r matches Some(cell)
                &&& *cell == old(self).lookup(index)
                &&& final(self).lookup(index) == *final(cell)
                &&& forall|c: Coord| c != index ==> final(self).lookup(c) == old(self).lookup(c)
            },
            !index.inside(old(self).extent()) ==> {
                &&& r.is_none()
                &&& forall|c: Coord| final(self).lookup(c) == old(self).lookup(c)
            },
    ;
}

/// Counting how many neighbours fit some criterion, for the 4-tuples of
/// booleans that the neighbour functions of [`Grid`] return.
pub trait CountableNeighbors {
    /// The number of components that are `true`.
    spec fn tally(&self) -> int;

    fn count(&self) -> (t: i32)
        ensures
            t == self.tally(),
    ;
}

/// One for `true`, zero for `false`.
pub open spec fn one_if(b: bool) -> int {
    if b {
        1
    } else {
        0
    }
}

impl CountableNeighbors for (bool, bool, bool, bool) {
    open spec fn tally(&self) -> int {
        one_if(self.0) + one_if(self.1) + one_if(self.2) + one_if(self.3)
    }

    fn count(&self) -> (t: i32) {
        let mut t: i32 = 0;
        let (n, s, e, w) = self;
        if *n {
            t += 1
        }
        if *s {
            t += 1
        }
        if *e {
            t += 1
        }
        if *w {
            t += 1
        }
        t
    }
}

} // verus!
