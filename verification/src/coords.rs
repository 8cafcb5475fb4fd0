//! Tile and pixel coordinates, compass directions and row-major enumeration.

use vstd::prelude::*;
use core::ops::{Add, Div, Mul};
use vstd::std_specs::convert::FromSpecImpl;
use vstd::std_specs::ops::{AddSpecImpl, DivSpecImpl, MulSpecImpl};

verus! {

/// One of the four orthogonal directions. North is towards smaller `y`.
#[derive(Copy, Clone, Debug, PartialEq, Eq, Structural)]
pub enum Dir {
    North,
    South,
    East,
    West,
}

/// A tile coordinate `(x, y)`: tiles are 8x8 pixels.
#[derive(Copy, Clone, Debug, PartialEq, Eq, Structural, Hash)]
pub struct Coord(pub i32, pub i32);

/// A dimension in pixel terms, in whatever surface is being drawn to.
#[derive(Copy, Clone, Debug, PartialEq, Eq, Structural)]
pub struct PixelCoord(pub i32, pub i32);

/// Shorthand constructor for a [`Coord`].
pub fn xy(x: i32, y: i32) -> (c: Coord)
    ensures
        c == Coord(x, y),
{
    Coord(x, y)
}

/// Shorthand constructor for a [`PixelCoord`].
pub fn pxy(x: i32, y: i32) -> (c: PixelCoord)
    ensures
        c == PixelCoord(x, y),
{
    PixelCoord(x, y)
}

/// Absolute value over the mathematical integers.
pub open spec fn abs(i: int) -> int {
    if i < 0 {
        -i
    } else {
        i
    }
}

/// The Manhattan (taxicab) distance between two coordinates.
pub open spec fn manhattan(a: Coord, b: Coord) -> int {
    abs(a.0 - b.0) + abs(a.1 - b.1)
}

/// Whether `b` is one orthogonal step away from `a`.
pub open spec fn orthogonal(a: Coord, b: Coord) -> bool {
    manhattan(a, b) == 1
}

/// Whether `b` is one diagonal step away from `a`.
pub open spec fn diagonal_step(a: Coord, b: Coord) -> bool {
    abs(a.0 - b.0) == 1 && abs(a.1 - b.1) == 1
}

impl Coord {
    /// Whether the coordinate lies in `[0, extent.0) x [0, extent.1)`.
    pub open spec fn inside(self, extent: Coord) -> bool {
        0 <= self.0 < extent.0 && 0 <= self.1 < extent.1
    }

    /// The coordinate moved by `(dx, dy)`, where that is representable.
    pub open spec fn shifted(self, dx: int, dy: int) -> Coord
        recommends
            i32::MIN <= self.0 + dx <= i32::MAX,
            i32::MIN <= self.1 + dy <= i32::MAX,
    {
        Coord((self.0 + dx) as i32, (self.1 + dy) as i32)
    }

    /// Whether moving by `(dx, dy)` stays within the range of `i32`.
    pub open spec fn can_shift(self, dx: int, dy: int) -> bool {
        &&& i32::MIN <= self.0 + dx <= i32::MAX
        &&& i32::MIN <= self.1 + dy <= i32::MAX
    }

    /// The coordinate one step in direction `dir`.
    pub open spec fn stepped(self, dir: Dir) -> Coord {
        match dir {
            Dir::North => self.shifted(0, -1),
            Dir::South => self.shifted(0, 1),
            Dir::East => self.shifted(1, 0),
            Dir::West => self.shifted(-1, 0),
        }
    }

    /// Whether a step in direction `dir` stays within the range of `i32`.
    pub open spec fn can_step(self, dir: Dir) -> bool {
        match dir {
            Dir::North => self.can_shift(0, -1),
            Dir::South => self.can_shift(0, 1),
            Dir::East => self.can_shift(1, 0),
            Dir::West => self.can_shift(-1, 0),
        }
    }

    pub fn north(&self) -> (c: Coord)
        requires
            self.can_shift(0, -1),
        ensures
            c == self.shifted(0, -1),
    {
        Coord(self.0, self.1 - 1)
    }

    pub fn south(&self) -> (c: Coord)
        requires
            self.can_shift(0, 1),
        ensures
            c == self.shifted(0, 1),
    {
        Coord(self.0, self.1 + 1)
    }

    pub fn east(&self) -> (c: Coord)
        requires
            self.can_shift(1, 0),
        ensures
            c == self.shifted(1, 0),
    {
        Coord(self.0 + 1, self.1)
    }

    pub fn west(&self) -> (c: Coord)
        requires
            self.can_shift(-1, 0),
        ensures
            c == self.shifted(-1, 0),
    {
        Coord(self.0 - 1, self.1)
    }

    pub fn northwest(&self) -> (c: Coord)
        requires
            self.can_shift(-1, -1),
        ensures
            c == self.shifted(-1, -1),
    {
        Coord(self.0 - 1, self.1 - 1)
    }

    pub fn southwest(&self) -> (c: Coord)
        requires
            self.can_shift(-1, 1),
        ensures
            c == self.shifted(-1, 1),
    {
        Coord(self.0 - 1, self.1 + 1)
    }

    pub fn northeast(&self) -> (c: Coord)
        requires
            self.can_shift(1, -1),
        ensures
            c == self.shifted(1, -1),
    {
        Coord(self.0 + 1, self.1 - 1)
    }

    pub fn southeast(&self) -> (c: Coord)
        requires
            self.can_shift(1, 1),
        ensures
            c == self.shifted(1, 1),
    {
        Coord(self.0 + 1, self.1 + 1)
    }

    /// Moves one step in the given direction.
    pub fn translate(&self, dir: Dir) -> (c: Coord)
        requires
            self.can_step(dir),
        ensures
            c == self.stepped(dir),
    {
        match dir {
            Dir::North => self.north(),
            Dir::South => self.south(),
            Dir::East => self.east(),
            Dir::West => self.west(),
        }
    }

    /// Is this coordinate inside the rectangle from the origin up to, but not
    /// including, `other`?
    pub fn within(&self, other: Coord) -> (b: bool)
        ensures
            b == self.inside(other),
    {
        self.0 >= 0 && self.1 >= 0 && self.0 < other.0 && self.1 < other.1
    }

    /// The number of orthogonal steps between the two coordinates.
    pub fn manhattan_dist_to(&self, other: Coord) -> (d: i32)
        requires
            manhattan(*self, other) <= i32::MAX,
        ensures
            d == manhattan(*self, other),
    {
        let dx: i64 = self.0 as i64 - other.0 as i64;
        let dy: i64 = self.1 as i64 - other.1 as i64;
        let ax: i64 = if dx < 0 { -dx } else { dx };
        let ay: i64 = if dy < 0 { -dy } else { dy };
        (ax + ay) as i32
    }

    /// Is `other` the cell directly north, south, east or west of this one?
    pub fn adjacent(&self, other: Coord) -> (b: bool)
        ensures
            b == orthogonal(*self, other),
    {
        let dx: i64 = self.0 as i64 - other.0 as i64;
        let dy: i64 = self.1 as i64 - other.1 as i64;
        (dx == 0 && (dy == 1 || dy == -1)) || (dy == 0 && (dx == 1 || dx == -1))
    }

    /// Is `other` one of the four cells that touch this one only at a corner?
    pub fn diagonal(&self, other: Coord) -> (b: bool)
        ensures
            b == diagonal_step(*self, other),
    {
        let dx: i64 = self.0 as i64 - other.0 as i64;
        let dy: i64 = self.1 as i64 - other.1 as i64;
        (dx == 1 || dx == -1) && (dy == 1 || dy == -1)
    }
}

/// The number of cells in the rectangle from the origin up to `extent`:
/// zero when either side is not positive.
pub open spec fn area(extent: Coord) -> int {
    if extent.0 <= 0 || extent.1 <= 0 {
        0
    } else {
        extent.0 * extent.1
    }
}

/// The `n`-th coordinate of a rectangle in reading order: left to right, then
/// top to bottom.
pub open spec fn nth_coord(extent: Coord, n: int) -> Coord
    recommends
        0 <= n < area(extent),
{
    Coord((n % (extent.0 as int)) as i32, (n / (extent.0 as int)) as i32)
}

/// Position of an in-range coordinate in reading order.
pub open spec fn linear_index(extent: Coord, c: Coord) -> int
    recommends
        c.inside(extent),
{
    c.1 * extent.0 + c.0
}

/// Every position below the area names a coordinate inside the rectangle, and
/// `linear_index` leads back to the position.
pub proof fn lemma_nth_coord_inside(extent: Coord, n: int)
    requires
        0 <= n < area(extent),
    ensures
        nth_coord(extent, n).inside(extent),
        linear_index(extent, nth_coord(extent, n)) == n,
        nth_coord(extent, n).0 == n % (extent.0 as int),
        nth_coord(extent, n).1 == n / (extent.0 as int),
{
    let w = extent.0 as int;
    let h = extent.1 as int;
    assert(0 <= n % w < w);
    assert(n == w * (n / w) + n % w) by {
        vstd::arithmetic::div_mod::lemma_fundamental_div_mod(n, w);
    }
    assert(0 <= n / w < h) by (nonlinear_arith)
        requires
            0 <= n < w * h,
            0 < w,
            n == w * (n / w) + n % w,
            0 <= n % w < w,
    ;
    assert((n / w) * w == w * (n / w)) by (nonlinear_arith);
}

/// Every coordinate inside the rectangle has a position below the area, and
/// `nth_coord` leads back to the coordinate.
pub proof fn lemma_linear_index_inside(extent: Coord, c: Coord)
    requires
        c.inside(extent),
    ensures
        0 <= linear_index(extent, c) < area(extent),
        nth_coord(extent, linear_index(extent, c)) == c,
{
    let w = extent.0 as int;
    let h = extent.1 as int;
    let x = c.0 as int;
    let y = c.1 as int;
    assert(0 <= y * w + x < w * h) by (nonlinear_arith)
        requires
            0 <= x < w,
            0 <= y < h,
    ;
    vstd::arithmetic::div_mod::lemma_fundamental_div_mod_converse(y * w + x, w, y, x);
}

/// Distinct coordinates inside the rectangle have distinct positions.
pub proof fn lemma_linear_index_injective(extent: Coord, a: Coord, b: Coord)
    requires
        a.inside(extent),
        b.inside(extent),
        a != b,
    ensures
        linear_index(extent, a) != linear_index(extent, b),
{
    lemma_linear_index_inside(extent, a);
    lemma_linear_index_inside(extent, b);
}

/// A list of different coordinates inside a rectangle is no longer than the
/// rectangle has cells.
pub proof fn lemma_distinct_inside_bound(extent: Coord, list: Seq<Coord>)
    requires
        list.no_duplicates(),
        forall|i: int| 0 <= i < list.len() ==> (#[trigger] list[i]).inside(extent),
    ensures
        list.len() <= area(extent),
{
    let positions = Seq::new(list.len(), |i: int| linear_index(extent, list[i]));
    assert forall|i: int, j: int|
        0 <= i < positions.len() && 0 <= j < positions.len() && i != j implies positions[i]
        != positions[j] by {
        lemma_linear_index_injective(extent, list[i], list[j]);
    }
    positions.unique_seq_to_set();
    let range = vstd::set_lib::set_int_range(0, area(extent));
    vstd::set_lib::lemma_int_range(0, area(extent));
    assert forall|n: int| positions.to_set().contains(n) implies range.contains(n) by {
        let i = choose|i: int| 0 <= i < positions.len() && positions[i] == n;
        lemma_linear_index_inside(extent, list[i]);
    }
    vstd::set_lib::lemma_len_subset(positions.to_set(), range);
}

/// Walks the coordinates of a rectangle in reading order.
///
/// The rectangle reaches from the origin up to, but not including, `end`.
pub struct CoordIterator {
    end: Coord,
    curr: i32,
}

impl CoordIterator {
    /// The rectangle being walked.
    pub closed spec fn extent(&self) -> Coord {
        self.end
    }

    /// How many coordinates have been handed out so far.
    pub closed spec fn position(&self) -> int {
        self.curr as int
    }

    /// The iterator never runs past the area of its rectangle, which fits in
    /// an `i32`.
    pub open spec fn wf(&self) -> bool {
        &&& area(self.extent()) <= i32::MAX
        &&& 0 <= self.position() <= area(self.extent())
    }

    /// Hands out the next coordinate in reading order, or `None` once every
    /// coordinate of the rectangle has been seen.
    pub fn next(&mut self) -> (r: Option<Coord>)
        requires
            old(self).wf(),
        ensures
            final(self).wf(),
            final(self).extent() == old(self).extent(),
            old(self).position() < area(old(self).extent()) ==> {
                &&& r == Some(nth_coord(old(self).extent(), old(self).position()))
                &&& final(self).position() == old(self).position() + 1
            },
            old(self).position() >= area(old(self).extent()) ==> {
                &&& r.is_none()
                &&& final(self).position() == old(self).position()
            },
    {
        if self.end.0 <= 0 || self.end.1 <= 0 {
            None
        } else {
            let total: i64 = self.end.0 as i64 * self.end.1 as i64;
            if (self.curr as i64) < total {
                proof {
                    lemma_nth_coord_inside(self.end, self.curr as int);
                }
                let c = xy(self.curr % self.end.0, self.curr / self.end.0);
                self.curr += 1;
                Some(c)
            } else {
                None
            }
        }
    }
}

impl Coord {
    /// Starts a walk over the rectangle from the origin up to this coordinate.
    pub fn into_iter(self) -> (it: CoordIterator)
        requires
            area(self) <= i32::MAX,
        ensures
            it.wf(),
            it.extent() == self,
            it.position() == 0,
    {
        CoordIterator { end: self, curr: 0 }
    }
}

/// Whether an integer fits an `i32`.
pub open spec fn fits(v: int) -> bool {
    i32::MIN <= v <= i32::MAX
}

/// The quotient of two integers, rounded towards zero.
pub open spec fn quotient(a: int, b: int) -> int {
    if a >= 0 {
        a / b
    } else {
        -((-a) / b)
    }
}

/// Whether `a` can be divided by `b` within `i32`.
pub open spec fn divides(a: int, b: int) -> bool {
    b != 0 && !(a == i32::MIN && b == -1)
}

impl Add<Coord> for Coord {
    type Output = Coord;

    fn add(self, rhs: Coord) -> Coord {
        xy(self.0 + rhs.0, self.1 + rhs.1)
    }
}

impl AddSpecImpl<Coord> for Coord {
    open spec fn obeys_add_spec() -> bool {
        true
    }

    open spec fn add_req(self, rhs: Coord) -> bool {
        fits(self.0 + rhs.0) && fits(self.1 + rhs.1)
    }

    open spec fn add_spec(self, rhs: Coord) -> Coord {
        Coord((self.0 + rhs.0) as i32, (self.1 + rhs.1) as i32)
    }
}

impl Mul<Coord> for Coord {
    type Output = Coord;

    fn mul(self, rhs: Coord) -> Coord {
        xy(self.0 * rhs.0, self.1 * rhs.1)
    }
}

impl MulSpecImpl<Coord> for Coord {
    open spec fn obeys_mul_spec() -> bool {
        true
    }

    open spec fn mul_req(self, rhs: Coord) -> bool {
        fits(self.0 * rhs.0) && fits(self.1 * rhs.1)
    }

    open spec fn mul_spec(self, rhs: Coord) -> Coord {
        Coord((self.0 * rhs.0) as i32, (self.1 * rhs.1) as i32)
    }
}

impl Div<Coord> for Coord {
    type Output = Coord;

    fn div(self, rhs: Coord) -> Coord {
        xy(self.0 / rhs.0, self.1 / rhs.1)
    }
}

impl DivSpecImpl<Coord> for Coord {
    open spec fn obeys_div_spec() -> bool {
        true
    }

    open spec fn div_req(self, rhs: Coord) -> bool {
        divides(self.0 as int, rhs.0 as int) && divides(self.1 as int, rhs.1 as int)
    }

    open spec fn div_spec(self, rhs: Coord) -> Coord {
        Coord(
            quotient(self.0 as int, rhs.0 as int) as i32,
            quotient(self.1 as int, rhs.1 as int) as i32,
        )
    }
}

impl Mul<i32> for Coord {
    type Output = Coord;

    fn mul(self, rhs: i32) -> Coord {
        xy(self.0 * rhs, self.1 * rhs)
    }
}

impl MulSpecImpl<i32> for Coord {
    open spec fn obeys_mul_spec() -> bool {
        true
    }

    open spec fn mul_req(self, rhs: i32) -> bool {
        fits(self.0 * rhs) && fits(self.1 * rhs)
    }

    open spec fn mul_spec(self, rhs: i32) -> Coord {
        Coord((self.0 * rhs) as i32, (self.1 * rhs) as i32)
    }
}

impl Div<i32> for Coord {
    type Output = Coord;

    fn div(self, rhs: i32) -> Coord {
        xy(self.0 / rhs, self.1 / rhs)
    }
}

impl DivSpecImpl<i32> for Coord {
    open spec fn obeys_div_spec() -> bool {
        true
    }

    open spec fn div_req(self, rhs: i32) -> bool {
        divides(self.0 as int, rhs as int) && divides(self.1 as int, rhs as int)
    }

    open spec fn div_spec(self, rhs: i32) -> Coord {
        Coord(quotient(self.0 as int, rhs as int) as i32, quotient(self.1 as int, rhs as int) as i32)
    }
}

impl Add<PixelCoord> for PixelCoord {
    type Output = PixelCoord;

    fn add(self, rhs: PixelCoord) -> PixelCoord {
        pxy(self.0 + rhs.0, self.1 + rhs.1)
    }
}

impl AddSpecImpl<PixelCoord> for PixelCoord {
    open spec fn obeys_add_spec() -> bool {
        true
    }

    open spec fn add_req(self, rhs: PixelCoord) -> bool {
        fits(self.0 + rhs.0) && fits(self.1 + rhs.1)
    }

    open spec fn add_spec(self, rhs: PixelCoord) -> PixelCoord {
        PixelCoord((self.0 + rhs.0) as i32, (self.1 + rhs.1) as i32)
    }
}

impl From<(i32, i32)> for Coord {
    fn from(value: (i32, i32)) -> Coord {
        xy(value.0, value.1)
    }
}

impl FromSpecImpl<(i32, i32)> for Coord {
    open spec fn obeys_from_spec() -> bool {
        true
    }

    open spec fn from_spec(value: (i32, i32)) -> Coord {
        Coord(value.0, value.1)
    }
}

impl From<Coord> for (i32, i32) {
    fn from(value: Coord) -> (i32, i32) {
        (value.0, value.1)
    }
}

impl FromSpecImpl<Coord> for (i32, i32) {
    open spec fn obeys_from_spec() -> bool {
        true
    }

    open spec fn from_spec(value: Coord) -> (i32, i32) {
        (value.0, value.1)
    }
}

} // verus!
