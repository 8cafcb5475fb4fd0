//! Straight walks between two cells, taking only orthogonal steps.

use vstd::prelude::*;
use line_drawing::WalkGrid;
use crate::coords::{abs, manhattan, Coord};

verus! {

/// The largest difference in `x` or in `y` between the two ends of a walk.
///
/// The walk is laid out with 32-bit floating point numbers, which count
/// steps exactly only below this span.
pub const MAX_SPAN: i32 = 0x7f_ffff;

/// The cells of the walk from `start` to `end`, both included.
pub uninterp spec fn walk_grid_path(start: Coord, end: Coord) -> Seq<Coord>;

/// Whether `v` lies between `a` and `b`, whichever is larger.
pub open spec fn between(v: int, a: int, b: int) -> bool {
    (a <= v <= b) || (b <= v <= a)
}

/// Whether `to` is `from` moved by one cell towards `end`, in `x` or in `y`
/// but not both.
pub open spec fn step_towards(from: Coord, to: Coord, end: Coord) -> bool {
    &&& manhattan(from, to) == 1
    &&& manhattan(to, end) == manhattan(from, end) - 1
}

/// Whether `path` leads from `start` to `end` in steps of one cell, each of
/// them towards `end`.
pub open spec fn is_staircase(path: Seq<Coord>, start: Coord, end: Coord) -> bool {
    &&& path.len() > 0
    &&& path[0] == start
    &&& path[path.len() - 1] == end
    &&& forall|i: int, j: int|
        0 <= i < path.len() && j == i + 1 && j < path.len() ==> step_towards(
            #[trigger] path[i],
            #[trigger] path[j],
            end,
        )
}

/// Along a staircase every step brings the end one cell closer and takes
/// the walk at most one cell further from the start.
proof fn lemma_staircase_progress(path: Seq<Coord>, start: Coord, end: Coord, k: int)
    requires
        is_staircase(path, start, end),
        0 <= k < path.len(),
    ensures
        manhattan(path[k], end) == manhattan(start, end) - k,
        manhattan(start, path[k]) <= k,
    decreases k,
{
    if k > 0 {
        lemma_staircase_progress(path, start, end, k - 1);
        assert(step_towards(path[k - 1], path[k], end));
    }
}

/// A staircase has one cell more than its ends are apart, and never leaves
/// the rectangle that its ends span.
pub proof fn lemma_staircase_inside(path: Seq<Coord>, start: Coord, end: Coord)
    requires
        is_staircase(path, start, end),
    ensures
        path.len() == manhattan(start, end) + 1,
        forall|i: int|
            0 <= i < path.len() ==> between((#[trigger] path[i]).0 as int, start.0 as int, end.0 as int)
                && between(path[i].1 as int, start.1 as int, end.1 as int),
{
    lemma_staircase_progress(path, start, end, path.len() - 1);
    assert forall|i: int| 0 <= i < path.len() implies between(
        (#[trigger] path[i]).0 as int,
        start.0 as int,
        end.0 as int,
    ) && between(path[i].1 as int, start.1 as int, end.1 as int) by {
        lemma_staircase_progress(path, start, end, i);
    }
}

/// Walks the grid from `start` to `end` with `line_drawing::WalkGrid` and
/// collects the cells it passes, both ends included.
///
/// Trusted: the walk is the work of the outside crate. Its source starts at
/// `start`, moves one cell at a time in `x` or in `y`, always towards `end`,
/// and stops once it has handed out `end`; which of the two moves comes next
/// is decided by comparing quotients of 32-bit floats. Below `MAX_SPAN` those
/// comparisons never send the walk past `end` in either direction before it
/// has handed out `end`. After every cell that it hands out, `end` too, it
/// moves its own position one cell on, so the cells around `end` have to
/// lie in the range of `i32`.
#[verifier::external_body]
pub(crate) fn walk_grid(start: Coord, end: Coord) -> (path: Vec<Coord>)
    requires
        abs(end.0 - start.0) <= MAX_SPAN,
        abs(end.1 - start.1) <= MAX_SPAN,
        end.can_shift(1, 1),
        end.can_shift(-1, -1),
    ensures
        path@ == walk_grid_path(start, end),
        is_staircase(path@, start, end),
{
    WalkGrid::new((start.0, start.1), (end.0, end.1)).map(|p| Coord(p.0, p.1)).collect()
}

} // verus!
