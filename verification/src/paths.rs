//! Walks over a set of open cells, and what it means for cells to be
//! connected.

use vstd::prelude::*;
use crate::coords::{linear_index, orthogonal, Coord};
use crate::grid::Grid;
use crate::vecgrid::VecGrid;

verus! {

/// A walk: every cell is one orthogonal step from the cell before it.
pub open spec fn is_walk(p: Seq<Coord>) -> bool {
    forall|i: int, j: int|
        0 <= i < p.len() && j == i + 1 && j < p.len() ==> orthogonal(#[trigger] p[i], #[trigger] p[j])
}

/// Every cell of the walk is one of the open cells.
pub open spec fn walk_within(p: Seq<Coord>, open: Set<Coord>) -> bool {
    forall|i: int| 0 <= i < p.len() ==> open.contains(#[trigger] p[i])
}

/// The walk starts at `a` and ends at `b`.
pub open spec fn joins(p: Seq<Coord>, a: Coord, b: Coord) -> bool {
    p.len() > 0 && p[0] == a && p[p.len() - 1] == b
}

/// Whether `p` is a walk from `a` to `b` over open cells.
pub open spec fn links(open: Set<Coord>, p: Seq<Coord>, a: Coord, b: Coord) -> bool {
    is_walk(p) && walk_within(p, open) && joins(p, a, b)
}

/// Whether one can walk from `a` to `b` in orthogonal steps over open cells
/// only. Both ends are then open themselves.
pub open spec fn connected(open: Set<Coord>, a: Coord, b: Coord) -> bool {
    exists|p: Seq<Coord>| links(open, p, a, b)
}

/// Whether any two open cells are connected: the open cells form at most one
/// orthogonally connected component.
pub open spec fn all_connected(open: Set<Coord>) -> bool {
    forall|a: Coord, b: Coord| open.contains(a) && open.contains(b) ==> connected(open, a, b)
}

/// The passable cells of a map of walls given as plain values: the cells
/// inside the extent that hold `false`.
pub open spec fn floor_of(cells: Seq<bool>, extent: Coord) -> Set<Coord> {
    Set::new(|c: Coord| c.inside(extent) && !cells[linear_index(extent, c)])
}

/// The passable cells of a map of walls: the cells inside it that hold
/// `false`.
pub open spec fn floor(walls: &VecGrid<bool>) -> Set<Coord> {
    floor_of(walls@, walls.extent())
}

/// An open cell is connected to itself.
pub proof fn lemma_connected_refl(open: Set<Coord>, a: Coord)
    requires
        open.contains(a),
    ensures
        connected(open, a, a),
{
    let p = seq![a];
    assert(links(open, p, a, a));
}

/// Two open cells one step apart are connected.
pub proof fn lemma_connected_step(open: Set<Coord>, a: Coord, b: Coord)
    requires
        open.contains(a),
        open.contains(b),
        orthogonal(a, b),
    ensures
        connected(open, a, b),
{
    let p = seq![a, b];
    assert(links(open, p, a, b));
}

/// A walk can be walked backwards.
pub proof fn lemma_connected_sym(open: Set<Coord>, a: Coord, b: Coord)
    requires
        connected(open, a, b),
    ensures
        connected(open, b, a),
{
    let p = choose|p: Seq<Coord>| links(open, p, a, b);
    let n = p.len() as int;
    let q = Seq::new(p.len(), |i: int| p[n - 1 - i]);
    assert forall|i: int, j: int| 0 <= i < q.len() && j == i + 1 && j < q.len() implies orthogonal(
        #[trigger] q[i],
        #[trigger] q[j],
    ) by {
        assert(orthogonal(p[n - 1 - j], p[n - 1 - i]));
    }
    assert(links(open, q, b, a));
}

/// Two walks that meet can be walked one after the other.
pub proof fn lemma_connected_trans(open: Set<Coord>, a: Coord, b: Coord, c: Coord)
    requires
        connected(open, a, b),
        connected(open, b, c),
    ensures
        connected(open, a, c),
{
    let p = choose|p: Seq<Coord>| links(open, p, a, b);
    let q = choose|q: Seq<Coord>| links(open, q, b, c);
    let r = p + q.subrange(1, q.len() as int);
    let n = p.len() as int;
    assert forall|i: int, j: int| 0 <= i < r.len() && j == i + 1 && j < r.len() implies orthogonal(
        #[trigger] r[i],
        #[trigger] r[j],
    ) by {
        if j < n {
            assert(orthogonal(p[i], p[j]));
        } else if i == n - 1 {
            assert(r[i] == q[0]);
            assert(r[j] == q[1]);
            assert(orthogonal(q[0], q[1]));
        } else {
            assert(r[i] == q[i - n + 1]);
            assert(r[j] == q[j - n + 1]);
            assert(orthogonal(q[i - n + 1], q[j - n + 1]));
        }
    }
    assert forall|i: int| 0 <= i < r.len() implies open.contains(#[trigger] r[i]) by {
        if i < n {
            assert(r[i] == p[i]);
        } else {
            assert(r[i] == q[i - n + 1]);
        }
    }
    if q.len() == 1 {
        assert(r =~= p);
    } else {
        assert(r[r.len() - 1] == q[q.len() - 1]);
    }
    assert(links(open, r, a, c));
}

/// Opening more cells keeps connected cells connected.
pub proof fn lemma_connected_mono(open: Set<Coord>, more: Set<Coord>, a: Coord, b: Coord)
    requires
        connected(open, a, b),
        open.subset_of(more),
    ensures
        connected(more, a, b),
{
    let p = choose|p: Seq<Coord>| links(open, p, a, b);
    assert forall|i: int| 0 <= i < p.len() implies more.contains(#[trigger] p[i]) by {
        assert(open.contains(p[i]));
    }
    assert(links(more, p, a, b));
}

/// Every cell of a walk over open cells is connected to the cell the walk
/// starts at.
pub proof fn lemma_walk_connects(open: Set<Coord>, p: Seq<Coord>, k: int)
    requires
        is_walk(p),
        walk_within(p, open),
        0 <= k < p.len(),
    ensures
        connected(open, p[0], p[k]),
{
    let q = p.take(k + 1);
    assert forall|i: int, j: int| 0 <= i < q.len() && j == i + 1 && j < q.len() implies orthogonal(
        #[trigger] q[i],
        #[trigger] q[j],
    ) by {
        assert(orthogonal(p[i], p[j]));
    }
    assert forall|i: int| 0 <= i < q.len() implies open.contains(#[trigger] q[i]) by {
        assert(q[i] == p[i]);
    }
    assert(links(open, q, p[0], p[k]));
}

} // verus!
