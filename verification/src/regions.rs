//! Regions of passable cells: how a map is split into them, and how they are
//! joined by tunnels until one is left.

use vstd::prelude::*;
use crate::coords::{
    area, lemma_linear_index_inside, lemma_nth_coord_inside, linear_index, manhattan, nth_coord,
    Coord,
};
use crate::flood::{accepts, admitted, agrees, bft, flood_order, rejects};
use crate::grid::Grid;
use crate::line::{
    between, is_staircase, lemma_staircase_inside, walk_grid, walk_grid_path, MAX_SPAN,
};
use crate::nearest::{lists, shortest_tunnel};
use crate::paths::{all_connected, floor, lemma_connected_step};
use crate::vecgrid::VecGrid;
use core::ops::IndexMut;
use crate::nearest::{closest, closest_pair, first_closest, first_nearest, tunnel, two_regions};
use crate::paths::{
    connected, is_walk, lemma_connected_mono, lemma_connected_sym, lemma_connected_trans,
    lemma_walk_connects, walk_within,
};

verus! {

/// A map of regions as plain values: a label for every cell, in reading
/// order, and the cells of every region.
///
/// Label `0` marks a wall, `-1` a passable cell that no region holds yet, and
/// any positive label the region that a cell was given to.
pub struct RegionMap {
    pub extent: Coord,
    pub labels: Seq<i32>,
    pub groups: Seq<Seq<Coord>>,
}

/// Whether a rectangle is small enough for tunnels to be walked across it
/// and for its regions to be numbered: no side longer than `MAX_SPAN + 1`,
/// and fewer cells than the largest `i32`.
pub open spec fn walkable(extent: Coord) -> bool {
    &&& 0 <= extent.0 <= MAX_SPAN + 1
    &&& 0 <= extent.1 <= MAX_SPAN + 1
    &&& area(extent) < i32::MAX
}

/// Whether a rectangle of the given size is small enough for its passable
/// cells to be connected.
pub fn walkable_size(size: Coord) -> (b: bool)
    ensures
        b == walkable(size),
{
    if size.0 < 0 || size.1 < 0 || size.0 > MAX_SPAN + 1 || size.1 > MAX_SPAN + 1 {
        return false;
    }
    proof {
        lemma_area_is_product(size);
        assert(0 <= size.0 * size.1 <= (MAX_SPAN + 1) * (MAX_SPAN + 1)) by (nonlinear_arith)
            requires
                0 <= size.0 <= MAX_SPAN + 1,
                0 <= size.1 <= MAX_SPAN + 1,
        ;
    }
    (size.0 as i64) * (size.1 as i64) < i32::MAX as i64
}

/// The labels with every cell of `line` set to `to`.
pub open spec fn carved(labels: Seq<i32>, extent: Coord, line: Seq<Coord>, to: i32) -> Seq<i32> {
    Seq::new(
        labels.len(),
        |i: int|
            if line.contains(nth_coord(extent, i)) {
                to
            } else {
                labels[i]
            },
    )
}

/// The labels with every `from` replaced by `to`.
pub open spec fn relabeled(labels: Seq<i32>, from: i32, to: i32) -> Seq<i32> {
    Seq::new(
        labels.len(),
        |i: int|
            if labels[i] == from {
                to
            } else {
                labels[i]
            },
    )
}

impl RegionMap {
    /// The label of a cell inside the extent.
    pub open spec fn label(self, c: Coord) -> i32 {
        self.labels[linear_index(self.extent, c)]
    }

    /// The passable cells: those inside the extent whose label is not `0`.
    pub open spec fn open_cells(self) -> Set<Coord> {
        Set::new(|c: Coord| c.inside(self.extent) && self.label(c) != 0)
    }

    /// Whether `c` is listed in some region.
    #[verifier::opaque]
    pub open spec fn listed(self, c: Coord) -> bool {
        exists|g: int, k: int|
            0 <= g < self.groups.len() && 0 <= k < self.groups[g].len() && #[trigger] self.groups[g][k]
                == c
    }

    /// The regions account for the passable cells: no region is empty, the
    /// cells of every region are passable and connected to one another, and
    /// every passable cell is listed in a region.
    pub open spec fn wf(self) -> bool {
        &&& walkable(self.extent)
        &&& self.labels.len() == area(self.extent)
        &&& forall|g: int| 0 <= g < self.groups.len() ==> (#[trigger] self.groups[g]).len() > 0
        &&& forall|g: int, k: int|
            0 <= g < self.groups.len() && 0 <= k < self.groups[g].len() ==> self.open_cells().contains(
                #[trigger] self.groups[g][k],
            )
        &&& forall|g: int, k: int|
            0 <= g < self.groups.len() && 0 <= k < self.groups[g].len() ==> connected(
                self.open_cells(),
                self.groups[g][0],
                #[trigger] self.groups[g][k],
            )
        &&& forall|c: Coord| #[trigger] self.open_cells().contains(c) ==> self.listed(c)
    }

    /// The tunnel that joins the two nearest regions: the walk from the cell
    /// chosen in the first to the cell chosen in the second.
    pub open spec fn tunnel_line(self) -> Seq<Coord> {
        walk_grid_path(tunnel(self.groups).1, tunnel(self.groups).3)
    }

    /// The map after the two nearest regions have been joined.
    ///
    /// The tunnel between their closest cells takes the label of the first
    /// region, and so does every cell that carried the label of the second.
    /// The first region's list grows by the tunnel and by the cells of the
    /// second, whose place in the list of regions the last region takes.
    pub open spec fn merged(self) -> RegionMap {
        let (ia, pa, ib, pb) = tunnel(self.groups);
        let line = self.tunnel_line();
        let to = self.label(pa);
        let from = self.label(pb);
        RegionMap {
            extent: self.extent,
            labels: relabeled(carved(self.labels, self.extent, line, to), from, to),
            groups: Seq::new((self.groups.len() - 1) as nat, |g: int| region_after(self, g)),
        }
    }

    /// The map after regions have been joined, nearest first, until at most
    /// one is left.
    pub open spec fn settled(self) -> RegionMap
        decreases self.groups.len(),
    {
        if self.groups.len() <= 1 {
            self
        } else {
            proof {
                lemma_merged_count(self);
            }
            self.merged().settled()
        }
    }

    /// The map after `n` joins.
    pub open spec fn merged_times(self, n: nat) -> RegionMap
        decreases n,
    {
        if n == 0 {
            self
        } else {
            self.merged().merged_times((n - 1) as nat)
        }
    }

    /// The map of walls that the labels stand for: a wall wherever the label
    /// is `0`.
    pub open spec fn walls(self) -> Seq<bool> {
        Seq::new(self.labels.len(), |i: int| self.labels[i] == 0)
    }
}

/// In a well-formed map any two cells at most `MAX_SPAN` apart in each
/// direction, so every distance between cells stays far below the largest
/// `i32`.
pub proof fn lemma_wf_searchable(m: RegionMap)
    requires
        m.wf(),
    ensures
        crate::nearest::searchable(m.groups),
{
    assert forall|a: int, b: int, k: int, l: int|
        0 <= a < m.groups.len() && 0 <= b < m.groups.len() && 0 <= k < m.groups[a].len() && 0 <= l
            < m.groups[b].len() implies manhattan(
        #[trigger] m.groups[a][k],
        #[trigger] m.groups[b][l],
    ) < i32::MAX by {
        assert(m.open_cells().contains(m.groups[a][k]));
        assert(m.open_cells().contains(m.groups[b][l]));
    }
}

/// The cells inside the extent that no region holds yet: those labelled `-1`.
pub open spec fn unassigned(extent: Coord, labels: Seq<i32>) -> Set<Coord> {
    Set::new(|c: Coord| c.inside(extent) && labels[linear_index(extent, c)] == -1)
}

/// Whether position `n` is the first, in reading order, whose cell no region
/// holds yet.
pub open spec fn is_first_unassigned(labels: Seq<i32>, n: int) -> bool {
    &&& 0 <= n < labels.len()
    &&& labels[n] == -1
    &&& forall|m: int| 0 <= m < n ==> labels[m] != -1
}

/// The first position, in reading order, whose cell no region holds yet.
pub open spec fn first_unassigned(labels: Seq<i32>) -> int {
    choose|n: int| is_first_unassigned(labels, n)
}

/// The labels of a map of walls before any region is made: `0` for a wall,
/// `-1` for a passable cell.
pub open spec fn unlabelled(cells: Seq<bool>) -> Seq<i32> {
    Seq::new(
        cells.len(),
        |i: int|
            if cells[i] {
                0i32
            } else {
                -1i32
            },
    )
}

impl RegionMap {
    /// The map after the cells that no region holds yet have been made into
    /// regions, at most `fuel` of them. Each new region starts at the first
    /// such cell in reading order, holds the cells that a breadth-first
    /// traversal over such cells visits from there, in the order of visiting,
    /// and takes the next number.
    pub open spec fn split_on(self, fuel: nat) -> RegionMap
        decreases fuel,
    {
        if fuel == 0 || !(exists|n: int| is_first_unassigned(self.labels, n)) {
            self
        } else {
            let start = nth_coord(self.extent, first_unassigned(self.labels));
            let members = flood_order(self.extent, unassigned(self.extent, self.labels), start);
            (RegionMap {
                extent: self.extent,
                labels: carved(self.labels, self.extent, members, (self.groups.len() + 1) as i32),
                groups: self.groups.push(members),
            }).split_on((fuel - 1) as nat)
        }
    }
}

/// The regions of a map of walls: its passable cells split into regions, in
/// the order in which their first cell is met in reading order.
pub open spec fn split(cells: Seq<bool>, extent: Coord) -> RegionMap {
    (RegionMap { extent, labels: unlabelled(cells), groups: Seq::empty() }).split_on(
        area(extent) as nat,
    )
}

/// The map of walls with its regions joined, nearest first, until at most
/// one is left.
pub open spec fn joined(cells: Seq<bool>, extent: Coord) -> Seq<bool> {
    split(cells, extent).settled().walls()
}

/// No two positions are both the first whose cell no region holds yet.
pub proof fn lemma_first_unassigned_is(labels: Seq<i32>, n: int)
    requires
        is_first_unassigned(labels, n),
    ensures
        first_unassigned(labels) == n,
{
    let f = first_unassigned(labels);
    assert(is_first_unassigned(labels, f));
    if f < n {
        assert(labels[f] != -1);
    }
    if n < f {
        assert(labels[n] != -1);
    }
}

/// Whether `c` lies in the rectangle that `p` and `q` span.
pub open spec fn in_box(c: Coord, p: Coord, q: Coord) -> bool {
    between(c.0 as int, p.0 as int, q.0 as int) && between(c.1 as int, p.1 as int, q.1 as int)
}

/// Whether `c` lies in the smallest rectangle that holds all the cells of
/// `open`: some cell of `open` lies no further right, one no further left,
/// one no lower and one no higher.
#[verifier::opaque]
pub open spec fn in_hull(open: Set<Coord>, c: Coord) -> bool {
    &&& exists|a: Coord| #[trigger] open.contains(a) && a.0 <= c.0
    &&& exists|a: Coord| #[trigger] open.contains(a) && c.0 <= a.0
    &&& exists|a: Coord| #[trigger] open.contains(a) && a.1 <= c.1
    &&& exists|a: Coord| #[trigger] open.contains(a) && c.1 <= a.1
}

/// A cell of the set lies in its hull.
pub proof fn lemma_hull_member(open: Set<Coord>, c: Coord)
    requires
        open.contains(c),
    ensures
        in_hull(open, c),
{
    reveal(in_hull);
}

/// What lies in the rectangle spanned by two cells of the hull lies in the
/// hull.
pub proof fn lemma_hull_box(open: Set<Coord>, p: Coord, q: Coord, c: Coord)
    requires
        in_hull(open, p),
        in_hull(open, q),
        in_box(c, p, q),
    ensures
        in_hull(open, c),
{
    reveal(in_hull);
    let pl = choose|a: Coord| #[trigger] open.contains(a) && a.0 <= p.0;
    let pr = choose|a: Coord| #[trigger] open.contains(a) && p.0 <= a.0;
    let pu = choose|a: Coord| #[trigger] open.contains(a) && a.1 <= p.1;
    let pd = choose|a: Coord| #[trigger] open.contains(a) && p.1 <= a.1;
    let ql = choose|a: Coord| #[trigger] open.contains(a) && a.0 <= q.0;
    let qr = choose|a: Coord| #[trigger] open.contains(a) && q.0 <= a.0;
    let qu = choose|a: Coord| #[trigger] open.contains(a) && a.1 <= q.1;
    let qd = choose|a: Coord| #[trigger] open.contains(a) && q.1 <= a.1;
    assert(open.contains(pl) && open.contains(ql));
    assert(open.contains(pr) && open.contains(qr));
    assert(open.contains(pu) && open.contains(qu));
    assert(open.contains(pd) && open.contains(qd));
    assert(pl.0 <= c.0 || ql.0 <= c.0);
    assert(c.0 <= pr.0 || c.0 <= qr.0);
    assert(pu.1 <= c.1 || qu.1 <= c.1);
    assert(c.1 <= pd.1 || c.1 <= qd.1);
}

/// A cell that stands in a region's list is listed.
pub proof fn lemma_listed_intro(m: RegionMap, g: int, k: int)
    requires
        0 <= g < m.groups.len(),
        0 <= k < m.groups[g].len(),
    ensures
        m.listed(m.groups[g][k]),
{
    reveal(RegionMap::listed);
}

/// A listed cell stands in some region's list.
pub proof fn lemma_listed_elim(m: RegionMap, c: Coord) -> (at: (int, int))
    requires
        m.listed(c),
    ensures
        0 <= at.0 < m.groups.len(),
        0 <= at.1 < m.groups[at.0].len(),
        m.groups[at.0][at.1] == c,
{
    reveal(RegionMap::listed);
    choose|g: int, k: int|
        0 <= g < m.groups.len() && 0 <= k < m.groups[g].len() && #[trigger] m.groups[g][k] == c
}

/// A join takes one region off the list and leaves the extent alone.
pub proof fn lemma_merged_count(m: RegionMap)
    requires
        m.groups.len() >= 1,
    ensures
        m.merged().groups.len() == m.groups.len() - 1,
        m.merged().extent == m.extent,
        m.merged().labels.len() == m.labels.len(),
{
}

/// The two regions that a join brings together, and the cells it joins them
/// at: different regions of the list, and a cell of each.
pub proof fn lemma_tunnel_ends(m: RegionMap) -> (at: (int, int))
    requires
        m.wf(),
        first_nearest(m.groups, tunnel(m.groups).0, tunnel(m.groups).2),
    ensures
        m.groups.len() >= 2,
        two_regions(m.groups, tunnel(m.groups).0, tunnel(m.groups).2),
        0 <= at.0 < m.groups[tunnel(m.groups).0].len(),
        0 <= at.1 < m.groups[tunnel(m.groups).2].len(),
        tunnel(m.groups).1 == m.groups[tunnel(m.groups).0][at.0],
        tunnel(m.groups).3 == m.groups[tunnel(m.groups).2][at.1],
        m.open_cells().contains(tunnel(m.groups).1),
        m.open_cells().contains(tunnel(m.groups).3),
{
    let (ia, pa, ib, pb) = tunnel(m.groups);
    assert(two_regions(m.groups, ia, ib));
    let a = m.groups[ia];
    let b = m.groups[ib];
    crate::nearest::lemma_closest_exists(a, b);
    let (i0, j0) = closest_pair(a, b);
    assert(m.open_cells().contains(m.groups[ia][i0]));
    assert(m.open_cells().contains(m.groups[ib][j0]));
    (i0, j0)
}

/// After a join the passable cells are those that were passable before and
/// the cells of the tunnel.
pub proof fn lemma_merged_open(m: RegionMap)
    requires
        m.wf(),
        first_nearest(m.groups, tunnel(m.groups).0, tunnel(m.groups).2),
        is_staircase(m.tunnel_line(), tunnel(m.groups).1, tunnel(m.groups).3),
    ensures
        forall|c: Coord| #[trigger]
            m.merged().open_cells().contains(c) <==> m.open_cells().contains(c)
                || m.tunnel_line().contains(c),
        m.open_cells().subset_of(m.merged().open_cells()),
        forall|k: int|
            0 <= k < m.tunnel_line().len() ==> (#[trigger] m.tunnel_line()[k]).inside(m.extent),
        forall|c: Coord| #[trigger]
            m.merged().open_cells().contains(c) ==> m.open_cells().contains(c) || in_box(
                c,
                tunnel(m.groups).1,
                tunnel(m.groups).3,
            ),
{
    let (ia, pa, ib, pb) = tunnel(m.groups);
    let line = m.tunnel_line();
    let to = m.label(pa);
    let from = m.label(pb);
    let r = m.merged();
    let ends = lemma_tunnel_ends(m);
    assert(to != 0 && from != 0);
    lemma_staircase_inside(line, pa, pb);
    assert forall|k: int| 0 <= k < line.len() implies (#[trigger] line[k]).inside(m.extent) by {}
    let cut = carved(m.labels, m.extent, line, to);
    assert forall|c: Coord| #[trigger]
        r.open_cells().contains(c) <==> m.open_cells().contains(c) || line.contains(c) by {
        if line.contains(c) {
            let k = choose|k: int| 0 <= k < line.len() && line[k] == c;
            assert(line[k].inside(m.extent));
        }
        if c.inside(m.extent) {
            lemma_linear_index_inside(m.extent, c);
            let i = linear_index(m.extent, c);
            assert(cut[i] == if line.contains(c) {
                to
            } else {
                m.labels[i]
            });
            assert(r.labels[i] == if cut[i] == from {
                to
            } else {
                cut[i]
            });
            assert(r.label(c) == r.labels[i]);
        }
    }
    assert(m.open_cells().subset_of(r.open_cells()));
    assert forall|c: Coord| #[trigger]
        r.open_cells().contains(c) implies m.open_cells().contains(c) || in_box(c, pa, pb) by {
        if !m.open_cells().contains(c) {
            let k = choose|k: int| 0 <= k < line.len() && line[k] == c;
            assert(in_box(line[k], pa, pb));
        }
    }
}

/// Which region stands where after a join: the last region has taken the
/// place of the second region of the join, and the first region of the join
/// has grown by the tunnel and by the second.
pub open spec fn region_after(m: RegionMap, g: int) -> Seq<Coord> {
    let (ia, pa, ib, pb) = tunnel(m.groups);
    let from = if g == ib {
        m.groups.len() - 1
    } else {
        g
    };
    if from == ia {
        m.groups[ia] + m.tunnel_line() + m.groups[ib]
    } else {
        m.groups[from]
    }
}

/// The list of regions after a join, region by region.
pub proof fn lemma_merged_groups(m: RegionMap)
    requires
        m.groups.len() >= 2,
        two_regions(m.groups, tunnel(m.groups).0, tunnel(m.groups).2),
    ensures
        m.merged().groups.len() == m.groups.len() - 1,
        forall|g: int|
            0 <= g < m.groups.len() - 1 ==> #[trigger] m.merged().groups[g] == region_after(m, g),
{
}

/// Joining the two nearest regions of a well-formed map leaves a well-formed
/// map with one region fewer, in which every cell that was passable still is.
pub proof fn lemma_merged_wf(m: RegionMap)
    requires
        m.wf(),
        m.groups.len() >= 2,
        first_nearest(m.groups, tunnel(m.groups).0, tunnel(m.groups).2),
        is_staircase(m.tunnel_line(), tunnel(m.groups).1, tunnel(m.groups).3),
    ensures
        m.merged().wf(),
        m.merged().groups.len() == m.groups.len() - 1,
        m.merged().extent == m.extent,
        m.open_cells().subset_of(m.merged().open_cells()),
        forall|c: Coord| #[trigger]
            m.merged().open_cells().contains(c) <==> m.open_cells().contains(c)
                || m.tunnel_line().contains(c),
{
    let (ia, pa, ib, pb) = tunnel(m.groups);
    let line = m.tunnel_line();
    let n = m.groups.len() as int;
    let a = m.groups[ia];
    let b = m.groups[ib];
    let r = m.merged();
    let joined = a + line + b;
    let ends = lemma_tunnel_ends(m);
    lemma_merged_open(m);
    lemma_merged_groups(m);
    lemma_merged_count(m);
    let before = m.open_cells();
    let now = r.open_cells();
    let groups = r.groups;
    assert forall|g: int, k: int| 0 <= g < groups.len() && 0 <= k < groups[g].len() implies now.contains(
        #[trigger] groups[g][k],
    ) && connected(now, groups[g][0], groups[g][k]) by {
        let x = if g == ib {
            n - 1
        } else {
            g
        };
        assert(groups[g] == region_after(m, g));
        if x == ia {
            lemma_joined_connected(m, k);
        } else {
            assert(groups[g] == m.groups[x]);
            assert(before.contains(m.groups[x][k]));
            lemma_connected_mono(before, now, m.groups[x][0], m.groups[x][k]);
        }
    }
    assert forall|g: int| 0 <= g < groups.len() implies (#[trigger] groups[g]).len() > 0 by {
        let x = if g == ib {
            n - 1
        } else {
            g
        };
        assert(groups[g] == region_after(m, g));
        if x != ia {
            assert(groups[g] == m.groups[x]);
        }
    }
    let at_joined = if ia == n - 1 {
        ib
    } else {
        ia
    };
    assert(groups[at_joined] == region_after(m, at_joined));
    assert(groups[at_joined] == joined);
    assert forall|c: Coord| #[trigger] now.contains(c) implies r.listed(c) by {
        if line.contains(c) {
            let k = choose|k: int| 0 <= k < line.len() && line[k] == c;
            assert(joined[a.len() + k] == c);
            lemma_listed_intro(r, at_joined, a.len() + k);
        } else {
            assert(before.contains(c));
            assert(m.listed(c));
            let (g, k) = lemma_listed_elim(m, c);
            if g == ia {
                assert(joined[k] == c);
                lemma_listed_intro(r, at_joined, k);
            } else if g == ib {
                assert(joined[a.len() + line.len() + k] == c);
                lemma_listed_intro(r, at_joined, a.len() + line.len() + k);
            } else {
                let at = if g == n - 1 {
                    ib
                } else {
                    g
                };
                assert(r.groups[at] == region_after(m, at));
                assert(r.groups[at] == m.groups[g]);
                lemma_listed_intro(r, at, k);
            }
        }
    }
}

/// Every cell of the joined region is passable after the join and connected
/// to the region's first cell.
proof fn lemma_joined_connected(m: RegionMap, k: int)
    requires
        m.wf(),
        m.groups.len() >= 2,
        first_nearest(m.groups, tunnel(m.groups).0, tunnel(m.groups).2),
        is_staircase(m.tunnel_line(), tunnel(m.groups).1, tunnel(m.groups).3),
        m.open_cells().subset_of(m.merged().open_cells()),
        forall|c: Coord| m.tunnel_line().contains(c) ==> m.merged().open_cells().contains(c),
        0 <= k < (m.groups[tunnel(m.groups).0] + m.tunnel_line() + m.groups[tunnel(
            m.groups,
        ).2]).len(),
    ensures
        ({
            let joined = m.groups[tunnel(m.groups).0] + m.tunnel_line() + m.groups[tunnel(
                m.groups,
            ).2];
            &&& m.merged().open_cells().contains(joined[k])
            &&& connected(m.merged().open_cells(), joined[0], joined[k])
        }),
{
    let (ia, pa, ib, pb) = tunnel(m.groups);
    let line = m.tunnel_line();
    let a = m.groups[ia];
    let b = m.groups[ib];
    let joined = a + line + b;
    let now = m.merged().open_cells();
    let (i0, j0) = lemma_tunnel_ends(m);
    assert(joined[0] == a[0]);
    // the first region's own cells
    assert(m.open_cells().contains(m.groups[ia][i0]));
    lemma_connected_mono(m.open_cells(), now, a[0], a[i0]);
    // the tunnel
    assert(is_walk(line)) by {
        assert forall|i: int, j: int|
            0 <= i < line.len() && j == i + 1 && j < line.len() implies crate::coords::orthogonal(
            #[trigger] line[i],
            #[trigger] line[j],
        ) by {
            assert(crate::line::step_towards(line[i], line[j], pb));
        }
    }
    assert(walk_within(line, now)) by {
        assert forall|i: int| 0 <= i < line.len() implies now.contains(#[trigger] line[i]) by {
            assert(line.contains(line[i]));
        }
    }
    if k < a.len() {
        assert(joined[k] == a[k]);
        assert(m.open_cells().contains(m.groups[ia][k]));
        lemma_connected_mono(m.open_cells(), now, a[0], a[k]);
    } else if k < a.len() + line.len() {
        let t = k - a.len();
        assert(joined[k] == line[t]);
        lemma_walk_connects(now, line, t);
        lemma_connected_trans(now, a[0], pa, line[t]);
    } else {
        let t = k - a.len() - line.len();
        assert(joined[k] == b[t]);
        assert(m.open_cells().contains(m.groups[ib][t]));
        assert(m.open_cells().contains(m.groups[ib][j0]));
        lemma_walk_connects(now, line, line.len() - 1);
        lemma_connected_trans(now, a[0], pa, pb);
        lemma_connected_mono(m.open_cells(), now, b[0], b[j0]);
        lemma_connected_sym(now, b[0], pb);
        lemma_connected_mono(m.open_cells(), now, b[0], b[t]);
        lemma_connected_trans(now, a[0], pb, b[0]);
        lemma_connected_trans(now, a[0], b[0], b[t]);
    }
}

/// The area of a rectangle with sides that are not negative is the product of
/// the sides.
pub proof fn lemma_area_is_product(extent: Coord)
    requires
        0 <= extent.0,
        0 <= extent.1,
    ensures
        area(extent) == extent.0 * extent.1,
{
    assert(extent.0 == 0 || extent.1 == 0 ==> extent.0 * extent.1 == 0) by (nonlinear_arith);
}

/// A map being split into regions and joined up again: a label for every
/// cell, and the list of cells of every region.
pub struct Regions {
    ids: VecGrid<i32>,
    groups: Vec<Vec<Coord>>,
}

impl View for Regions {
    type V = RegionMap;

    closed spec fn view(&self) -> RegionMap {
        RegionMap { extent: self.ids.extent(), labels: self.ids@, groups: lists(self.groups@) }
    }
}

/// Whether every passable cell carries the number of the region that lists
/// it: region `g` lists each cell labelled `g + 1` once and no other cell,
/// and no passable cell is left without a region.
pub open spec fn numbered(m: RegionMap) -> bool {
    &&& forall|c: Coord|
        c.inside(m.extent) ==> 0 <= #[trigger] m.label(c) <= m.groups.len()
    &&& forall|g: int, k: int|
        0 <= g < m.groups.len() && 0 <= k < m.groups[g].len() ==> m.label(
            #[trigger] m.groups[g][k],
        ) == g + 1
    &&& forall|g: int| 0 <= g < m.groups.len() ==> (#[trigger] m.groups[g]).no_duplicates()
    &&& forall|c: Coord|
        c.inside(m.extent) && #[trigger] m.label(c) >= 1 ==> m.groups[m.label(c) - 1].contains(c)
}

/// Whether passable cells one step apart always carry the same label.
pub open spec fn neighbors_share(m: RegionMap) -> bool {
    forall|a: Coord, b: Coord|
        a.inside(m.extent) && b.inside(m.extent) && #[trigger] crate::coords::orthogonal(a, b)
            && m.label(a) != 0 && m.label(b) != 0 ==> m.label(a) == m.label(b)
}

impl Regions {
    /// The labels are stored consistently and the regions account for the
    /// passable cells.
    pub closed spec fn wf(&self) -> bool {
        self.ids.wf() && self@.wf()
    }

    /// The number of regions.
    pub fn len(&self) -> (n: usize)
        ensures
            n == self@.groups.len(),
    {
        self.groups.len()
    }

    /// Splits the passable cells of a map of walls into regions: a region is
    /// a largest set of passable cells that can be walked in orthogonal
    /// steps. Regions are numbered from 1 in the order in which their first
    /// cell is met in reading order.
    pub fn partition(grid: &VecGrid<bool>) -> (regions: Regions)
        requires
            grid.wf(),
            walkable(grid.extent()),
        ensures
            regions.wf(),
            regions@.extent == grid.extent(),
            regions@.open_cells() == floor(grid),
            numbered(regions@),
            neighbors_share(regions@),
            regions@ == split(grid@, grid.extent()),
    {
        let mut ids: VecGrid<i32> = VecGrid::new(grid.size(), 0);
        let ghost extent = grid.extent();
        let dims = ids.size();
        proof {
            lemma_area_is_product(extent);
        }
        // First, mark all the empty spaces as unassigned.
        let mut it = dims.into_iter();
        loop
            invariant_except_break
                it.wf(),
                it.extent() == extent,
            invariant
                grid.wf(),
                extent == grid.extent(),
                ids.wf(),
                ids.extent() == extent,
                ids.filler() == 0,
                ids@.len() == area(extent),
                grid@.len() == area(extent),
                forall|n: int|
                    0 <= n < area(extent) && n < it.position() ==> ids@[n] == (if grid@[n] {
                        0i32
                    } else {
                        -1i32
                    }),
                forall|n: int| it.position() <= n < area(extent) ==> ids@[n] == 0,
            ensures
                it.position() >= area(extent),
            decreases area(extent) - it.position(),
        {
            let ghost n = it.position();
            match it.next() {
                Some(c) => {
                    proof {
                        lemma_nth_coord_inside(extent, n);
                    }
                    if !grid[c] {
                        *ids.index_mut(c) = -1;
                    }
                },
                None => {
                    break ;
                },
            }
        }
        let mut regions = Regions { ids, groups: Vec::new() };
        proof {
            assert(regions@.groups =~= Seq::<Seq<Coord>>::empty());
            assert forall|c: Coord| c.inside(extent) implies #[trigger] regions@.label(c) == (
            if grid.lookup(c) {
                0i32
            } else {
                -1i32
            }) by {
                lemma_linear_index_inside(extent, c);
            }
        }
        proof {
            assert(regions@.labels =~= unlabelled(grid@));
        }
        let mut group_num: i32 = 1;
        let ghost mut next_from: int = 0;
        loop
            invariant
                grid.wf(),
                walkable(extent),
                extent == grid.extent(),
                regions.ids.wf(),
                regions.ids.extent() == extent,
                regions@.extent == extent,
                regions@.labels.len() == area(extent),
                group_num == regions.groups.len() + 1,
                regions.groups.len() <= next_from <= area(extent),
                forall|c: Coord|
                    c.inside(extent) ==> (grid.lookup(c) <==> #[trigger] regions@.label(c) == 0),
                forall|c: Coord|
                    c.inside(extent) ==> -1 <= #[trigger] regions@.label(c)
                        <= regions.groups.len(),
                forall|g: int, k: int|
                    0 <= g < regions@.groups.len() && 0 <= k < regions@.groups[g].len() ==> (
                    #[trigger] regions@.groups[g][k]).inside(extent) && regions@.label(
                        regions@.groups[g][k],
                    ) == g + 1,
                forall|g: int|
                    0 <= g < regions@.groups.len() ==> (#[trigger] regions@.groups[g]).no_duplicates()
                        && regions@.groups[g].len() > 0,
                forall|c: Coord|
                    c.inside(extent) && #[trigger] regions@.label(c) >= 1
                        ==> regions@.groups[regions@.label(c) - 1].contains(c),
                forall|g: int, k: int|
                    0 <= g < regions@.groups.len() && 0 <= k < regions@.groups[g].len()
                        ==> connected(
                        floor(grid),
                        regions@.groups[g][0],
                        #[trigger] regions@.groups[g][k],
                    ),
                forall|a: Coord, b: Coord|
                    a.inside(extent) && b.inside(extent) && #[trigger] crate::coords::orthogonal(
                        a,
                        b,
                    ) && regions@.label(a) >= 1 ==> regions@.label(b) == regions@.label(a)
                        || regions@.label(b) == 0,
                forall|n: int|
                    0 <= n < next_from && n < area(extent) ==> regions@.label(
                        #[trigger] nth_coord(extent, n),
                    ) != -1,
                regions@.split_on((area(extent) - regions.groups.len()) as nat) == split(
                    grid@,
                    extent,
                ),
            ensures
                forall|c: Coord| c.inside(extent) ==> #[trigger] regions@.label(c) != -1,
                regions@ == split(grid@, extent),
            decreases area(extent) - next_from,
        {
            let ghost before = regions@;
            let waiting = |c: &i32| -> (b: bool)
                ensures
                    b == (*c == -1i32),
                { *c == -1 };
            // First, find some unassigned cell:
            match regions.ids.find(waiting) {
                Some(start) => {
                    let ghost n = choose|n: int|
                        {
                            &&& 0 <= n < area(extent)
                            &&& start == nth_coord(extent, n)
                            &&& call_ensures(waiting, (&regions.ids.lookup(start),), true)
                            &&& forall|m: int|
                                0 <= m < n ==> call_ensures(
                                    waiting,
                                    (&regions.ids.lookup(#[trigger] nth_coord(extent, m)),),
                                    false,
                                )
                        };
                    proof {
                        lemma_nth_coord_inside(extent, n);
                        assert(before.label(start) == -1) by {
                            lemma_linear_index_inside(extent, start);
                        }
                        if n < next_from {
                            assert(before.label(nth_coord(extent, n)) != -1);
                        }
                        assert forall|m: int| 0 <= m < n implies before.label(
                            #[trigger] nth_coord(extent, m),
                        ) != -1 by {
                            lemma_nth_coord_inside(extent, m);
                            lemma_linear_index_inside(extent, nth_coord(extent, m));
                            assert(call_ensures(
                                waiting,
                                (&regions.ids.lookup(nth_coord(extent, m)),),
                                false,
                            ));
                        }
                    }
                    // Now, fill all the things that it's connected to:
                    let fresh = |c: &i32| -> (b: bool)
                        ensures
                            b == (*c == -1i32),
                        { *c == -1 };
                    let group_coords = bft(&regions.ids, start, fresh);
                    let ghost reach = admitted(&regions.ids, &fresh);
                    proof {
                        assert forall|c: Coord|
                            c.inside(extent) && before.label(c) == -1 implies reach.contains(
                            c,
                        ) by {
                            lemma_linear_index_inside(extent, c);
                        }
                        assert forall|c: Coord|
                            connected(reach, start, c) implies group_coords@.contains(c) by {}
                        assert forall|i: int| 0 <= i < group_coords.len() implies before.label(
                            #[trigger] group_coords[i],
                        ) == -1 by {
                            assert(accepts(&regions.ids, &fresh, group_coords[i]));
                            lemma_linear_index_inside(extent, group_coords[i]);
                        }
                        assert(!rejects(&regions.ids, &fresh, start));
                        assert(group_coords.len() > 0);
                        let pass = unassigned(extent, before.labels);
                        assert forall|c: Coord| c.inside(extent) implies (accepts(
                            &regions.ids,
                            &fresh,
                            c,
                        ) ==> #[trigger] pass.contains(c)) && (rejects(&regions.ids, &fresh, c)
                            ==> !pass.contains(c)) by {
                            lemma_linear_index_inside(extent, c);
                        }
                        assert(agrees(&regions.ids, &fresh, pass));
                        assert(group_coords@ == flood_order(extent, pass, start));
                        assert(is_first_unassigned(before.labels, n)) by {
                            lemma_linear_index_inside(extent, start);
                            assert forall|m: int| 0 <= m < n implies before.labels[m] != -1 by {
                                lemma_nth_coord_inside(extent, m);
                                assert(before.label(nth_coord(extent, m)) != -1);
                            }
                        }
                        lemma_first_unassigned_is(before.labels, n);
                    }
                    let mut j: usize = 0;
                    while j < group_coords.len()
                        invariant
                            j <= group_coords.len(),
                            regions.ids.wf(),
                            regions.ids.extent() == extent,
                            lists(regions.groups@) == before.groups,
                            group_coords@.no_duplicates(),
                            forall|i: int|
                                0 <= i < group_coords.len() ==> (#[trigger] group_coords[i]).inside(
                                    extent,
                                ),
                            forall|c: Coord|
                                c.inside(extent) ==> #[trigger] regions.ids.lookup(c) == (
                                if group_coords@.take(j as int).contains(c) {
                                    group_num
                                } else {
                                    before.label(c)
                                }),
                        decreases group_coords.len() - j,
                    {
                        let g = group_coords[j];
                        *regions.ids.index_mut(g) = group_num;
                        proof {
                            let done = group_coords@.take(j as int);
                            let more = group_coords@.take(j + 1);
                            assert(more =~= done.push(g));
                            assert forall|c: Coord| more.contains(c) <==> done.contains(c) || c
                                == g by {
                                if done.contains(c) {
                                    let i = choose|i: int| 0 <= i < done.len() && done[i] == c;
                                    assert(more[i] == c);
                                }
                                if c == g {
                                    assert(more[j as int] == c);
                                }
                            }
                        }
                        j += 1;
                    }
                    proof {
                        assert(group_coords@.take(group_coords.len() as int) =~= group_coords@);
                    }
                    let ghost members = group_coords@;
                    regions.groups.push(group_coords);
                    group_num += 1;
                    proof {
                        let after = regions@;
                        let count = before.groups.len() as int;
                        assert(after.groups =~= before.groups.push(members));
                        assert(after.labels =~= carved(
                            before.labels,
                            extent,
                            members,
                            (count + 1) as i32,
                        )) by {
                            assert forall|i: int| 0 <= i < after.labels.len() implies after.labels[i]
                                == carved(before.labels, extent, members, (count + 1) as i32)[i] by {
                                lemma_nth_coord_inside(extent, i);
                                let c = nth_coord(extent, i);
                                assert(regions.ids.lookup(c) == after.labels[i]);
                            }
                        }
                        assert(before.split_on((area(extent) - count) as nat) == after.split_on(
                            (area(extent) - count - 1) as nat,
                        ));
                        assert forall|c: Coord| c.inside(extent) implies #[trigger] after.label(c) == (
                        if members.contains(c) {
                            (count + 1) as i32
                        } else {
                            before.label(c)
                        }) by {
                            lemma_linear_index_inside(extent, c);
                            assert(after.label(c) == regions.ids.lookup(c));
                        }
                        assert forall|i: int| 0 <= i < members.len() implies members.contains(
                            #[trigger] members[i],
                        ) by {}
                        // the new region is connected over the floor
                        assert forall|c: Coord| members.to_set().contains(c) implies floor(
                            grid,
                        ).contains(c) by {
                            let i = choose|i: int| 0 <= i < members.len() && members[i] == c;
                            assert(before.label(members[i]) == -1);
                        }
                        assert(members.to_set().subset_of(floor(grid)));
                        assert forall|g: int, k: int|
                            0 <= g < after.groups.len() && 0 <= k < after.groups[g].len() implies connected(
                            floor(grid),
                            after.groups[g][0],
                            #[trigger] after.groups[g][k],
                        ) by {
                            if g < count {
                                assert(after.groups[g] == before.groups[g]);
                            } else {
                                assert(after.groups[g] == members);
                                lemma_connected_mono(
                                    members.to_set(),
                                    floor(grid),
                                    start,
                                    members[k],
                                );
                            }
                        }
                        assert forall|g: int, k: int|
                            0 <= g < after.groups.len() && 0 <= k < after.groups[g].len() implies (
                        #[trigger] after.groups[g][k]).inside(extent) && after.label(
                            after.groups[g][k],
                        ) == g + 1 by {
                            if g < count {
                                assert(after.groups[g] == before.groups[g]);
                                let c = before.groups[g][k];
                                assert(before.label(c) == g + 1);
                                if members.contains(c) {
                                    let i = choose|i: int| 0 <= i < members.len() && members[i] == c;
                                    assert(before.label(members[i]) == -1);
                                }
                            } else {
                                assert(after.groups[g] == members);
                            }
                        }
                        assert forall|g: int| 0 <= g < after.groups.len() implies (
                        #[trigger] after.groups[g]).no_duplicates() && after.groups[g].len() > 0 by {
                            if g < count {
                                assert(after.groups[g] == before.groups[g]);
                            } else {
                                assert(after.groups[g] == members);
                            }
                        }
                        assert forall|c: Coord|
                            c.inside(extent) && #[trigger] after.label(c)
                                >= 1 implies after.groups[after.label(c) - 1].contains(c) by {
                            if members.contains(c) {
                                assert(after.groups[count] == members);
                            } else {
                                let g = before.label(c) - 1;
                                assert(after.groups[g] == before.groups[g]);
                            }
                        }
                        // a fresh cell has no neighbour left unassigned or in an older region
                        assert forall|a: Coord, b: Coord|
                            a.inside(extent) && b.inside(extent) && #[trigger] crate::coords::orthogonal(
                                a,
                                b,
                            ) && after.label(a) >= 1 implies after.label(b) == after.label(a)
                            || after.label(b) == 0 by {
                            if members.contains(a) {
                                if !members.contains(b) && before.label(b) != 0 {
                                    if before.label(b) == -1 {
                                        let i = choose|i: int|
                                            0 <= i < members.len() && members[i] == a;
                                        assert forall|c: Coord|
                                            members.to_set().contains(c) implies reach.contains(
                                            c,
                                        ) by {
                                            let t = choose|t: int|
                                                0 <= t < members.len() && members[t] == c;
                                            assert(before.label(members[t]) == -1);
                                        }
                                        assert(members.to_set().subset_of(reach));
                                        lemma_connected_mono(
                                            members.to_set(),
                                            reach,
                                            start,
                                            members[i],
                                        );
                                        assert(before.label(a) == -1) by {
                                            assert(before.label(members[i]) == -1);
                                        }
                                        lemma_connected_step(reach, a, b);
                                        lemma_connected_trans(reach, start, a, b);
                                        assert(members.contains(b));
                                    } else {
                                        assert(crate::coords::orthogonal(b, a));
                                        assert(before.label(a) == -1) by {
                                            let i = choose|i: int|
                                                0 <= i < members.len() && members[i] == a;
                                            assert(before.label(members[i]) == -1);
                                        }
                                    }
                                }
                            } else {
                                if members.contains(b) {
                                    let i = choose|i: int| 0 <= i < members.len() && members[i] == b;
                                    assert(before.label(members[i]) == -1);
                                }
                            }
                        }
                        assert forall|m: int| 0 <= m < n + 1 && m < area(extent) implies after.label(
                            #[trigger] nth_coord(extent, m),
                        ) != -1 by {
                            lemma_nth_coord_inside(extent, m);
                            let c = nth_coord(extent, m);
                            if m < n {
                                assert(before.label(nth_coord(extent, m)) != -1);
                            } else {
                                assert(members[0] == start);
                            }
                        }
                        next_from = n + 1;
                    }
                },
                None => {
                    proof {
                        assert forall|n: int| !is_first_unassigned(regions@.labels, n) by {
                            if 0 <= n < regions@.labels.len() {
                                lemma_nth_coord_inside(extent, n);
                                assert(call_ensures(
                                    waiting,
                                    (&regions.ids.lookup(nth_coord(extent, n)),),
                                    false,
                                ));
                            }
                        }
                        assert forall|c: Coord| c.inside(extent) implies #[trigger] regions@.label(
                            c,
                        ) != -1 by {
                            lemma_linear_index_inside(extent, c);
                            let n = linear_index(extent, c);
                            assert(nth_coord(extent, n) == c);
                            assert(call_ensures(
                                waiting,
                                (&regions.ids.lookup(nth_coord(extent, n)),),
                                false,
                            ));
                        }
                    }
                    break ;
                },
            }
        }
        proof {
            let m = regions@;
            assert(m.open_cells() =~= floor(grid));
            assert forall|c: Coord| #[trigger] m.open_cells().contains(c) implies m.listed(c) by {
                let g = m.label(c) - 1;
                let k = choose|k: int| 0 <= k < m.groups[g].len() && m.groups[g][k] == c;
                lemma_listed_intro(m, g, k);
            }
        }
        regions
    }

    /// Joins the two regions that lie nearest to each other: digs a tunnel
    /// between their closest cells, gives the tunnel and the second region
    /// to the first, and takes the second off the list, where the last
    /// region takes its place.
    ///
    /// Each join leaves exactly one region fewer, and no passable cell
    /// becomes a wall.
    pub fn merge_closest(&mut self)
        requires
            old(self).wf(),
            old(self)@.groups.len() >= 2,
        ensures
            final(self).wf(),
            final(self)@ == old(self)@.merged(),
            final(self)@.groups.len() == old(self)@.groups.len() - 1,
            final(self)@.extent == old(self)@.extent,
            old(self)@.open_cells().subset_of(final(self)@.open_cells()),
            old(self)@.open_cells().contains(tunnel(old(self)@.groups).1),
            old(self)@.open_cells().contains(tunnel(old(self)@.groups).3),
            forall|c: Coord| #[trigger]
                final(self)@.open_cells().contains(c) ==> old(self)@.open_cells().contains(c)
                    || in_box(c, tunnel(old(self)@.groups).1, tunnel(old(self)@.groups).3),
    {
        let ghost m = self@;
        let ghost extent = m.extent;
        proof {
            lemma_wf_searchable(m);
        }
        // Find the shortest tunnel that will connect two regions.
        let (idx_a, pt_a, idx_b, pt_b) = shortest_tunnel(&self.groups);
        proof {
            let ends = lemma_tunnel_ends(m);
            lemma_area_is_product(extent);
            lemma_linear_index_inside(extent, pt_a);
            lemma_linear_index_inside(extent, pt_b);
        }
        // All of the second region turns into the first, so dig a tunnel of
        // the first.
        let tgt = self.ids[pt_a];
        let old = self.ids[pt_b];
        let line = walk_grid(pt_a, pt_b);
        proof {
            lemma_merged_open(m);
        }
        let mut i: usize = 0;
        while i < line.len()
            invariant
                i <= line.len(),
                idx_a < self.groups.len(),
                self.groups.len() == m.groups.len(),
                self.ids.wf(),
                self.ids.extent() == extent,
                self.ids@.len() == area(extent),
                line@ == m.tunnel_line(),
                forall|k: int| 0 <= k < line.len() ==> (#[trigger] line[k]).inside(extent),
                self.ids@ == carved(m.labels, extent, line@.take(i as int), tgt),
                forall|g: int|
                    0 <= g < self.groups.len() && g != idx_a ==> (#[trigger] self.groups[g])@
                        == m.groups[g],
                self.groups[idx_a as int]@ == m.groups[idx_a as int] + line@.take(i as int),
            decreases line.len() - i,
        {
            let lp = line[i];
            *self.ids.index_mut(lp) = tgt;
            self.groups[idx_a].push(lp);
            proof {
                let done = line@.take(i as int);
                let more = line@.take(i + 1);
                assert(more =~= done.push(lp));
                lemma_linear_index_inside(extent, lp);
                assert forall|n: int| 0 <= n < area(extent) implies #[trigger] self.ids@[n] == carved(
                    m.labels,
                    extent,
                    more,
                    tgt,
                )[n] by {
                    lemma_nth_coord_inside(extent, n);
                    let c = nth_coord(extent, n);
                    if c == lp {
                        assert(more[i as int] == c);
                    } else {
                        if done.contains(c) {
                            let t = choose|t: int| 0 <= t < done.len() && done[t] == c;
                            assert(more[t] == c);
                        }
                        if more.contains(c) {
                            let t = choose|t: int| 0 <= t < more.len() && more[t] == c;
                            assert(done[t] == c);
                        }
                    }
                }
                assert(self.ids@ =~= carved(m.labels, extent, more, tgt));
                assert(self.groups[idx_a as int]@ =~= m.groups[idx_a as int] + more);
            }
            i += 1;
        }
        proof {
            assert(line@.take(line.len() as int) =~= line@);
        }
        let ghost cut = self.ids@;
        // Change the cells in the region we just joined.
        let dims = self.ids.size();
        let mut it = dims.into_iter();
        loop
            invariant_except_break
                it.wf(),
                it.extent() == extent,
            invariant
                self.ids.wf(),
                self.ids.extent() == extent,
                self.ids@.len() == area(extent),
                cut.len() == area(extent),
                self.groups.len() == m.groups.len(),
                forall|g: int|
                    0 <= g < self.groups.len() && g != idx_a ==> (#[trigger] self.groups[g])@
                        == m.groups[g],
                self.groups[idx_a as int]@ == m.groups[idx_a as int] + line@,
                forall|n: int|
                    0 <= n < area(extent) && n < it.position() ==> self.ids@[n] == relabeled(
                        cut,
                        old,
                        tgt,
                    )[n],
                forall|n: int| it.position() <= n < area(extent) ==> self.ids@[n] == cut[n],
            ensures
                it.position() >= area(extent),
            decreases area(extent) - it.position(),
        {
            let ghost n = it.position();
            match it.next() {
                Some(pt) => {
                    proof {
                        lemma_nth_coord_inside(extent, n);
                    }
                    if self.ids[pt] == old {
                        *self.ids.index_mut(pt) = tgt;
                    }
                },
                None => {
                    break ;
                },
            }
        }
        proof {
            assert(self.ids@ =~= relabeled(cut, old, tgt));
        }
        // Append the second region's cells to the first, and drop the second.
        let mut old_coords = copy_of(&self.groups[idx_b]);
        self.groups[idx_a].append(&mut old_coords);
        self.groups.swap_remove(idx_b);
        proof {
            let r = m.merged();
            lemma_merged_count(m);
            assert(self@.groups.len() == r.groups.len());
            assert forall|g: int| 0 <= g < r.groups.len() implies #[trigger] self@.groups[g]
                == r.groups[g] by {
                assert(r.groups[g] == region_after(m, g));
                assert(self@.groups[g] == self.groups[g]@);
            }
            assert(self@.groups =~= r.groups);
            assert(self@.labels == r.labels);
            lemma_merged_wf(m);
        }
    }

    /// Joins regions, nearest first, until at most one is left. A map with
    /// no region or with one is left as it is.
    pub fn connect(&mut self)
        requires
            old(self).wf(),
        ensures
            final(self).wf(),
            final(self)@ == old(self)@.settled(),
            old(self)@.groups.len() >= 1 ==> final(self)@ == old(self)@.merged_times(
                (old(self)@.groups.len() - 1) as nat,
            ),
            final(self)@.groups.len() == if old(self)@.groups.len() == 0 {
                0int
            } else {
                1int
            },
            final(self)@.extent == old(self)@.extent,
            old(self)@.open_cells().subset_of(final(self)@.open_cells()),
            all_connected(final(self)@.open_cells()),
            forall|c: Coord| #[trigger]
                final(self)@.open_cells().contains(c) ==> in_hull(old(self)@.open_cells(), c),
    {
        let ghost start = self@;
        let ghost mut joins: nat = 0;
        proof {
            assert forall|c: Coord| #[trigger] start.open_cells().contains(c) implies in_hull(
                start.open_cells(),
                c,
            ) by {
                lemma_hull_member(start.open_cells(), c);
            }
        }
        while self.groups.len() > 1
            invariant
                self.wf(),
                forall|c: Coord| #[trigger]
                    self@.open_cells().contains(c) ==> in_hull(start.open_cells(), c),
                self@.settled() == start.settled(),
                self@.extent == start.extent,
                start.open_cells().subset_of(self@.open_cells()),
                self@ == start.merged_times(joins),
                self@.groups.len() + joins == start.groups.len(),
                self@.groups.len() == self.groups.len(),
                start.groups.len() >= 1 ==> self.groups.len() >= 1,
            decreases self.groups.len(),
        {
            let ghost before = self@;
            self.merge_closest();
            proof {
                lemma_merged_times_more(start, joins);
                joins = joins + 1;
                let p = tunnel(before.groups).1;
                let q = tunnel(before.groups).3;
                assert forall|c: Coord| #[trigger] self@.open_cells().contains(c) implies in_hull(
                    start.open_cells(),
                    c,
                ) by {
                    if !before.open_cells().contains(c) {
                        assert(before.open_cells().contains(p));
                        assert(before.open_cells().contains(q));
                        lemma_hull_box(start.open_cells(), p, q, c);
                    }
                }
            }
        }
        proof {
            lemma_one_region_connected(self@);
        }
    }

    /// The map of walls that the labels stand for: a wall wherever a cell
    /// belongs to no region.
    pub fn into_walls(self) -> (walls: VecGrid<bool>)
        requires
            self.wf(),
        ensures
            walls.wf(),
            walls.extent() == self@.extent,
            walls.filler() == false,
            walls@ == self@.walls(),
            floor(&walls) == self@.open_cells(),
    {
        let dims = self.ids.size();
        let ghost extent = self@.extent;
        proof {
            lemma_area_is_product(extent);
        }
        let mut new_grid = VecGrid::new(dims, false);
        let mut it = dims.into_iter();
        loop
            invariant_except_break
                it.wf(),
                it.extent() == extent,
            invariant
                self.ids.wf(),
                self.ids.extent() == extent,
                self.ids@.len() == area(extent),
                new_grid.wf(),
                new_grid.extent() == extent,
                new_grid.filler() == false,
                new_grid@.len() == area(extent),
                forall|n: int|
                    0 <= n < area(extent) && n < it.position() ==> new_grid@[n] == (self.ids@[n]
                        == 0),
            ensures
                it.position() >= area(extent),
            decreases area(extent) - it.position(),
        {
            let ghost n = it.position();
            match it.next() {
                Some(c) => {
                    proof {
                        lemma_nth_coord_inside(extent, n);
                    }
                    let wall = self.ids[c] == 0;
                    *new_grid.index_mut(c) = wall;
                },
                None => {
                    break ;
                },
            }
        }
        proof {
            assert(new_grid@ =~= self@.walls());
            assert forall|c: Coord| floor(&new_grid).contains(c) <==> self@.open_cells().contains(
                c,
            ) by {
                if c.inside(extent) {
                    lemma_linear_index_inside(extent, c);
                }
            }
            assert(floor(&new_grid) =~= self@.open_cells());
        }
        new_grid
    }
}

/// A copy of a list of coordinates.
fn copy_of(list: &Vec<Coord>) -> (copy: Vec<Coord>)
    ensures
        copy@ == list@,
{
    let mut copy: Vec<Coord> = Vec::with_capacity(list.len());
    let mut i: usize = 0;
    while i < list.len()
        invariant
            i <= list.len(),
            copy@ == list@.take(i as int),
        decreases list.len() - i,
    {
        copy.push(list[i]);
        i += 1;
        assert(copy@ =~= list@.take(i as int));
    }
    assert(copy@ =~= list@);
    copy
}

/// One more join after `n` joins is `n + 1` joins.
pub proof fn lemma_merged_times_more(m: RegionMap, n: nat)
    ensures
        m.merged_times(n).merged() == m.merged_times(n + 1),
    decreases n,
{
    if n > 0 {
        lemma_merged_times_more(m.merged(), (n - 1) as nat);
        assert(m.merged_times(n) == m.merged().merged_times((n - 1) as nat));
        assert(m.merged_times(n + 1) == m.merged().merged_times(n));
    } else {
        assert(m.merged_times(0) == m);
        assert(m.merged_times(1) == m.merged().merged_times(0));
        assert(m.merged().merged_times(0) == m.merged());
    }
}

/// In a well-formed map with at most one region all passable cells are
/// connected.
pub proof fn lemma_one_region_connected(m: RegionMap)
    requires
        m.wf(),
        m.groups.len() <= 1,
    ensures
        all_connected(m.open_cells()),
{
    let open = m.open_cells();
    assert forall|a: Coord, b: Coord| open.contains(a) && open.contains(b) implies connected(
        open,
        a,
        b,
    ) by {
        let (ga, ka) = lemma_listed_elim(m, a);
        let (gb, kb) = lemma_listed_elim(m, b);
        let first = m.groups[0][0];
        assert(connected(open, m.groups[0][0], m.groups[0][ka]));
        assert(connected(open, m.groups[0][0], m.groups[0][kb]));
        lemma_connected_sym(open, first, a);
        lemma_connected_trans(open, a, first, b);
    }
}

/// Digs tunnels through a map of walls until all its passable cells are
/// connected. `true` marks a wall, `false` a passable cell.
///
/// The passable cells are split into regions, and the two nearest regions
/// are joined by a straight tunnel until one region is left. Passable cells
/// stay passable; a map whose passable cells are connected already comes
/// back with the same cells, and no tunnel leaves the smallest rectangle
/// that holds the passable cells. Outside the result every cell reads
/// `false`.
pub fn connect_groups(grid: VecGrid<bool>) -> (joined: VecGrid<bool>)
    requires
        grid.wf(),
        walkable(grid.extent()),
    ensures
        joined.wf(),
        joined.extent() == grid.extent(),
        joined.filler() == false,
        floor(&grid).subset_of(floor(&joined)),
        all_connected(floor(&joined)),
        all_connected(floor(&grid)) ==> joined@ == grid@,
        joined@ == self::joined(grid@, grid.extent()),
        forall|c: Coord| #[trigger] floor(&joined).contains(c) ==> in_hull(floor(&grid), c),
{
    let mut regions = Regions::partition(&grid);
    let ghost parts = regions@;
    regions.connect();
    let joined = regions.into_walls();
    proof {
        if all_connected(floor(&grid)) {
            lemma_connected_is_one_region(parts);
            assert(parts.settled() == parts);
            lemma_area_is_product(grid.extent());
            assert forall|n: int| 0 <= n < grid@.len() implies joined@[n] == grid@[n] by {
                lemma_nth_coord_inside(grid.extent(), n);
                let c = nth_coord(grid.extent(), n);
                assert(floor(&grid).contains(c) <==> parts.open_cells().contains(c));
            }
            assert(joined@ =~= grid@);
        }
    }
    joined
}

/// Where all passable cells are connected and passable neighbours share a
/// label, there is at most one region.
pub proof fn lemma_connected_is_one_region(m: RegionMap)
    requires
        m.wf(),
        numbered(m),
        neighbors_share(m),
        all_connected(m.open_cells()),
    ensures
        m.groups.len() <= 1,
{
    if m.groups.len() >= 2 {
        let a = m.groups[0][0];
        let b = m.groups[1][0];
        assert(m.open_cells().contains(m.groups[0][0]));
        assert(m.open_cells().contains(m.groups[1][0]));
        assert(connected(m.open_cells(), a, b));
        let p = choose|p: Seq<Coord>| crate::paths::links(m.open_cells(), p, a, b);
        lemma_walk_one_label(m, p, p.len() - 1);
        assert(m.label(m.groups[0][0]) == 1);
        assert(m.label(m.groups[1][0]) == 2);
    }
}

/// Along a walk over passable cells the label never changes.
proof fn lemma_walk_one_label(m: RegionMap, p: Seq<Coord>, k: int)
    requires
        neighbors_share(m),
        is_walk(p),
        walk_within(p, m.open_cells()),
        0 <= k < p.len(),
    ensures
        m.label(p[k]) == m.label(p[0]),
    decreases k,
{
    if k > 0 {
        lemma_walk_one_label(m, p, k - 1);
        assert(crate::coords::orthogonal(p[k - 1], p[k]));
        assert(m.open_cells().contains(p[k - 1]));
        assert(m.open_cells().contains(p[k]));
    }
}

} // verus!
