//! Nearest pairs: the closest two cells of two regions, and the closest two
//! regions of a list.

use vstd::prelude::*;
use crate::coords::{manhattan, xy, Coord};

verus! {

/// Whether `(i1, j1)` comes before `(i2, j2)` in the order in which pairs are
/// visited: first index in the outer loop, second in the inner.
pub open spec fn before(i1: int, j1: int, i2: int, j2: int) -> bool {
    i1 < i2 || (i1 == i2 && j1 < j2)
}

/// Whether `(i, j)` is the first pair of positions, in visiting order, at
/// which the distance between a cell of `g1` and a cell of `g2` is smallest.
pub open spec fn first_closest(g1: Seq<Coord>, g2: Seq<Coord>, i: int, j: int) -> bool {
    &&& 0 <= i < g1.len()
    &&& 0 <= j < g2.len()
    &&& forall|k: int, l: int|
        0 <= k < g1.len() && 0 <= l < g2.len() ==> manhattan(g1[i], g2[j]) <= manhattan(
            #[trigger] g1[k],
            #[trigger] g2[l],
        )
    &&& forall|k: int, l: int|
        0 <= k < g1.len() && 0 <= l < g2.len() && before(k, l, i, j) ==> manhattan(g1[i], g2[j])
            < manhattan(#[trigger] g1[k], #[trigger] g2[l])
}

/// The positions of the first closest pair of cells of two non-empty regions.
pub open spec fn closest_pair(g1: Seq<Coord>, g2: Seq<Coord>) -> (int, int) {
    choose|p: (int, int)| first_closest(g1, g2, p.0, p.1)
}

/// The first closest pair of cells of two non-empty regions, with their
/// distance.
pub open spec fn closest(g1: Seq<Coord>, g2: Seq<Coord>) -> (Coord, Coord, int) {
    let (i, j) = closest_pair(g1, g2);
    (g1[i], g2[j], manhattan(g1[i], g2[j]))
}

/// No two different pairs are both the first closest pair.
pub proof fn lemma_first_closest_unique(g1: Seq<Coord>, g2: Seq<Coord>, i: int, j: int, k: int, l: int)
    requires
        first_closest(g1, g2, i, j),
        first_closest(g1, g2, k, l),
    ensures
        i == k,
        j == l,
{
    if before(i, j, k, l) {
        assert(manhattan(g1[k], g2[l]) < manhattan(g1[i], g2[j]));
        assert(manhattan(g1[i], g2[j]) <= manhattan(g1[k], g2[l]));
    }
    if before(k, l, i, j) {
        assert(manhattan(g1[i], g2[j]) < manhattan(g1[k], g2[l]));
        assert(manhattan(g1[k], g2[l]) <= manhattan(g1[i], g2[j]));
    }
}

/// A pair known to be the first closest one is the pair that `closest_pair`
/// names.
pub proof fn lemma_closest_pair_is(g1: Seq<Coord>, g2: Seq<Coord>, i: int, j: int)
    requires
        first_closest(g1, g2, i, j),
    ensures
        closest_pair(g1, g2) == (i, j),
        closest(g1, g2) == (g1[i], g2[j], manhattan(g1[i], g2[j])),
{
    let w = (i, j);
    assert(first_closest(g1, g2, w.0, w.1));
    let p = closest_pair(g1, g2);
    lemma_first_closest_unique(g1, g2, i, j, p.0, p.1);
}

/// Among the first `n` cells of `g2` one is the first that lies closest to `c`.
proof fn lemma_row_closest(c: Coord, g2: Seq<Coord>, n: int) -> (j: int)
    requires
        1 <= n <= g2.len(),
    ensures
        0 <= j < n,
        forall|l: int| 0 <= l < n ==> manhattan(c, g2[j]) <= manhattan(c, #[trigger] g2[l]),
        forall|l: int| 0 <= l < j ==> manhattan(c, g2[j]) < manhattan(c, #[trigger] g2[l]),
    decreases n,
{
    if n == 1 {
        0
    } else {
        let j = lemma_row_closest(c, g2, n - 1);
        if manhattan(c, g2[n - 1]) < manhattan(c, g2[j]) {
            n - 1
        } else {
            j
        }
    }
}

/// Among the pairs whose first cell is one of the first `n` of `g1`, one is
/// the first closest pair.
proof fn lemma_closest_among(g1: Seq<Coord>, g2: Seq<Coord>, n: int) -> (p: (int, int))
    requires
        1 <= n <= g1.len(),
        g2.len() > 0,
    ensures
        first_closest(g1.take(n), g2, p.0, p.1),
    decreases n,
{
    let row = lemma_row_closest(g1[n - 1], g2, g2.len() as int);
    if n == 1 {
        assert(g1.take(n)[0] == g1[0]);
        (0, row)
    } else {
        let q = lemma_closest_among(g1, g2, n - 1);
        assert(forall|k: int| 0 <= k < n - 1 ==> g1.take(n - 1)[k] == g1.take(n)[k]);
        assert(g1.take(n)[n - 1] == g1[n - 1]);
        if manhattan(g1[n - 1], g2[row]) < manhattan(g1[q.0], g2[q.1]) {
            (n - 1, row)
        } else {
            q
        }
    }
}

/// Two non-empty regions have a first closest pair, and `closest_pair` names
/// it.
pub proof fn lemma_closest_exists(g1: Seq<Coord>, g2: Seq<Coord>)
    requires
        g1.len() > 0,
        g2.len() > 0,
    ensures
        first_closest(g1, g2, closest_pair(g1, g2).0, closest_pair(g1, g2).1),
{
    let p = lemma_closest_among(g1, g2, g1.len() as int);
    assert(g1.take(g1.len() as int) =~= g1);
    lemma_closest_pair_is(g1, g2, p.0, p.1);
}

/// The distance between two regions does not depend on which is named first.
pub proof fn lemma_closest_symmetric(g1: Seq<Coord>, g2: Seq<Coord>)
    requires
        g1.len() > 0,
        g2.len() > 0,
    ensures
        closest(g1, g2).2 == closest(g2, g1).2,
{
    lemma_closest_exists(g1, g2);
    lemma_closest_exists(g2, g1);
    let (i, j) = closest_pair(g1, g2);
    let (k, l) = closest_pair(g2, g1);
    assert(manhattan(g1[i], g2[j]) <= manhattan(g1[l], g2[k]));
    assert(manhattan(g2[k], g1[l]) <= manhattan(g2[j], g1[i]));
    assert(manhattan(g1[l], g2[k]) == manhattan(g2[k], g1[l]));
    assert(manhattan(g1[i], g2[j]) == manhattan(g2[j], g1[i]));
}

/// Every distance between a cell of `g1` and a cell of `g2` fits an `i32`.
pub open spec fn distances_fit(g1: Seq<Coord>, g2: Seq<Coord>) -> bool {
    forall|k: int, l: int|
        0 <= k < g1.len() && 0 <= l < g2.len() ==> manhattan(#[trigger] g1[k], #[trigger] g2[l])
            <= i32::MAX
}

/// Finds the two cells, one of each region, that lie closest together by
/// Manhattan distance. Of several such pairs, the first one met wins: the
/// cells of `group1` are tried in order, and for each the cells of `group2`.
pub fn closest_between(group1: &Vec<Coord>, group2: &Vec<Coord>) -> (r: (Coord, Coord, i32))
    requires
        group1.len() > 0,
        group2.len() > 0,
        distances_fit(group1@, group2@),
    ensures
        r.0 == closest(group1@, group2@).0,
        r.1 == closest(group1@, group2@).1,
        r.2 == closest(group1@, group2@).2,
{
    let mut min = (group1[0], group2[0], group1[0].manhattan_dist_to(group2[0]));
    let ghost mut bi: int = 0;
    let ghost mut bj: int = 0;
    let mut a: usize = 0;
    while a < group1.len()
        invariant
            a <= group1.len(),
            group1.len() > 0,
            group2.len() > 0,
            distances_fit(group1@, group2@),
            0 <= bi < group1.len(),
            0 <= bj < group2.len(),
            min.0 == group1[bi],
            min.1 == group2[bj],
            min.2 == manhattan(group1[bi], group2[bj]),
            bi < a || (a == 0 && bi == 0 && bj == 0),
            forall|k: int, l: int|
                0 <= k < a && 0 <= l < group2.len() ==> min.2 <= manhattan(
                    #[trigger] group1[k],
                    #[trigger] group2[l],
                ),
            forall|k: int, l: int|
                0 <= k < group1.len() && 0 <= l < group2.len() && before(k, l, bi, bj) ==> min.2
                    < manhattan(#[trigger] group1[k], #[trigger] group2[l]),
        decreases group1.len() - a,
    {
        let pt_a = group1[a];
        let mut b: usize = 0;
        while b < group2.len()
            invariant
                a < group1.len(),
                b <= group2.len(),
                pt_a == group1[a as int],
                group1.len() > 0,
                group2.len() > 0,
                distances_fit(group1@, group2@),
                0 <= bi < group1.len(),
                0 <= bj < group2.len(),
                min.0 == group1[bi],
                min.1 == group2[bj],
                min.2 == manhattan(group1[bi], group2[bj]),
                before(bi, bj, a as int, b as int) || (a == 0 && b == 0 && bi == 0 && bj == 0),
                forall|k: int, l: int|
                    0 <= k < group1.len() && 0 <= l < group2.len() && before(
                        k,
                        l,
                        a as int,
                        b as int,
                    ) ==> min.2 <= manhattan(#[trigger] group1[k], #[trigger] group2[l]),
                forall|k: int, l: int|
                    0 <= k < group1.len() && 0 <= l < group2.len() && before(k, l, bi, bj)
                        ==> min.2 < manhattan(#[trigger] group1[k], #[trigger] group2[l]),
            decreases group2.len() - b,
        {
            let pt_b = group2[b];
            let dist = pt_a.manhattan_dist_to(pt_b);
            if dist < min.2 {
                min = (pt_a, pt_b, dist);
                proof {
                    bi = a as int;
                    bj = b as int;
                }
            }
            b += 1;
        }
        a += 1;
    }
    proof {
        lemma_closest_pair_is(group1@, group2@, bi, bj);
    }
    min
}

/// The cell lists of a list of regions.
pub open spec fn lists(groups: Seq<Vec<Coord>>) -> Seq<Seq<Coord>> {
    groups.map_values(|g: Vec<Coord>| g@)
}

/// The distance between regions `a` and `b`: that of their closest cells.
pub open spec fn gap(groups: Seq<Seq<Coord>>, a: int, b: int) -> int {
    closest(groups[a], groups[b]).2
}

/// Whether `a` and `b` are two different regions of the list.
pub open spec fn two_regions(groups: Seq<Seq<Coord>>, a: int, b: int) -> bool {
    0 <= a < groups.len() && 0 <= b < groups.len() && a != b
}

/// Whether `(a, b)` is the first pair of different regions, in visiting
/// order, that lie closest together.
pub open spec fn first_nearest(groups: Seq<Seq<Coord>>, a: int, b: int) -> bool {
    &&& two_regions(groups, a, b)
    &&& forall|c: int, d: int| #[trigger]
        two_regions(groups, c, d) ==> gap(groups, a, b) <= gap(groups, c, d)
    &&& forall|c: int, d: int| #[trigger]
        two_regions(groups, c, d) && before(c, d, a, b) ==> gap(groups, a, b) < gap(groups, c, d)
}

/// The first nearest pair of regions of a list of at least two.
pub open spec fn nearest_pair(groups: Seq<Seq<Coord>>) -> (int, int) {
    choose|p: (int, int)| first_nearest(groups, p.0, p.1)
}

/// The two regions to join next and the cells to join them at: the first
/// nearest pair of regions and their first closest pair of cells. With fewer
/// than two regions there is nothing to join, and all four parts are zero.
pub open spec fn tunnel(groups: Seq<Seq<Coord>>) -> (int, Coord, int, Coord) {
    if groups.len() < 2 {
        (0, Coord(0, 0), 0, Coord(0, 0))
    } else {
        let (a, b) = nearest_pair(groups);
        (a, closest(groups[a], groups[b]).0, b, closest(groups[a], groups[b]).1)
    }
}

/// No two different pairs are both the first nearest pair of regions.
pub proof fn lemma_nearest_pair_is(groups: Seq<Seq<Coord>>, a: int, b: int)
    requires
        first_nearest(groups, a, b),
    ensures
        nearest_pair(groups) == (a, b),
{
    let w = (a, b);
    assert(first_nearest(groups, w.0, w.1));
    let p = nearest_pair(groups);
    assert(two_regions(groups, p.0, p.1));
    assert(two_regions(groups, a, b));
    if before(a, b, p.0, p.1) {
        assert(gap(groups, p.0, p.1) < gap(groups, a, b));
    }
    if before(p.0, p.1, a, b) {
        assert(gap(groups, a, b) < gap(groups, p.0, p.1));
    }
}

/// No region is empty, and every distance between cells of two regions stays
/// below the largest `i32`.
pub open spec fn searchable(groups: Seq<Seq<Coord>>) -> bool {
    &&& forall|a: int| 0 <= a < groups.len() ==> (#[trigger] groups[a]).len() > 0
    &&& forall|a: int, b: int, k: int, l: int|
        0 <= a < groups.len() && 0 <= b < groups.len() && 0 <= k < groups[a].len() && 0 <= l
            < groups[b].len() ==> manhattan(#[trigger] groups[a][k], #[trigger] groups[b][l])
            < i32::MAX
}

/// Finds the shortest tunnel that will connect two regions: the first nearest
/// pair of regions, in the order in which pairs `(a, b)` are visited, and the
/// first closest pair of their cells.
///
/// A pair is passed over where it is the best pair so far with its regions
/// swapped; that pair is no nearer than the best, so nothing is lost.
pub fn shortest_tunnel(groups: &Vec<Vec<Coord>>) -> (r: (usize, Coord, usize, Coord))
    requires
        searchable(lists(groups@)),
    ensures
        r.0 == tunnel(lists(groups@)).0,
        r.1 == tunnel(lists(groups@)).1,
        r.2 == tunnel(lists(groups@)).2,
        r.3 == tunnel(lists(groups@)).3,
        groups.len() >= 2 ==> first_nearest(lists(groups@), r.0 as int, r.2 as int),
{
    let mut pts = (xy(0, 0), xy(0, 0));
    let mut group_nums: (usize, usize) = (0, 0);
    let mut min_dist = i32::MAX;
    let ghost all = lists(groups@);
    let ghost mut found = false;
    let mut a: usize = 0;
    while a < groups.len()
        invariant
            a <= groups.len(),
            all == lists(groups@),
            searchable(all),
            !found ==> min_dist == i32::MAX && group_nums == (0usize, 0usize) && pts == (
                Coord(0, 0),
                Coord(0, 0),
            ),
            !found ==> forall|c: int, d: int| #[trigger]
                two_regions(all, c, d) ==> !before(c, d, a as int, 0),
            found ==> two_regions(all, group_nums.0 as int, group_nums.1 as int),
            found ==> before(group_nums.0 as int, group_nums.1 as int, a as int, 0),
            found ==> min_dist == gap(all, group_nums.0 as int, group_nums.1 as int),
            found ==> pts.0 == closest(all[group_nums.0 as int], all[group_nums.1 as int]).0,
            found ==> pts.1 == closest(all[group_nums.0 as int], all[group_nums.1 as int]).1,
            found ==> forall|c: int, d: int| #[trigger]
                two_regions(all, c, d) && before(c, d, a as int, 0) ==> min_dist <= gap(all, c, d),
            found ==> forall|c: int, d: int| #[trigger]
                two_regions(all, c, d) && before(c, d, group_nums.0 as int, group_nums.1 as int)
                    ==> min_dist < gap(all, c, d),
        decreases groups.len() - a,
    {
        let mut b: usize = 0;
        while b < groups.len()
            invariant
                a < groups.len(),
                b <= groups.len(),
                all == lists(groups@),
                searchable(all),
                !found ==> min_dist == i32::MAX && group_nums == (0usize, 0usize) && pts == (
                    Coord(0, 0),
                    Coord(0, 0),
                ),
                !found ==> forall|c: int, d: int| #[trigger]
                    two_regions(all, c, d) ==> !before(c, d, a as int, b as int),
                found ==> two_regions(all, group_nums.0 as int, group_nums.1 as int),
                found ==> before(group_nums.0 as int, group_nums.1 as int, a as int, b as int),
                found ==> min_dist == gap(all, group_nums.0 as int, group_nums.1 as int),
                found ==> pts.0 == closest(all[group_nums.0 as int], all[group_nums.1 as int]).0,
                found ==> pts.1 == closest(all[group_nums.0 as int], all[group_nums.1 as int]).1,
                found ==> forall|c: int, d: int| #[trigger]
                    two_regions(all, c, d) && before(c, d, a as int, b as int) ==> min_dist <= gap(
                        all,
                        c,
                        d,
                    ),
                found ==> forall|c: int, d: int| #[trigger]
                    two_regions(all, c, d) && before(
                        c,
                        d,
                        group_nums.0 as int,
                        group_nums.1 as int,
                    ) ==> min_dist < gap(all, c, d),
            decreases groups.len() - b,
        {
            let swapped = a == group_nums.0 && b == group_nums.1 || a == group_nums.1 && b
                == group_nums.0;
            if a != b && !swapped {
                proof {
                    assert(two_regions(all, a as int, b as int));
                    assert(all[a as int] == groups[a as int]@);
                    assert(all[b as int] == groups[b as int]@);
                    assert(all[a as int].len() > 0);
                    assert(all[b as int].len() > 0);
                    assert forall|k: int, l: int|
                        0 <= k < all[a as int].len() && 0 <= l < all[b as int].len() implies manhattan(
                        #[trigger] all[a as int][k],
                        #[trigger] all[b as int][l],
                    ) <= i32::MAX by {
                        assert(manhattan(all[a as int][k], all[b as int][l]) < i32::MAX);
                    }
                    lemma_closest_exists(all[a as int], all[b as int]);
                }
                let (pt_a, pt_b, dist) = closest_between(&groups[a], &groups[b]);
                if dist < min_dist {
                    pts = (pt_a, pt_b);
                    min_dist = dist;
                    group_nums = (a, b);
                    proof {
                        found = true;
                    }
                }
            } else if a != b {
                proof {
                    assert(found);
                    assert(two_regions(all, a as int, b as int));
                    lemma_closest_symmetric(all[a as int], all[b as int]);
                }
            }
            b += 1;
        }
        a += 1;
    }
    proof {
        if groups.len() >= 2 {
            assert(two_regions(all, 0, 1));
            assert(found);
            lemma_nearest_pair_is(all, group_nums.0 as int, group_nums.1 as int);
        } else {
            assert(all.len() == groups.len());
            if found {
                assert(two_regions(all, group_nums.0 as int, group_nums.1 as int));
            }
        }
    }
    (group_nums.0, pts.0, group_nums.1, pts.1)
}

} // verus!
