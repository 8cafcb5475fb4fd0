//! Breadth-first traversal of the cells of a grid that pass a test.

use vstd::prelude::*;
use crate::coords::{area, lemma_distinct_inside_bound, orthogonal, Coord};
use crate::grid::{inside_neighbors, keep_inside, Grid};
use crate::paths::{
    connected, is_walk, lemma_connected_mono, lemma_connected_refl, lemma_connected_step,
    lemma_connected_trans, links, walk_within,
};

verus! {

/// Whether `test` can answer `true` for the cell at `c`.
pub open spec fn accepts<G: Grid, F: Fn(&G::CellType) -> bool>(grid: &G, test: &F, c: Coord) -> bool {
    call_ensures(*test, (&grid.lookup(c),), true)
}

/// Whether `test` can answer `false` for the cell at `c`.
pub open spec fn rejects<G: Grid, F: Fn(&G::CellType) -> bool>(grid: &G, test: &F, c: Coord) -> bool {
    call_ensures(*test, (&grid.lookup(c),), false)
}

/// The cells inside the grid for which `test` cannot answer `false`.
pub open spec fn admitted<G: Grid, F: Fn(&G::CellType) -> bool>(grid: &G, test: &F) -> Set<Coord> {
    Set::new(|c: Coord| c.inside(grid.extent()) && !rejects(grid, test, c))
}

/// Whether `pass` fits the answers of `test`: it holds every cell inside the
/// grid for which the test can answer `true`, and none for which it can
/// answer `false`.
pub open spec fn agrees<G: Grid, F: Fn(&G::CellType) -> bool>(
    grid: &G,
    test: &F,
    pass: Set<Coord>,
) -> bool {
    forall|c: Coord|
        c.inside(grid.extent()) ==> (accepts(grid, test, c) ==> #[trigger] pass.contains(c)) && (
        rejects(grid, test, c) ==> !pass.contains(c))
}

/// The coordinates of `list` that are not among `known`, in their order.
pub open spec fn unknown(list: Seq<Coord>, known: Seq<Coord>) -> Seq<Coord>
    decreases list.len(),
{
    if list.len() == 0 {
        Seq::empty()
    } else if known.contains(list.last()) {
        unknown(list.drop_last(), known)
    } else {
        unknown(list.drop_last(), known).push(list.last())
    }
}

/// The cells visited by a breadth-first traversal that goes on from a given
/// state: `queue` holds every cell met so far in the order of meeting, its
/// first `head` cells are dealt with, and `visited` are those of them that
/// pass. The cell at `head` is dealt with next: where it passes it is
/// visited, and its neighbours inside the extent that were not met before
/// join the queue, in the order north, east, south, west. The traversal
/// ends when the queue is used up, after `fuel` cells at the latest.
pub open spec fn flood_from(
    extent: Coord,
    pass: Set<Coord>,
    queue: Seq<Coord>,
    head: int,
    visited: Seq<Coord>,
    fuel: nat,
) -> Seq<Coord>
    decreases fuel,
{
    if fuel == 0 || head < 0 || head >= queue.len() {
        visited
    } else if pass.contains(queue[head]) {
        flood_from(
            extent,
            pass,
            queue + unknown(inside_neighbors(extent, queue[head]), queue),
            head + 1,
            visited.push(queue[head]),
            (fuel - 1) as nat,
        )
    } else {
        flood_from(extent, pass, queue, head + 1, visited, (fuel - 1) as nat)
    }
}

/// The cells visited by a breadth-first traversal from `start` over the
/// cells of `pass`, in the order of visiting.
pub open spec fn flood_order(extent: Coord, pass: Set<Coord>, start: Coord) -> Seq<Coord> {
    flood_from(extent, pass, seq![start], 0, Seq::empty(), area(extent) as nat)
}

/// The orthogonal neighbours listed for a cell are exactly the cells inside
/// the rectangle that lie one step away from it, each listed once.
pub proof fn lemma_inside_neighbors(extent: Coord, point: Coord)
    requires
        point.can_shift(1, 1),
        point.can_shift(-1, -1),
    ensures
        inside_neighbors(extent, point).no_duplicates(),
        forall|n: Coord|
            inside_neighbors(extent, point).contains(n) <==> n.inside(extent) && orthogonal(
                point,
                n,
            ),
{
    let north = keep_inside(extent, point.shifted(0, -1));
    let east = keep_inside(extent, point.shifted(1, 0));
    let south = keep_inside(extent, point.shifted(0, 1));
    let west = keep_inside(extent, point.shifted(-1, 0));
    let all = inside_neighbors(extent, point);
    assert(all == north + east + south + west);
    assert forall|n: Coord| all.contains(n) implies n.inside(extent) && orthogonal(point, n) by {
        let i = choose|i: int| 0 <= i < all.len() && all[i] == n;
    }
    assert forall|n: Coord| n.inside(extent) && orthogonal(point, n) implies all.contains(n) by {
        if n == point.shifted(0, -1) {
            assert(north[0] == n);
            assert(all[0] == n);
        } else if n == point.shifted(1, 0) {
            assert(east[0] == n);
            assert(all[north.len() as int] == n);
        } else if n == point.shifted(0, 1) {
            assert(south[0] == n);
            assert(all[(north.len() + east.len()) as int] == n);
        } else {
            assert(n == point.shifted(-1, 0));
            assert(west[0] == n);
            assert(all[(north.len() + east.len() + south.len()) as int] == n);
        }
    }
}

/// Whether `c` is one of the coordinates of `list`.
fn holds(list: &Vec<Coord>, c: Coord) -> (b: bool)
    ensures
        b == list@.contains(c),
{
    let mut i: usize = 0;
    while i < list.len()
        invariant
            i <= list.len(),
            forall|k: int| 0 <= k < i ==> list[k] != c,
        decreases list.len() - i,
    {
        if list[i] == c {
            return true;
        }
        i += 1;
    }
    false
}

/// Along a walk over admitted cells that starts at the start of a finished
/// traversal, every cell was visited.
proof fn lemma_flood_complete(
    extent: Coord,
    admitted: Set<Coord>,
    visited: Seq<Coord>,
    closed: Seq<Coord>,
    p: Seq<Coord>,
    k: int,
)
    requires
        is_walk(p),
        walk_within(p, admitted),
        0 <= k < p.len(),
        closed.contains(p[0]),
        forall|c: Coord| admitted.contains(c) ==> c.inside(extent),
        forall|c: Coord| closed.contains(c) && admitted.contains(c) ==> visited.contains(c),
        forall|v: Coord, n: Coord|
            visited.contains(v) && n.inside(extent) && orthogonal(v, n) ==> closed.contains(n),
    ensures
        visited.contains(p[k]),
    decreases k,
{
    if k > 0 {
        lemma_flood_complete(extent, admitted, visited, closed, p, k - 1);
        assert(orthogonal(p[k - 1], p[k]));
        assert(admitted.contains(p[k]));
    } else {
        assert(admitted.contains(p[0]));
    }
}

/// Breadth-first traversal: starting at `start`, collects the cells that
/// pass `traversable` and can be reached from `start` in orthogonal steps
/// over such cells, without leaving the grid. Cells come out in the order in
/// which they are reached, `start` first; the neighbours of a cell are tried
/// in the order north, east, south, west.
///
/// The result is empty where `start` itself does not pass the test.
pub fn bft<T, G: Grid<CellType = T>, F: Fn(&T) -> bool>(grid: &G, start: Coord, traversable: F) -> (visited:
    Vec<Coord>)
    requires
        grid.wf(),
        start.inside(grid.extent()),
        forall|c: Coord|
            c.inside(grid.extent()) ==> call_requires(traversable, (&#[trigger] grid.lookup(c),)),
    ensures
        visited@.no_duplicates(),
        forall|i: int|
            0 <= i < visited.len() ==> (#[trigger] visited[i]).inside(grid.extent()) && accepts(
                grid,
                &traversable,
                visited[i],
            ),
        forall|i: int|
            0 <= i < visited.len() ==> connected(visited@.to_set(), start, #[trigger] visited[i]),
        forall|c: Coord|
            connected(admitted(grid, &traversable), start, c) ==> visited@.contains(c),
        visited.len() > 0 ==> visited[0] == start,
        visited.len() == 0 ==> rejects(grid, &traversable, start),
        forall|pass: Set<Coord>| #[trigger]
            agrees(grid, &traversable, pass) ==> visited@ == flood_order(
                grid.extent(),
                pass,
                start,
            ),
{
    let mut open: Vec<Coord> = Vec::new();
    open.push(start);
    let mut visited: Vec<Coord> = Vec::new();
    let mut closed: Vec<Coord> = Vec::new();
    let ghost extent = grid.extent();
    assert(open@ =~= seq![start]);
    assert(open@[0] == start);

    while open.len() > 0
        invariant
            grid.wf(),
            extent == grid.extent(),
            start.inside(extent),
            forall|c: Coord|
                c.inside(grid.extent()) ==> call_requires(
                    traversable,
                    (&#[trigger] grid.lookup(c),),
                ),
            forall|i: int| 0 <= i < open.len() ==> (#[trigger] open[i]).inside(extent),
            forall|i: int| 0 <= i < closed.len() ==> (#[trigger] closed[i]).inside(extent),
            open@.no_duplicates(),
            closed@.no_duplicates(),
            forall|i: int, j: int|
                0 <= i < open.len() && 0 <= j < closed.len() ==> #[trigger] open[i]
                    != #[trigger] closed[j],
            visited@.no_duplicates(),
            forall|i: int|
                0 <= i < visited.len() ==> closed@.contains(#[trigger] visited[i]) && accepts(
                    grid,
                    &traversable,
                    visited[i],
                ),
            forall|j: int|
                0 <= j < closed.len() ==> visited@.contains(#[trigger] closed[j]) || rejects(
                    grid,
                    &traversable,
                    closed[j],
                ),
            forall|v: Coord, n: Coord|
                visited@.contains(v) && n.inside(extent) && #[trigger] orthogonal(v, n)
                    ==> open@.contains(n) || closed@.contains(n),
            open@.contains(start) || closed@.contains(start),
            forall|i: int|
                0 <= i < open.len() ==> #[trigger] open[i] == start || exists|v: Coord|
                    visited@.contains(v) && orthogonal(v, open[i]),
            forall|i: int|
                0 <= i < visited.len() ==> connected(
                    visited@.to_set(),
                    start,
                    #[trigger] visited[i],
                ),
            closed.len() == 0 ==> open@ == seq![start] && visited.len() == 0,
            closed.len() > 0 ==> closed[0] == start,
            visited.len() > 0 ==> visited[0] == start,
            closed.len() <= area(extent),
            forall|pass: Set<Coord>| #[trigger]
                agrees(grid, &traversable, pass) ==> flood_from(
                    extent,
                    pass,
                    closed@ + open@,
                    closed.len() as int,
                    visited@,
                    (area(extent) - closed.len()) as nat,
                ) == flood_order(extent, pass, start),
        decreases area(extent) - closed.len(),
    {
        let ghost open0 = open@;
        let ghost queue0 = closed@ + open@;
        let ghost closed0 = closed@;
        let ghost visited0 = visited@;
        let curr = open.remove(0);
        closed.push(curr);
        proof {
            assert(curr == open0[0]);
            assert forall|i: int| 0 <= i < open.len() implies open[i] == open0[i + 1] by {}
            assert forall|i: int, j: int| 0 <= i < closed.len() && 0 <= j < closed.len() && i
                != j implies closed[i] != closed[j] by {
                if i == closed.len() - 1 {
                    assert(closed[j] == closed0[j]);
                } else if j == closed.len() - 1 {
                    assert(closed[i] == closed0[i]);
                } else {
                    assert(closed[i] == closed0[i] && closed[j] == closed0[j]);
                }
            }
            lemma_distinct_inside_bound(extent, closed@);
            assert(closed@.contains(curr)) by {
                assert(closed[closed.len() - 1] == curr);
            }
            assert forall|c: Coord| closed0.contains(c) implies closed@.contains(c) by {
                let j = choose|j: int| 0 <= j < closed0.len() && closed0[j] == c;
                assert(closed[j] == c);
            }
            assert forall|c: Coord| open0.contains(c) implies open@.contains(c) || c == curr by {
                let j = choose|j: int| 0 <= j < open0.len() && open0[j] == c;
                if j > 0 {
                    assert(open[j - 1] == c);
                }
            }
        }
        let cell = grid.get(curr).unwrap();
        if traversable(cell) {
            visited.push(curr);
            proof {
                assert(accepts(grid, &traversable, curr));
                assert(!visited0.contains(curr)) by {
                    if visited0.contains(curr) {
                        let i = choose|i: int| 0 <= i < visited0.len() && visited0[i] == curr;
                        assert(closed0.contains(visited0[i]));
                        let j = choose|j: int| 0 <= j < closed0.len() && closed0[j] == curr;
                        assert(open0[0] != closed0[j]);
                    }
                }
                assert(visited@.contains(curr)) by {
                    assert(visited[visited.len() - 1] == curr);
                }
                assert forall|c: Coord| visited0.contains(c) implies visited@.contains(c) by {
                    let j = choose|j: int| 0 <= j < visited0.len() && visited0[j] == c;
                    assert(visited[j] == c);
                }
                assert(visited0.to_set().subset_of(visited@.to_set()));
                assert forall|i: int| 0 <= i < visited.len() implies connected(
                    visited@.to_set(),
                    start,
                    #[trigger] visited[i],
                ) by {
                    if i < visited0.len() {
                        assert(visited[i] == visited0[i]);
                        lemma_connected_mono(visited0.to_set(), visited@.to_set(), start, visited0[i]);
                    } else if curr == start {
                        lemma_connected_refl(visited@.to_set(), start);
                    } else {
                        let v = choose|v: Coord| visited0.contains(v) && orthogonal(v, open0[0]);
                        let k = choose|k: int| 0 <= k < visited0.len() && visited0[k] == v;
                        lemma_connected_mono(visited0.to_set(), visited@.to_set(), start, visited0[k]);
                        lemma_connected_step(visited@.to_set(), v, curr);
                        lemma_connected_trans(visited@.to_set(), start, v, curr);
                    }
                }
                lemma_inside_neighbors(extent, curr);
                assert forall|i: int| 0 <= i < visited.len() implies closed@.contains(
                    #[trigger] visited[i],
                ) by {
                    if i < visited0.len() {
                        assert(visited[i] == visited0[i]);
                    }
                }
            }
            let nbrs = grid.neighbor_coords(curr);
            let mut to_add: Vec<Coord> = Vec::new();
            proof {
                assert forall|c: Coord| queue0.contains(c) <==> closed@.contains(c)
                    || open@.contains(c) by {
                    if queue0.contains(c) {
                        let i = choose|i: int| 0 <= i < queue0.len() && queue0[i] == c;
                        if i < closed0.len() {
                            assert(closed0.contains(closed0[i]));
                        } else {
                            assert(open0.contains(open0[i - closed0.len()]));
                        }
                    }
                    if closed@.contains(c) {
                        let i = choose|i: int| 0 <= i < closed.len() && closed[i] == c;
                        if i < closed0.len() {
                            assert(queue0[i] == c);
                        } else {
                            assert(queue0[closed0.len() as int] == c);
                        }
                    }
                    if open@.contains(c) {
                        let i = choose|i: int| 0 <= i < open.len() && open[i] == c;
                        assert(queue0[closed0.len() + i + 1] == c);
                    }
                }
                assert(nbrs@.take(0) =~= Seq::<Coord>::empty());
            }
            let mut k: usize = 0;
            while k < nbrs.len()
                invariant
                    k <= nbrs.len(),
                    nbrs@ == inside_neighbors(extent, curr),
                    nbrs@.no_duplicates(),
                    to_add@.no_duplicates(),
                    forall|i: int| 0 <= i < visited.len() ==> closed@.contains(#[trigger] visited[i]),
                    forall|c: Coord|
                        queue0.contains(c) <==> closed@.contains(c) || open@.contains(c),
                    to_add@ == unknown(nbrs@.take(k as int), queue0),
                    forall|i: int|
                        0 <= i < to_add.len() ==> {
                            &&& !closed@.contains(#[trigger] to_add[i])
                            &&& !open@.contains(to_add[i])
                            &&& exists|m: int| 0 <= m < k && nbrs[m] == to_add[i]
                        },
                    forall|m: int|
                        0 <= m < k ==> closed@.contains(#[trigger] nbrs[m]) || open@.contains(
                            nbrs[m],
                        ) || to_add@.contains(nbrs[m]),
                decreases nbrs.len() - k,
            {
                let nbr = nbrs[k];
                let ghost before = to_add@;
                proof {
                    assert(nbrs@.take(k + 1).drop_last() =~= nbrs@.take(k as int));
                    assert(nbrs@.take(k + 1).last() == nbr);
                }
                if !holds(&closed, nbr) && !holds(&open, nbr) && !holds(&visited, nbr) {
                    to_add.push(nbr);
                    proof {
                        assert(to_add[to_add.len() - 1] == nbr);
                        assert forall|i: int, j: int|
                            0 <= i < to_add.len() && 0 <= j < to_add.len() && i
                                != j implies to_add[i] != to_add[j] by {
                            if i == to_add.len() - 1 {
                                let m = choose|m: int| 0 <= m < k && nbrs[m] == before[j];
                            } else if j == to_add.len() - 1 {
                                let m = choose|m: int| 0 <= m < k && nbrs[m] == before[i];
                            } else {
                                assert(to_add[i] == before[i] && to_add[j] == before[j]);
                            }
                        }
                    }
                } else {
                    proof {
                        if visited@.contains(nbr) {
                            let i = choose|i: int| 0 <= i < visited.len() && visited[i] == nbr;
                            assert(closed@.contains(visited[i]));
                        }
                    }
                }
                proof {
                    assert forall|m: int| 0 <= m < k + 1 implies closed@.contains(
                        #[trigger] nbrs[m],
                    ) || open@.contains(nbrs[m]) || to_add@.contains(nbrs[m]) by {
                        if m < k {
                            if before.contains(nbrs[m]) {
                                let i = choose|i: int| 0 <= i < before.len() && before[i] == nbrs[m];
                                assert(to_add[i] == nbrs[m]);
                            }
                        } else {
                            if to_add.len() > before.len() {
                                assert(to_add[to_add.len() - 1] == nbr);
                            }
                        }
                    }
                    assert forall|i: int| 0 <= i < to_add.len() implies exists|m: int|
                        0 <= m < k + 1 && nbrs[m] == #[trigger] to_add[i] by {
                        if i < before.len() {
                            let m = choose|m: int| 0 <= m < k && nbrs[m] == before[i];
                            assert(nbrs[m] == to_add[i]);
                        } else {
                            assert(nbrs[k as int] == to_add[i]);
                        }
                    }
                }
                k += 1;
            }
            let ghost open1 = open@;
            let ghost added = to_add@;
            open.append(&mut to_add);
            proof {
                assert(open@ == open1 + added);
                assert(nbrs@.take(nbrs.len() as int) =~= nbrs@);
                assert(closed@ + open@ =~= queue0 + added);
                assert(queue0[closed0.len() as int] == curr);
                assert forall|pass: Set<Coord>| #[trigger]
                    agrees(grid, &traversable, pass) implies flood_from(
                    extent,
                    pass,
                    closed@ + open@,
                    closed.len() as int,
                    visited@,
                    (area(extent) - closed.len()) as nat,
                ) == flood_order(extent, pass, start) by {
                    assert(pass.contains(curr));
                    assert(flood_from(
                        extent,
                        pass,
                        queue0,
                        closed0.len() as int,
                        visited0,
                        (area(extent) - closed0.len()) as nat,
                    ) == flood_order(extent, pass, start));
                }
                assert forall|i: int| 0 <= i < added.len() implies (#[trigger] added[i]).inside(
                    extent,
                ) && orthogonal(curr, added[i]) by {
                    let m = choose|m: int| 0 <= m < nbrs.len() && nbrs[m] == added[i];
                    assert(nbrs@.contains(added[i]));
                }
                assert forall|i: int| 0 <= i < open.len() implies (#[trigger] open[i]).inside(
                    extent,
                ) by {
                    if i < open1.len() {
                        assert(open[i] == open1[i]);
                    } else {
                        assert(open[i] == added[i - open1.len()]);
                    }
                }
                assert forall|i: int, j: int|
                    0 <= i < open.len() && 0 <= j < open.len() && i != j implies open[i]
                    != open[j] by {
                    if i < open1.len() && j < open1.len() {
                    } else if i < open1.len() {
                        assert(open1.contains(open1[i]));
                        assert(open[j] == added[j - open1.len()]);
                    } else if j < open1.len() {
                        assert(open1.contains(open1[j]));
                        assert(open[i] == added[i - open1.len()]);
                    } else {
                        assert(open[i] == added[i - open1.len()]);
                        assert(open[j] == added[j - open1.len()]);
                    }
                }
                assert forall|i: int, j: int|
                    0 <= i < open.len() && 0 <= j < closed.len() implies #[trigger] open[i]
                    != #[trigger] closed[j] by {
                    assert(closed@.contains(closed[j]));
                    if i < open1.len() {
                        assert(open1[i] == open0[i + 1]);
                        if j < closed0.len() {
                            assert(closed[j] == closed0[j]);
                        } else {
                            assert(closed[j] == open0[0]);
                        }
                    } else {
                        assert(open[i] == added[i - open1.len()]);
                    }
                }
                assert forall|c: Coord| open1.contains(c) implies open@.contains(c) by {
                    let j = choose|j: int| 0 <= j < open1.len() && open1[j] == c;
                    assert(open[j] == c);
                }
                assert forall|c: Coord| added.contains(c) implies open@.contains(c) by {
                    let j = choose|j: int| 0 <= j < added.len() && added[j] == c;
                    assert(open[(open1.len() + j) as int] == c);
                }
                assert forall|v: Coord, n: Coord|
                    visited@.contains(v) && n.inside(extent) && #[trigger] orthogonal(
                        v,
                        n,
                    ) implies open@.contains(n) || closed@.contains(n) by {
                    if visited0.contains(v) {
                        assert(open0.contains(n) || closed0.contains(n));
                    } else {
                        let i = choose|i: int| 0 <= i < visited.len() && visited[i] == v;
                        if i < visited0.len() {
                            assert(visited0[i] == v);
                        }
                        assert(v == curr);
                        assert(nbrs@.contains(n));
                        let m = choose|m: int| 0 <= m < nbrs.len() && nbrs[m] == n;
                    }
                }
                assert forall|i: int| 0 <= i < open.len() implies #[trigger] open[i] == start
                    || exists|v: Coord| visited@.contains(v) && orthogonal(v, open[i]) by {
                    if i < open1.len() {
                        assert(open[i] == open0[i + 1]);
                        if open0[i + 1] != start {
                            let v = choose|v: Coord|
                                visited0.contains(v) && orthogonal(v, open0[i + 1]);
                            assert(visited@.contains(v));
                        }
                    } else {
                        assert(open[i] == added[i - open1.len()]);
                        assert(visited@.contains(curr) && orthogonal(curr, open[i]));
                    }
                }
                assert forall|j: int| 0 <= j < closed.len() implies visited@.contains(
                    #[trigger] closed[j],
                ) || rejects(grid, &traversable, closed[j]) by {
                    if j < closed0.len() {
                        assert(closed[j] == closed0[j]);
                    }
                }
                assert forall|i: int| 0 <= i < visited.len() implies closed@.contains(
                    #[trigger] visited[i],
                ) && accepts(grid, &traversable, visited[i]) by {
                    if i < visited0.len() {
                        assert(visited[i] == visited0[i]);
                    }
                }
                if closed0.len() == 0 {
                    assert(open0[0] == start);
                }
            }
        } else {
            proof {
                assert(rejects(grid, &traversable, curr));
                assert(closed@ + open@ =~= queue0);
                assert(queue0[closed0.len() as int] == curr);
                assert forall|pass: Set<Coord>| #[trigger]
                    agrees(grid, &traversable, pass) implies flood_from(
                    extent,
                    pass,
                    closed@ + open@,
                    closed.len() as int,
                    visited@,
                    (area(extent) - closed.len()) as nat,
                ) == flood_order(extent, pass, start) by {
                    assert(!pass.contains(curr));
                    assert(flood_from(
                        extent,
                        pass,
                        queue0,
                        closed0.len() as int,
                        visited0,
                        (area(extent) - closed0.len()) as nat,
                    ) == flood_order(extent, pass, start));
                }
                assert forall|v: Coord, n: Coord|
                    visited@.contains(v) && n.inside(extent) && #[trigger] orthogonal(
                        v,
                        n,
                    ) implies open@.contains(n) || closed@.contains(n) by {
                    assert(open0.contains(n) || closed0.contains(n));
                }
                assert forall|i: int, j: int|
                    0 <= i < open.len() && 0 <= j < closed.len() implies #[trigger] open[i]
                    != #[trigger] closed[j] by {
                    assert(open[i] == open0[i + 1]);
                    if j < closed0.len() {
                        assert(closed[j] == closed0[j]);
                    } else {
                        assert(closed[j] == open0[0]);
                    }
                }
                assert forall|i: int| 0 <= i < open.len() implies #[trigger] open[i] == start
                    || exists|v: Coord| visited@.contains(v) && orthogonal(v, open[i]) by {
                    assert(open[i] == open0[i + 1]);
                }
                assert forall|j: int| 0 <= j < closed.len() implies visited@.contains(
                    #[trigger] closed[j],
                ) || rejects(grid, &traversable, closed[j]) by {
                    if j < closed0.len() {
                        assert(closed[j] == closed0[j]);
                    }
                }
                if closed0.len() == 0 {
                    assert(open0[0] == start);
                    assert(open@ =~= Seq::<Coord>::empty());
                }
            }
        }
    }
    proof {
        let reach = admitted(grid, &traversable);
        assert(closed@.contains(start));
        assert forall|i: int| 0 <= i < visited.len() implies (#[trigger] visited[i]).inside(
            extent,
        ) by {
            let j = choose|j: int| 0 <= j < closed.len() && closed[j] == visited[i];
        }
        assert forall|c: Coord| connected(reach, start, c) implies visited@.contains(c) by {
            let p = choose|p: Seq<Coord>| links(reach, p, start, c);
            assert forall|x: Coord| closed@.contains(x) && reach.contains(x) implies visited@.contains(
                x,
            ) by {
                let j = choose|j: int| 0 <= j < closed.len() && closed[j] == x;
            }
            lemma_flood_complete(extent, reach, visited@, closed@, p, p.len() - 1);
        }
        assert(closed@ + open@ =~= closed@);
        if visited.len() == 0 {
            let j = choose|j: int| 0 <= j < closed.len() && closed[j] == start;
            assert(visited@.contains(closed[j]) || rejects(grid, &traversable, closed[j]));
        }
    }
    visited
}

} // verus!
