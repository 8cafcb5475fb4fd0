//! Cave maps grown by a cellular automaton.

use vstd::prelude::*;
use std::ops::Range;
use core::ops::IndexMut;
use rand::rngs::StdRng;
use rand::Rng;
use crate::coords::{
    area, lemma_linear_index_inside, lemma_nth_coord_inside, linear_index, nth_coord, Coord,
};
use crate::equality::lemma_bool_cell_eq;
use crate::grid::{one_if, CountableNeighbors, Grid};
use crate::paths::{all_connected, floor_of};
use crate::regions::{connect_groups, in_hull, joined, lemma_area_is_product, walkable};
use crate::vecgrid::VecGrid;

verus! {

/// `rand::rngs::StdRng`, the random number generator that maps are built
/// with. Nothing is known of what is inside it.
#[verifier::external_type_specification]
#[verifier::external_body]
pub struct ExStdRng(StdRng);

/// Draws `true` with a chance of `numerator` in `denominator`, with
/// `rand::Rng::gen_ratio`.
///
/// Trusted: the draw is the work of the outside crate. Its documentation
/// promises `true` where the two numbers are equal and `false` where the
/// numerator is zero; nothing is known of any other draw.
#[verifier::external_body]
fn gen_ratio(rng: &mut StdRng, numerator: u32, denominator: u32) -> (b: bool)
    requires
        denominator > 0,
        numerator <= denominator,
    ensures
        numerator == 0 ==> !b,
        numerator == denominator ==> b,
{
    rng.gen_ratio(numerator, denominator)
}

/// What a lookup reads in a grid given as plain values: the stored cell
/// inside the extent, the filler outside.
pub open spec fn read(cells: Seq<bool>, extent: Coord, filler: bool, at: Coord) -> bool {
    if at.inside(extent) {
        cells[linear_index(extent, at)]
    } else {
        filler
    }
}

/// How many of the eight cells around `at` are walls.
pub open spec fn walls_around(cells: Seq<bool>, extent: Coord, filler: bool, at: Coord) -> int {
    one_if(read(cells, extent, filler, at.shifted(0, -1))) + one_if(
        read(cells, extent, filler, at.shifted(0, 1)),
    ) + one_if(read(cells, extent, filler, at.shifted(1, 0))) + one_if(
        read(cells, extent, filler, at.shifted(-1, 0)),
    ) + one_if(read(cells, extent, filler, at.shifted(1, -1))) + one_if(
        read(cells, extent, filler, at.shifted(1, 1)),
    ) + one_if(read(cells, extent, filler, at.shifted(-1, 1))) + one_if(
        read(cells, extent, filler, at.shifted(-1, -1)),
    )
}

/// Whether `n` lies in the half-open range.
pub open spec fn in_range(range: Range<i32>, n: int) -> bool {
    range.start <= n < range.end
}

/// What becomes of a cell with `walls` walls around it: an empty cell turns
/// into a wall where the count lies in `born`, a wall turns empty where the
/// count lies outside `survive`, and every other cell stays as it is.
pub open spec fn next_cell(cell: bool, walls: int, born: Range<i32>, survive: Range<i32>) -> bool {
    if !cell && in_range(born, walls) {
        true
    } else if cell && !in_range(survive, walls) {
        false
    } else {
        cell
    }
}

/// One generation of the automaton: every cell changes at once, by the
/// walls that stood around it before.
pub open spec fn generation(
    cells: Seq<bool>,
    extent: Coord,
    filler: bool,
    born: Range<i32>,
    survive: Range<i32>,
) -> Seq<bool> {
    Seq::new(
        cells.len(),
        |n: int|
            next_cell(
                cells[n],
                walls_around(cells, extent, filler, nth_coord(extent, n)),
                born,
                survive,
            ),
    )
}

/// The cells after `count` generations.
pub open spec fn aged(
    cells: Seq<bool>,
    extent: Coord,
    filler: bool,
    born: Range<i32>,
    survive: Range<i32>,
    count: nat,
) -> Seq<bool>
    decreases count,
{
    if count == 0 {
        cells
    } else {
        aged(generation(cells, extent, filler, born, survive), extent, filler, born, survive, (count - 1) as nat)
    }
}

/// Two maps made of the same cells with the same settings are the same map:
/// nothing but the cells drawn at the start is left to chance.
pub proof fn lemma_same_noise_same_map(
    settings: CellularMap,
    noise: Seq<bool>,
    extent: Coord,
    filler: bool,
    first: &VecGrid<bool>,
    second: &VecGrid<bool>,
)
    requires
        settings.yields(noise, extent, filler, first),
        settings.yields(noise, extent, filler, second),
    ensures
        first@ == second@,
        first.extent() == second.extent(),
        first.filler() == second.filler(),
        forall|c: Coord| first.lookup(c) == second.lookup(c),
{
}

/// Without connecting, the map is the automaton's cave as it stands, whether
/// its passable cells are connected or not; without generations either, it
/// is the cells it was made of.
pub proof fn lemma_unconnected_map_is_cave(
    settings: CellularMap,
    noise: Seq<bool>,
    extent: Coord,
    filler: bool,
    map: &VecGrid<bool>,
)
    requires
        !settings.connect(),
        settings.yields(noise, extent, filler, map),
    ensures
        map@ == settings.cave(noise, extent, filler),
        settings.generations() <= 0 ==> map@ == noise,
{
}

/// With connecting, the passable cells of the map form at most one
/// orthogonally connected component, and no passable cell of the cave has
/// become a wall.
pub proof fn lemma_connected_map(
    settings: CellularMap,
    noise: Seq<bool>,
    extent: Coord,
    filler: bool,
    map: &VecGrid<bool>,
)
    requires
        settings.connect(),
        settings.yields(noise, extent, filler, map),
    ensures
        all_connected(crate::paths::floor(map)),
        floor_of(settings.cave(noise, extent, filler), extent).subset_of(crate::paths::floor(map)),
{
}

/// Connecting changes a map only by joining its regions: of two maps made of
/// the same cells with settings that differ in nothing but connecting, the
/// connected one is the other with its regions joined. It keeps every
/// passable cell of the other, its own passable cells are all connected, and
/// it is the other cell for cell where that one was connected already.
pub proof fn lemma_connecting_joins(
    connecting: CellularMap,
    plain: CellularMap,
    noise: Seq<bool>,
    extent: Coord,
    filler: bool,
    connected: &VecGrid<bool>,
    raw: &VecGrid<bool>,
)
    requires
        connecting.connect(),
        !plain.connect(),
        connecting.born() == plain.born(),
        connecting.survive() == plain.survive(),
        connecting.generations() == plain.generations(),
        connecting.yields(noise, extent, filler, connected),
        plain.yields(noise, extent, filler, raw),
    ensures
        connected.extent() == raw.extent(),
        connected@ == joined(raw@, raw.extent()),
        crate::paths::floor(raw).subset_of(crate::paths::floor(connected)),
        all_connected(crate::paths::floor(connected)),
        all_connected(crate::paths::floor(raw)) ==> connected@ == raw@,
        forall|c: Coord| #[trigger]
            crate::paths::floor(connected).contains(c) ==> in_hull(crate::paths::floor(raw), c),
{
}

/// The settings of a cellular-automaton map generator.
pub struct CellularMap {
    size: Coord,
    probability: u32,
    born: Range<i32>,
    survive: Range<i32>,
    generations: i32,
    connect: bool,
}

impl CellularMap {
    /// The size of the maps to make.
    pub closed spec fn size(&self) -> Coord {
        self.size
    }

    /// The chance, in thousandths, that a cell starts as a wall.
    pub closed spec fn probability(&self) -> u32 {
        self.probability
    }

    /// The counts of walls around an empty cell at which it becomes a wall.
    pub closed spec fn born(&self) -> Range<i32> {
        self.born
    }

    /// The counts of walls around a wall at which it stays a wall.
    pub closed spec fn survive(&self) -> Range<i32> {
        self.survive
    }

    /// How many generations the automaton runs; none where this is negative.
    pub closed spec fn generations(&self) -> i32 {
        self.generations
    }

    /// Whether tunnels are dug until all passable cells are connected.
    pub closed spec fn connect(&self) -> bool {
        self.connect
    }

    /// The number of generations as a count.
    pub open spec fn rounds(&self) -> nat {
        if self.generations() < 0 {
            0
        } else {
            self.generations() as nat
        }
    }

    /// A generator for maps of the given size with the usual settings: half
    /// the cells start as walls, a cell is born with 5 to 8 walls around it
    /// and survives with 4 to 8, the automaton runs 5 generations, and the
    /// map is connected at the end.
    pub fn new(size: Coord) -> (map: Self)
        ensures
            map.size() == size,
            map.probability() == 500,
            map.born() == (5i32..9i32),
            map.survive() == (4i32..9i32),
            map.generations() == 5,
            map.connect(),
    {
        Self { size, probability: 500, born: 5..9, survive: 4..9, generations: 5, connect: true }
    }

    /// How likely should it be that a cell starts as a wall? In thousandths,
    /// from 0 to 1000.
    pub fn with_probability(self, probability: u32) -> (map: Self)
        ensures
            map.probability() == probability,
            map.size() == self.size(),
            map.born() == self.born(),
            map.survive() == self.survive(),
            map.generations() == self.generations(),
            map.connect() == self.connect(),
    {
        let mut map = self;
        map.probability = probability;
        map
    }

    /// At what counts of walls around it should an empty cell become a wall?
    pub fn with_born(self, born: Range<i32>) -> (map: Self)
        ensures
            map.born() == born,
            map.size() == self.size(),
            map.probability() == self.probability(),
            map.survive() == self.survive(),
            map.generations() == self.generations(),
            map.connect() == self.connect(),
    {
        let mut map = self;
        map.born = born;
        map
    }

    /// At what counts of walls around it should a wall stay a wall?
    pub fn with_survive(self, survive: Range<i32>) -> (map: Self)
        ensures
            map.survive() == survive,
            map.size() == self.size(),
            map.probability() == self.probability(),
            map.born() == self.born(),
            map.generations() == self.generations(),
            map.connect() == self.connect(),
    {
        let mut map = self;
        map.survive = survive;
        map
    }

    /// How many generations to run the automaton. More generations make a
    /// smoother cave.
    pub fn with_generations(self, generations: i32) -> (map: Self)
        ensures
            map.generations() == generations,
            map.size() == self.size(),
            map.probability() == self.probability(),
            map.born() == self.born(),
            map.survive() == self.survive(),
            map.connect() == self.connect(),
    {
        let mut map = self;
        map.generations = generations;
        map
    }

    /// Whether or not to dig tunnels so that all the passable cells connect.
    pub fn with_connect(self, connect: bool) -> (map: Self)
        ensures
            map.connect() == connect,
            map.size() == self.size(),
            map.probability() == self.probability(),
            map.born() == self.born(),
            map.survive() == self.survive(),
            map.generations() == self.generations(),
    {
        let mut map = self;
        map.connect = connect;
        map
    }

    /// The cells that the automaton makes of `noise` with these settings.
    pub open spec fn cave(&self, noise: Seq<bool>, extent: Coord, filler: bool) -> Seq<bool> {
        aged(noise, extent, filler, self.born(), self.survive(), self.rounds())
    }

    /// The cells of the map that these settings make of the cells `noise`:
    /// the automaton's cave as it stands, or with its regions joined where
    /// connecting is asked for.
    pub open spec fn grown(&self, noise: Seq<bool>, extent: Coord, filler: bool) -> Seq<bool> {
        if self.connect() {
            joined(self.cave(noise, extent, filler), extent)
        } else {
            self.cave(noise, extent, filler)
        }
    }

    /// Whether `map` is what these settings make of the cells `noise`.
    ///
    /// Without connecting, the map is the automaton's cave as it stands.
    /// With connecting, it is the cave with its regions joined: every
    /// passable cell of the cave is passable in the map, the passable cells
    /// of the map are all connected, cells outside the map read `false`, a
    /// cave that was connected already is kept cell for cell, and no tunnel
    /// leaves the smallest rectangle that holds the passable cells of the
    /// cave.
    pub open spec fn yields(&self, noise: Seq<bool>, extent: Coord, filler: bool, map: &VecGrid<bool>) -> bool {
        let cave = self.cave(noise, extent, filler);
        &&& map.wf()
        &&& map.extent() == extent
        &&& map@ == self.grown(noise, extent, filler)
        &&& !self.connect() ==> map@ == cave && map.filler() == filler
        &&& self.connect() ==> {
            &&& map.filler() == false
            &&& floor_of(cave, extent).subset_of(floor_of(map@, extent))
            &&& all_connected(floor_of(map@, extent))
            &&& all_connected(floor_of(cave, extent)) ==> map@ == cave
            &&& forall|c: Coord| #[trigger]
                floor_of(map@, extent).contains(c) ==> in_hull(floor_of(cave, extent), c)
        }
    }

    /// Runs one generation of the automaton on `grid`.
    fn step(&self, grid: &mut VecGrid<bool>)
        requires
            old(grid).wf(),
        ensures
            final(grid).wf(),
            final(grid).extent() == old(grid).extent(),
            final(grid).filler() == old(grid).filler(),
            final(grid)@ == generation(
                old(grid)@,
                old(grid).extent(),
                old(grid).filler(),
                self.born(),
                self.survive(),
            ),
    {
        let old = grid.clone();
        let ghost extent = old.extent();
        let ghost filler = old.filler();
        let ghost next = generation(old@, extent, filler, self.born(), self.survive());
        proof {
            lemma_area_is_product(extent);
        }
        let dims = old.size();
        let mut it = dims.into_iter();
        loop
            invariant_except_break
                it.wf(),
                it.extent() == extent,
            invariant
                old.wf(),
                old.extent() == extent,
                old.filler() == filler,
                old@.len() == area(extent),
                grid.wf(),
                grid.extent() == extent,
                grid.filler() == filler,
                grid@.len() == area(extent),
                next == generation(old@, extent, filler, self.born(), self.survive()),
                forall|n: int| 0 <= n < area(extent) && n < it.position() ==> grid@[n] == next[n],
                forall|n: int| it.position() <= n < area(extent) ==> grid@[n] == old@[n],
            ensures
                it.position() >= area(extent),
            decreases area(extent) - it.position(),
        {
            let ghost n = it.position();
            match it.next() {
                Some(pt) => {
                    proof {
                        lemma_nth_coord_inside(extent, n);
                        lemma_bool_cell_eq(true, true);
                        assert forall|c: Coord| old.lookup(c) == read(old@, extent, filler, c) by {}
                        assert forall|b: bool|
                            crate::equality::cell_eq(&b, &true) == (b == true) by {
                            lemma_bool_cell_eq(b, true);
                        }
                    }
                    let nbrs = old.neighbors_equal(pt, true).count() + old.diagonals_equal(
                        pt,
                        true,
                    ).count();
                    assert(nbrs == walls_around(old@, extent, filler, pt));
                    if !old[pt] && self.born.start <= nbrs && nbrs < self.born.end {
                        *grid.index_mut(pt) = true;  // Born!
                    } else if old[pt] && !(self.survive.start <= nbrs && nbrs < self.survive.end) {
                        *grid.index_mut(pt) = false;  // Dies.
                    }
                },
                None => {
                    break ;
                },
            }
        }
        proof {
            assert(grid@ =~= next);
        }
    }

    /// Grows a map from the cells of `grid`: runs the automaton for the
    /// given number of generations and, where connecting is asked for, digs
    /// tunnels until all passable cells are connected.
    pub fn build_from(self, grid: VecGrid<bool>) -> (map: VecGrid<bool>)
        requires
            grid.wf(),
            self.connect() ==> walkable(grid.extent()),
        ensures
            self.yields(grid@, grid.extent(), grid.filler(), &map),
    {
        let ghost noise = grid@;
        let ghost extent = grid.extent();
        let ghost filler = grid.filler();
        let mut grid = grid;
        let mut round: i32 = 0;
        while round < self.generations
            invariant
                0 <= round,
                round <= self.generations || self.generations < 0,
                self.generations < 0 ==> round == 0,
                grid.wf(),
                grid.extent() == extent,
                grid.filler() == filler,
                aged(grid@, extent, filler, self.born(), self.survive(), (self.rounds() - round) as nat)
                    == self.cave(noise, extent, filler),
            decreases self.generations - round,
        {
            self.step(&mut grid);
            round += 1;
        }
        let ghost cave = grid@;
        assert(cave == self.cave(noise, extent, filler));
        if self.connect {
            grid = connect_groups(grid);
        }
        grid
    }

    /// Build a cellular-automaton random map: every cell starts as a wall
    /// with the given probability, and the map is grown from that.
    pub fn build(self, rand: &mut StdRng) -> (map: VecGrid<bool>)
        requires
            0 <= self.size().0,
            0 <= self.size().1,
            self.size().0 * self.size().1 <= i32::MAX,
            self.probability() <= 1000,
            self.connect() ==> walkable(self.size()),
        ensures
            exists|noise: Seq<bool>|
                {
                    &&& noise.len() == area(self.size())
                    &&& self.probability() == 0 ==> forall|n: int|
                        0 <= n < noise.len() ==> !noise[n]
                    &&& self.probability() == 1000 ==> forall|n: int|
                        0 <= n < noise.len() ==> noise[n]
                    &&& #[trigger] self.yields(noise, self.size(), true, &map)
                },
    {
        let mut grid = VecGrid::new(self.size, true);
        let ghost extent = self.size;
        proof {
            lemma_area_is_product(extent);
        }
        let dims = grid.size();
        let mut it = dims.into_iter();
        loop
            invariant_except_break
                it.wf(),
                it.extent() == extent,
            invariant
                self.probability() <= 1000,
                grid.wf(),
                grid.extent() == extent,
                grid.filler() == true,
                grid@.len() == area(extent),
                self.probability() == 0 ==> forall|n: int|
                    0 <= n < area(extent) && n < it.position() ==> !grid@[n],
                self.probability() == 1000 ==> forall|n: int| 0 <= n < area(extent) ==> grid@[n],
            ensures
                it.position() >= area(extent),
            decreases area(extent) - it.position(),
        {
            let ghost n = it.position();
            match it.next() {
                Some(pt) => {
                    proof {
                        lemma_nth_coord_inside(extent, n);
                    }
                    let wall = gen_ratio(rand, self.probability, 1000u32);
                    *grid.index_mut(pt) = wall;
                },
                None => {
                    break ;
                },
            }
        }
        let ghost noise = grid@;
        let map = self.build_from(grid);
        proof {
            assert(self.yields(noise, self.size(), true, &map));
        }
        map
    }
}

} // verus!
