//! Field of view by recursive shadow casting.

use vstd::prelude::*;
use doryen_fov::{FovAlgorithm, FovRecursiveShadowCasting, MapData};
use crate::coords::{area, lemma_nth_coord_inside, nth_coord, Coord};
use crate::grid::Grid;
use crate::regions::lemma_area_is_product;
use crate::vecgrid::{full_rows, VecGrid};

verus! {

/// The longest side of a map that a field of view is computed on.
///
/// The shadow caster works with 32-bit coordinates and squares of distances;
/// up to this side and `MAX_RADIUS` none of its sums leaves that range.
pub const MAX_SIDE: i32 = 0x4000;

/// The largest radius of a field of view.
pub const MAX_RADIUS: u32 = 0x7fff;

/// Which cells of a map are in view from `(x, y)`, in reading order, given
/// which cells are transparent. A radius of zero stands for no limit.
pub uninterp spec fn field_of_view(
    transparent: Seq<bool>,
    width: int,
    height: int,
    x: int,
    y: int,
    radius: int,
    light_walls: bool,
) -> Seq<bool>;

/// Computes a field of view with `doryen_fov::FovRecursiveShadowCasting`, on
/// a map of the given size whose transparency is given in reading order.
///
/// Trusted: the computation is the work of the outside crate. Its source
/// keeps one flag for every cell of the map, and sets the flag of the
/// observer's own cell at the end.
#[verifier::external_body]
fn compute_fov(
    transparent: Vec<bool>,
    width: usize,
    height: usize,
    x: usize,
    y: usize,
    radius: usize,
    light_walls: bool,
) -> (fov: Vec<bool>)
    requires
        transparent.len() == width * height,
        x < width <= MAX_SIDE,
        y < height <= MAX_SIDE,
        radius <= MAX_RADIUS,
    ensures
        fov@ == field_of_view(
            transparent@,
            width as int,
            height as int,
            x as int,
            y as int,
            radius as int,
            light_walls,
        ),
        fov.len() == width * height,
        fov[x + y * width],
{
    let mut map = MapData::new(width, height);
    map.transparent = transparent;
    FovRecursiveShadowCasting::new().compute_fov(&mut map, x, y, radius, light_walls);
    map.fov
}

/// The cells of a grid in reading order.
pub open spec fn cells_of<G: Grid>(grid: &G) -> Seq<G::CellType> {
    Seq::new(area(grid.extent()) as nat, |n: int| grid.lookup(nth_coord(grid.extent(), n)))
}

/// Which cells of a map can be seen from `loc`, no further than `radius`
/// cells away, or without limit where the radius is zero. The grid says
/// which cells are transparent; walls that bound the view are in view
/// themselves, and so is the observer's own cell.
pub fn shadowcast<G: Grid<CellType = bool>>(grid: G, loc: Coord, radius: u32) -> (seen: VecGrid<bool>)
    requires
        grid.wf(),
        loc.inside(grid.extent()),
        grid.extent().0 <= MAX_SIDE,
        grid.extent().1 <= MAX_SIDE,
        radius <= MAX_RADIUS,
    ensures
        seen.wf(),
        seen.extent() == grid.extent(),
        seen.filler() == false,
        seen@ == field_of_view(
            cells_of(&grid),
            grid.extent().0 as int,
            grid.extent().1 as int,
            loc.0 as int,
            loc.1 as int,
            radius as int,
            true,
        ),
        seen.lookup(loc),
{
    let dims = grid.size();
    let ghost extent = grid.extent();
    let width = dims.0 as usize;
    let height = dims.1 as usize;
    let copy = |at: Coord, cell: &bool| -> (b: bool)
        ensures
            b == *cell,
        { *cell };
    let transparent = grid.map(copy);
    proof {
        lemma_area_is_product(extent);
        assert(transparent@ =~= cells_of(&grid));
        assert(width * height <= MAX_SIDE * MAX_SIDE) by (nonlinear_arith)
            requires
                0 <= width <= MAX_SIDE,
                0 <= height <= MAX_SIDE,
        ;
        assert(0 <= loc.0 + loc.1 * width < width * height) by (nonlinear_arith)
            requires
                0 <= loc.0 < width,
                0 <= loc.1 < height,
        ;
    }
    let fov = compute_fov(
        transparent,
        width,
        height,
        loc.0 as usize,
        loc.1 as usize,
        radius as usize,
        true,
    );
    proof {
        let w = width as int;
        let h = height as int;
        assert((w * h) / w == h) by (nonlinear_arith)
            requires
                w > 0,
                h >= 0,
        ;
        assert(fov@.take(w * h) =~= fov@);
        assert(loc.1 * w + loc.0 == loc.0 + loc.1 * w);
    }
    VecGrid::from_vec(fov, width, false)
}

} // verus!
