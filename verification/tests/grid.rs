use textgraph::{xy, CountableNeighbors, Grid, GridMut, VecGrid};

#[test]
fn test_iter() {
    let grid = VecGrid::from("AB\nCD");
    let mut it = grid.iter();
    assert_eq!(it.next(), Some(&'A'));
    assert_eq!(it.next(), Some(&'B'));
    assert_eq!(it.next(), Some(&'C'));
    assert_eq!(it.next(), Some(&'D'));
    assert_eq!(it.next(), None);
}

#[test]
fn test_neighbors() {
    // ABA
    // BBA
    // AAA
    let grid = VecGrid::from("ABA\nBBA\nAAA");
    // The one in the center:
    assert_eq!(grid.neighbors_equal(xy(1, 1), 'B'), (true, false, false, true));

    // One near the edge:
    assert_eq!(grid.neighbors_equal(xy(1, 0), 'B'), (false, true, false, false))
}

#[test]
fn test_iterator() {
    let mut c = xy(2, 1).into_iter();
    assert_eq!(c.next(), Some(xy(0, 0)));
    assert_eq!(c.next(), Some(xy(1, 0)));
    assert_eq!(c.next(), None);
}

#[test]
fn grid_test_iter() {
    let grid = VecGrid::from("AB\nCD");
    let mut it = grid.iter();
    assert_eq!(it.next(), Some(&'A'));
    assert_eq!(it.next(), Some(&'B'));
    assert_eq!(it.next(), Some(&'C'));
    assert_eq!(it.next(), Some(&'D'));
    assert_eq!(it.next(), None);
}

#[test]
fn grid_test_neighbors() {
    // ABA
    // BBA
    // AAA
    let grid = VecGrid::from("ABA\nBBA\nAAA");
    // The one in the center:
    assert_eq!(grid.neighbors_equal(xy(1, 1), 'B'), (true, false, false, true));

    // One near the edge:
    assert_eq!(grid.neighbors_equal(xy(1, 0), 'B'), (false, true, false, false))
}

#[test]
fn diagonals_come_back_in_order() {
    // ABA
    // BBA
    // AAC
    let grid = VecGrid::from("ABA\nBBA\nAAC");
    // north-east, south-east, south-west, north-west
    assert_eq!(grid.diagonals_equal(xy(1, 1), 'A'), (true, false, true, true));
    assert_eq!(grid.diagonals_equal(xy(1, 1), 'C'), (false, true, false, false));
    let seen = grid.for_diagonals(xy(1, 1), |at, ch| (at, *ch));
    assert_eq!(seen, ((xy(2, 0), 'A'), (xy(2, 2), 'C'), (xy(0, 2), 'A'), (xy(0, 0), 'A')));
}

#[test]
fn neighbors_come_back_in_order() {
    let grid = VecGrid::from("ABC\nDEF\nGHI");
    // north, south, east, west
    let seen = grid.for_neighbors(xy(1, 1), |at, ch| (at, *ch));
    assert_eq!(seen, ((xy(1, 0), 'B'), (xy(1, 2), 'H'), (xy(2, 1), 'F'), (xy(0, 1), 'D')));
}

#[test]
fn outside_cells_read_as_the_default() {
    let grid = VecGrid::new(xy(2, 2), 'x');
    let corner = grid.for_neighbors(xy(0, 0), |_, ch| *ch);
    assert_eq!(corner, ('x', 'x', 'x', 'x'));
    let grid = VecGrid::from_vec(vec!['a', 'b', 'c', 'd'], 2, '?');
    assert_eq!(grid.for_neighbors(xy(0, 0), |_, ch| *ch), ('?', 'c', 'b', '?'));
    assert_eq!(grid.for_diagonals(xy(0, 0), |_, ch| *ch), ('?', 'd', '?', '?'));
    // far outside, every neighbour is the default
    assert_eq!(grid.for_neighbors(xy(-7, 12), |_, ch| *ch), ('?', '?', '?', '?'));
    assert_eq!(grid.neighbors_equal(xy(40, 40), '?'), (true, true, true, true));
    assert_eq!(grid.default(), '?');
}

#[test]
fn get_outside_is_none() {
    let grid = VecGrid::from("AB\nCD");
    for at in [xy(-1, 0), xy(0, -1), xy(2, 0), xy(0, 2), xy(i32::MAX, i32::MAX), xy(i32::MIN, 0)] {
        assert_eq!(grid.get(at), None);
        assert!(!grid.contains(at));
    }
    assert_eq!(grid.get(xy(1, 1)), Some(&'D'));
    assert!(grid.contains(xy(1, 1)));
}

#[test]
fn get_mut_changes_one_cell() {
    let mut grid = VecGrid::from("AB\nCD");
    *grid.get_mut(xy(1, 0)).unwrap() = 'x';
    assert_eq!(grid.to_text(), "Ax\nCD");
    assert!(grid.get_mut(xy(2, 0)).is_none());
}

#[test]
fn counting_neighbors() {
    assert_eq!((false, false, false, false).count(), 0);
    assert_eq!((true, false, true, false).count(), 2);
    assert_eq!((true, true, true, true).count(), 4);
}

#[test]
fn coord_inverts_reading_order() {
    let grid = VecGrid::from("ABC\nDEF");
    assert_eq!(grid.size(), xy(3, 2));
    assert_eq!(grid.coord(0), xy(0, 0));
    assert_eq!(grid.coord(2), xy(2, 0));
    assert_eq!(grid.coord(3), xy(0, 1));
    assert_eq!(grid.coord(5), xy(2, 1));
    let mut it = grid.iter();
    let mut n = 0;
    while let Some(cell) = it.next() {
        assert_eq!(grid.get(grid.coord(n)), Some(cell));
        n += 1;
    }
    assert_eq!(n, 6);
}

#[test]
fn find_returns_the_first_in_reading_order() {
    let grid = VecGrid::from("..x\nx.x");
    assert_eq!(grid.find(|ch| *ch == 'x'), Some(xy(2, 0)));
    assert_eq!(grid.find(|ch| *ch == '.'), Some(xy(0, 0)));
    assert_eq!(grid.find(|ch| *ch == '#'), None);
    assert_eq!(grid.find_all(|ch| *ch == 'x'), vec![xy(2, 0), xy(0, 1), xy(2, 1)]);
    assert_eq!(grid.find_all(|ch| *ch == '#'), vec![]);
}

#[test]
fn neighbor_coords_stay_inside() {
    let grid = VecGrid::from("...\n...\n...");
    assert_eq!(grid.neighbor_coords(xy(1, 1)), vec![xy(1, 0), xy(2, 1), xy(1, 2), xy(0, 1)]);
    assert_eq!(grid.neighbor_coords(xy(0, 0)), vec![xy(1, 0), xy(0, 1)]);
    assert_eq!(grid.neighbor_coords(xy(2, 2)), vec![xy(2, 1), xy(1, 2)]);
    assert_eq!(grid.neighbor_coords(xy(3, 1)), vec![xy(2, 1)]);
    assert_eq!(grid.neighbor_coords(xy(9, 9)), vec![]);
}

#[test]
fn map_applies_in_reading_order() {
    let grid = VecGrid::from("ab\ncd");
    assert_eq!(grid.map(|at, ch| (at.0 + 10 * at.1, *ch)), vec![(0, 'a'), (1, 'b'), (10, 'c'), (11, 'd')]);
}
