use textgraph::{xy, Grid, VecGrid};

#[test]
fn test_vecgrid() {
    let mut grid = VecGrid::from("AB\nCD");
    grid[xy(0, 0)] = 'z';
    assert_eq!(grid[xy(0, 0)], 'z');
    assert_eq!(grid[xy(0, 1)], 'C');
    assert_eq!(grid.get(xy(2, 2)), None);
}


#[test]
fn vecgrid_test_vecgrid() {
    let mut grid = VecGrid::from("AB\nCD");
    grid[xy(0, 0)] = 'z';
    assert_eq!(grid[xy(0, 0)], 'z');
    assert_eq!(grid[xy(0, 1)], 'C');
    assert_eq!(grid.get(xy(2, 2)), None);
}

#[test]
fn new_grid_is_all_default() {
    let grid = VecGrid::new(xy(3, 2), 7u8);
    assert_eq!(grid.size(), xy(3, 2));
    assert_eq!(grid.map(|_, v| *v), vec![7; 6]);
    assert_eq!(grid.default(), 7);
    let empty = VecGrid::new(xy(0, 4), 'x');
    assert_eq!(empty.size(), xy(0, 4));
    assert_eq!(empty.get(xy(0, 0)), None);
}

#[test]
fn from_vec_lays_out_rows() {
    let grid = VecGrid::from_vec(vec![1, 2, 3, 4, 5, 6], 3, 0);
    assert_eq!(grid.size(), xy(3, 2));
    assert_eq!(grid[xy(2, 0)], 3);
    assert_eq!(grid[xy(0, 1)], 4);
    // cells behind the last full row are dropped
    let ragged = VecGrid::from_vec(vec![1, 2, 3, 4, 5], 2, 0);
    assert_eq!(ragged.size(), xy(2, 2));
    assert_eq!(ragged.map(|_, v| *v), vec![1, 2, 3, 4]);
    let none = VecGrid::from_vec(vec![1, 2, 3], 0, 0);
    assert_eq!(none.size(), xy(0, 0));
}

#[test]
fn text_in_and_out() {
    let grid = VecGrid::from("AB\nCD\n");
    assert_eq!(grid.size(), xy(2, 2));
    assert_eq!(grid.to_text(), "AB\nCD");
    let windows = VecGrid::from("ab\r\ncd\r\nef");
    assert_eq!(windows.size(), xy(2, 3));
    assert_eq!(windows.to_text(), "ab\ncd\nef");
    let lone = VecGrid::from("a\rb");
    assert_eq!(lone.size(), xy(3, 1));
    assert_eq!(lone.default(), ' ');
    assert_eq!(VecGrid::from("").size(), xy(0, 0));
    assert_eq!(VecGrid::from("").to_text(), "");
    assert_eq!(VecGrid::from("single").to_text(), "single");
}

#[test]
fn map_grid_keeps_the_shape() {
    let grid = VecGrid::from("ab\ncd");
    let upper = grid.map_grid(|_, ch| ch.to_ascii_uppercase(), '-');
    assert_eq!(upper.to_text(), "AB\nCD");
    assert_eq!(upper.default(), '-');
    let sums = grid.map_grid(|at, _| at.0 + at.1, -1);
    assert_eq!(sums.map(|_, v| *v), vec![0, 1, 1, 2]);
}

#[test]
fn clone_is_independent() {
    let mut grid = VecGrid::from("AB\nCD");
    let copy = grid.clone();
    grid[xy(1, 1)] = 'x';
    assert_eq!(copy.to_text(), "AB\nCD");
    assert_eq!(grid.to_text(), "AB\nCx");
}
