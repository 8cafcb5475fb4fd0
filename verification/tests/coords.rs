use textgraph::{pxy, xy, Coord, Dir, PixelCoord};

#[test]
fn steps_in_the_eight_directions() {
    let c = xy(5, 7);
    assert_eq!(c.north(), xy(5, 6));
    assert_eq!(c.south(), xy(5, 8));
    assert_eq!(c.east(), xy(6, 7));
    assert_eq!(c.west(), xy(4, 7));
    assert_eq!(c.northwest(), xy(4, 6));
    assert_eq!(c.southwest(), xy(4, 8));
    assert_eq!(c.northeast(), xy(6, 6));
    assert_eq!(c.southeast(), xy(6, 8));
}

#[test]
fn translate_follows_the_direction() {
    let c = xy(0, 0);
    assert_eq!(c.translate(Dir::North), xy(0, -1));
    assert_eq!(c.translate(Dir::South), xy(0, 1));
    assert_eq!(c.translate(Dir::East), xy(1, 0));
    assert_eq!(c.translate(Dir::West), xy(-1, 0));
}

#[test]
fn within_is_half_open() {
    assert!(xy(0, 0).within(xy(1, 1)));
    assert!(xy(2, 3).within(xy(3, 4)));
    assert!(!xy(3, 3).within(xy(3, 4)));
    assert!(!xy(2, 4).within(xy(3, 4)));
    assert!(!xy(-1, 0).within(xy(3, 4)));
    assert!(!xy(0, -1).within(xy(3, 4)));
    assert!(!xy(0, 0).within(xy(0, 0)));
}

#[test]
fn manhattan_distance() {
    assert_eq!(xy(1, 1).manhattan_dist_to(xy(4, 5)), 7);
    assert_eq!(xy(4, 5).manhattan_dist_to(xy(1, 1)), 7);
    assert_eq!(xy(-2, 3).manhattan_dist_to(xy(-2, 3)), 0);
    assert_eq!(xy(i32::MIN, 0).manhattan_dist_to(xy(-1, 0)), i32::MAX);
}

#[test]
fn adjacent_and_diagonal() {
    let c = xy(3, 3);
    for n in [xy(3, 2), xy(3, 4), xy(2, 3), xy(4, 3)] {
        assert!(c.adjacent(n));
        assert!(!c.diagonal(n));
    }
    for d in [xy(2, 2), xy(4, 2), xy(2, 4), xy(4, 4)] {
        assert!(c.diagonal(d));
        assert!(!c.adjacent(d));
    }
    assert!(!c.adjacent(c));
    assert!(!c.diagonal(c));
    assert!(!c.adjacent(xy(3, 5)));
    assert!(!xy(i32::MIN, 0).adjacent(xy(i32::MAX, 0)));
}

#[test]
fn arithmetic_on_coordinates() {
    assert_eq!(xy(1, 2) + xy(10, 20), xy(11, 22));
    assert_eq!(xy(3, 4) * xy(2, -5), xy(6, -20));
    assert_eq!(xy(7, -7) / xy(2, 2), xy(3, -3));
    assert_eq!(xy(3, 4) * 3, xy(9, 12));
    assert_eq!(xy(9, -12) / 4, xy(2, -3));
    assert_eq!(pxy(1, 2) + pxy(-4, 8), pxy(-3, 10));
}

#[test]
fn pairs_and_coordinates() {
    assert_eq!(Coord::from((3, -4)), xy(3, -4));
    let pair: (i32, i32) = xy(5, 6).into();
    assert_eq!(pair, (5, 6));
    assert_eq!(xy(1, 2), Coord(1, 2));
    assert_eq!(pxy(1, 2), PixelCoord(1, 2));
}

#[test]
fn iterator_walks_in_reading_order() {
    let mut seen = Vec::new();
    let mut it = xy(3, 2).into_iter();
    while let Some(c) = it.next() {
        seen.push(c);
    }
    assert_eq!(seen, vec![xy(0, 0), xy(1, 0), xy(2, 0), xy(0, 1), xy(1, 1), xy(2, 1)]);
    assert_eq!(it.next(), None);
}

#[test]
fn iterator_over_nothing() {
    assert_eq!(xy(0, 5).into_iter().next(), None);
    assert_eq!(xy(5, 0).into_iter().next(), None);
    assert_eq!(xy(-2, 3).into_iter().next(), None);
}
