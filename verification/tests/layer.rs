use textgraph::{pxy, red, xy, yellow, Bg, Char, Coord, Fg, Font, Grid, Layer};

#[test]
fn test_layer_creation() {
    let font = Font::blank();
    let layer = Layer::new(&font, xy(10, 10), pxy(1, 2), pxy(0, 0));
    assert_eq!(layer.scale, pxy(1, 2));
    assert_eq!(layer.origin, pxy(0, 0));
    assert_eq!(layer.size(), xy(10, 10));
}

#[test]
fn test_layer_access() {
    let font = Font::blank();
    let mut layer = Layer::new(&font, xy(10, 10), pxy(1, 2), pxy(0, 0));

    let at: Coord = xy(3, 2);
    layer[at] |= Char('!' as u8) + Fg(yellow()) + Bg(red());

    assert_eq!(Char::from(layer[at]), Char('!' as u8));
    assert_eq!(Fg::from(layer[at]), Fg(yellow()));
    assert_eq!(Bg::from(layer[at]), Bg(red()));
}

#[test]
fn test_pixel_coords() {
    let font = Font::blank();
    let layer = Layer::new(&font, xy(10, 10), pxy(2, 4), pxy(50, 50));

    let mut it = layer.cells();
    // This places us on the 2nd char on the 2nd row
    for _ in 0..11 {
        it.next();
    }
    let (_glyph, _fg, _bg, ps) = it.next().unwrap();

    // That top-left coord should be the offset plus a 2x width and a 4x height:
    assert_eq!(ps, pxy(50 + 16, 50 + 32));
}

#[test]
fn test_chars() {
    let font = Font::blank();
    let mut layer = Layer::new(&font, xy(10, 10), pxy(2, 4), pxy(50, 50));
    layer[xy(3, 5)] |= Char('a' as u8);
    assert_eq!(layer.chars()[xy(3, 5)], Char('a' as u8));
}

#[test]
fn layer_is_a_grid_of_default_cells() {
    let font = Font::blank();
    let layer = Layer::new(&font, xy(4, 3), pxy(1, 1), pxy(0, 0));
    assert!(layer.contains(xy(3, 2)));
    assert!(!layer.contains(xy(4, 2)));
    assert_eq!(layer.get(xy(0, 3)), None);
    assert_eq!(layer.get(xy(1, 1)), Some(&textgraph::Cell::default()));
}

#[test]
fn layer_test_layer_creation() {
    let font = Font::blank();
    let layer = Layer::new(&font, xy(10, 10), pxy(1, 2), pxy(0, 0));
    assert_eq!(layer.scale, pxy(1, 2));
    assert_eq!(layer.origin, pxy(0, 0));
    assert_eq!(layer.size(), xy(10, 10));
}

#[test]
fn layer_test_layer_access() {
    let font = Font::blank();
    let mut layer = Layer::new(&font, xy(10, 10), pxy(1, 2), pxy(0, 0));

    let at: Coord = xy(3, 2);
    layer[at] |= Char('!' as u8) + Fg(yellow()) + Bg(red());

    assert_eq!(Char::from(layer[at]), Char('!' as u8));
    assert_eq!(Fg::from(layer[at]), Fg(yellow()));
    assert_eq!(Bg::from(layer[at]), Bg(red()));
}

#[test]
fn layer_test_pixel_coords() {
    let font = Font::blank();
    let layer = Layer::new(&font, xy(10, 10), pxy(2, 4), pxy(50, 50));

    let mut it = layer.cells();
    // This places us on the 2nd char on the 2nd row
    for _ in 0..11 {
        it.next();
    }
    let (_glyph, _fg, _bg, ps) = it.next().unwrap();

    // That top-left coord should be the offset plus a 2x width and a 4x height:
    assert_eq!(ps, pxy(50 + 16, 50 + 32));
}

#[test]
fn layer_test_chars() {
    let font = Font::blank();
    let mut layer = Layer::new(&font, xy(10, 10), pxy(2, 4), pxy(50, 50));
    layer[xy(3, 5)] |= Char('a' as u8);
    assert_eq!(layer.chars()[xy(3, 5)], Char('a' as u8));
}

#[test]
fn cloned_layer_is_independent() {
    let font = Font::blank();
    let mut layer = Layer::new(&font, xy(2, 2), pxy(3, 1), pxy(-4, 9));
    layer[xy(0, 1)] |= Char(b'k');
    let copy = layer.clone();
    layer[xy(0, 1)] |= Char(b'z');
    assert_eq!(copy[xy(0, 1)].ch, b'k');
    assert_eq!(copy.scale, pxy(3, 1));
    assert_eq!(copy.origin, pxy(-4, 9));
    assert_eq!(copy.size(), xy(2, 2));
}

#[test]
fn grid_and_grid_mut_reach_the_cells() {
    let font = Font::blank();
    let mut layer = Layer::new(&font, xy(2, 2), pxy(1, 1), pxy(0, 0));
    layer.grid_mut()[xy(1, 1)] |= Char(b'g');
    assert_eq!(layer.grid()[xy(1, 1)].ch, b'g');
    assert_eq!(layer[xy(1, 1)].ch, b'g');
    assert_eq!(layer.grid().size(), xy(2, 2));
}
