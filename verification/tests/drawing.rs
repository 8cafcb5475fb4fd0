use textgraph::{blue, pxy, red, white, xy, Canvas, Cell, Font, Grid, Layer, RectStyle, Wall};

fn picture(layer: &Layer) -> String {
    layer.chars().map_grid(|_, ch| ch.0 as char, ' ').to_text()
}

#[test]
fn walls_of_every_style() {
    assert_eq!(
        RectStyle::NORMAL.wall(),
        Wall { nw: b'+', n: b'-', ne: b'+', w: b'|', e: b'|', sw: b'+', s: b'-', se: b'+' }
    );
    assert_eq!(
        RectStyle::ROUNDED.wall(),
        Wall { nw: b'/', n: b'-', ne: b'\\', w: b'|', e: b'|', sw: b'\\', s: b'-', se: b'/' }
    );
    assert_eq!(
        RectStyle::SINGLE.wall(),
        Wall { nw: 0xda, n: 0xc4, ne: 0xbf, w: 0xb3, e: 0xb3, sw: 0xc0, s: 0xc4, se: 0xd9 }
    );
    assert_eq!(
        RectStyle::DOUBLE.wall(),
        Wall { nw: 0xc9, n: 0xcd, ne: 0xbb, w: 0xba, e: 0xba, sw: 0xc8, s: 0xcd, se: 0xbc }
    );
}

#[test]
fn set_changes_what_is_given() {
    let font = Font::blank();
    let mut layer = Layer::new(&font, xy(3, 2), pxy(1, 1), pxy(0, 0));
    Canvas::set(&mut layer, xy(1, 1), Some('q'), None, Some(red()));
    assert_eq!(layer[xy(1, 1)], Cell { ch: b'q', fg: white(), bg: red() });
    Canvas::set(&mut layer, xy(1, 1), None, Some(blue()), None);
    assert_eq!(layer[xy(1, 1)], Cell { ch: b'q', fg: blue(), bg: red() });
    // outside nothing happens
    Canvas::set(&mut layer, xy(3, 1), Some('z'), None, None);
    Canvas::set(&mut layer, xy(-1, 0), Some('z'), None, None);
    assert_eq!(picture(&layer), "   \n q ");
}

#[test]
fn fill_rect_is_clipped() {
    let font = Font::blank();
    let mut layer = Layer::new(&font, xy(5, 4), pxy(1, 1), pxy(0, 0));
    layer.fill_rect(Some('.'), Some(white()), None, xy(1, 1), xy(3, 2));
    assert_eq!(picture(&layer), "     \n ... \n ... \n     ");
    layer.fill_rect(Some('#'), None, None, xy(3, 2), xy(10, 10));
    assert_eq!(picture(&layer), "     \n ... \n ..##\n   ##");
    layer.fill_rect(Some('o'), None, None, xy(-2, -2), xy(3, 3));
    assert_eq!(picture(&layer), "o    \n ... \n ..##\n   ##");
    layer.fill_rect(Some('!'), None, None, xy(1, 1), xy(0, 3));
    assert_eq!(picture(&layer), "o    \n ... \n ..##\n   ##");
}

#[test]
fn fill_covers_everything() {
    let font = Font::blank();
    let mut layer = Layer::new(&font, xy(3, 2), pxy(1, 1), pxy(0, 0));
    layer.fill(Some('R'), Some(white()), Some(blue()));
    assert_eq!(picture(&layer), "RRR\nRRR");
    assert_eq!(layer[xy(2, 1)], Cell { ch: b'R', fg: white(), bg: blue() });
}

#[test]
fn rect_draws_an_outline() {
    let font = Font::blank();
    let mut layer = Layer::new(&font, xy(6, 5), pxy(1, 1), pxy(0, 0));
    layer.rect(RectStyle::ROUNDED.wall(), None, None, xy(1, 1), xy(4, 3));
    assert_eq!(picture(&layer), "      \n /--\\ \n |  | \n \\--/ \n      ");
}

#[test]
fn rect_is_clipped() {
    let font = Font::blank();
    let mut layer = Layer::new(&font, xy(4, 3), pxy(1, 1), pxy(0, 0));
    layer.rect(RectStyle::NORMAL.wall(), None, None, xy(2, 1), xy(4, 4));
    assert_eq!(picture(&layer), "    \n  +-\n  | ");
}

#[test]
fn thin_rects_show_what_is_drawn_last() {
    let font = Font::blank();
    let wall = Wall { nw: b'1', n: b'n', ne: b'2', w: b'w', e: b'e', sw: b'3', s: b's', se: b'4' };
    let mut layer = Layer::new(&font, xy(4, 4), pxy(1, 1), pxy(0, 0));
    layer.rect(wall, None, None, xy(0, 0), xy(1, 4));
    assert_eq!(picture(&layer), "2   \ne   \ne   \n4   ");
    let mut layer = Layer::new(&font, xy(4, 4), pxy(1, 1), pxy(0, 0));
    layer.rect(wall, None, None, xy(0, 1), xy(4, 1));
    assert_eq!(picture(&layer), "    \n3ss4\n    \n    ");
    let mut layer = Layer::new(&font, xy(4, 4), pxy(1, 1), pxy(0, 0));
    layer.rect(wall, None, None, xy(2, 2), xy(1, 1));
    assert_eq!(picture(&layer), "    \n    \n  4 \n    ");
}

#[test]
fn within_looks_only_right_and_down() {
    let font = Font::blank();
    let layer = Layer::new(&font, xy(3, 2), pxy(1, 1), pxy(0, 0));
    assert!(layer.within(xy(2, 1)));
    assert!(!layer.within(xy(3, 1)));
    assert!(!layer.within(xy(2, 2)));
    assert!(layer.within(xy(-1, -5)));
    assert_eq!(Canvas::size(&layer), xy(3, 2));
    assert!(!layer.contains(xy(-1, -5)));
}
