use textgraph::life::update;
use textgraph::{blue, pxy, red, xy, Bg, Char, Fg, Font, Grid, Layer};

fn layer_of<'a>(font: &'a Font, text: &str) -> Layer<'a> {
    let chars = textgraph::VecGrid::from(text);
    let mut layer = Layer::new(font, chars.size(), pxy(1, 1), pxy(0, 0));
    let mut cells = chars.size().into_iter();
    while let Some(at) = cells.next() {
        layer[at] |= Char(chars[at] as u8);
    }
    layer
}

fn picture(layer: &Layer) -> String {
    layer.chars().map_grid(|_, ch| ch.0 as char, ' ').to_text()
}

#[test]
fn blinker_turns() {
    let font = Font::blank();
    let mut layer = layer_of(&font, "     \n  #  \n  #  \n  #  \n     ");
    update(&mut layer);
    assert_eq!(picture(&layer), "     \n     \n ### \n     \n     ");
    update(&mut layer);
    assert_eq!(picture(&layer), "     \n  #  \n  #  \n  #  \n     ");
}

#[test]
fn block_stays_and_lone_cells_die() {
    let font = Font::blank();
    let mut layer = layer_of(&font, "##   \n##   \n    #");
    update(&mut layer);
    assert_eq!(picture(&layer), "##   \n##   \n     ");
}

#[test]
fn crowded_cells_die_and_edges_count_as_dead() {
    let font = Font::blank();
    let mut layer = layer_of(&font, "###\n###\n###");
    update(&mut layer);
    assert_eq!(picture(&layer), "# #\n   \n# #");
}

#[test]
fn other_characters_are_dead_afterwards() {
    let font = Font::blank();
    let mut layer = layer_of(&font, "x##\n  #\n   ");
    update(&mut layer);
    // the `x` is neither alive nor dead and is cleared; (1, 1) has three
    // living cells around it and is born
    assert_eq!(picture(&layer), " ##\n ##\n   ");
}

#[test]
fn update_keeps_the_colours() {
    let font = Font::blank();
    let mut layer = layer_of(&font, "###\n   ");
    layer[xy(1, 0)] |= Fg(red()) + Bg(blue());
    layer[xy(1, 1)] |= Fg(blue()) + Bg(red());
    update(&mut layer);
    assert_eq!(layer[xy(1, 0)], Char(b'#') + Fg(red()) + Bg(blue()));
    assert_eq!(layer[xy(1, 1)], Char(b'#') + Fg(blue()) + Bg(red()));
    assert_eq!(layer[xy(0, 0)].ch, b' ');
}
