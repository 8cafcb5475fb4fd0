use textgraph::{blue, red, white, yellow, Bg, BgChar, Cell, Char, Fg, FgBg, FgChar};

#[test]
fn test_adds() {
    let f = Fg(red());
    let b = Bg(white());
    let ch = Char(65);

    assert_eq!(f + b, b + f);
    assert_eq!(f + b, FgBg { fg: red(), bg: white() });
    assert_eq!(f + b + ch, (f + ch) + b);
    assert_eq!(f + b + ch, Cell { fg: red(), bg: white(), ch: 65u8 });
}

#[test]
fn test_bit_assign() {
    let mut a = Fg(red()) + Bg(blue()) + Char(0x32u8);
    a |= Char(65);
    a |= Bg(yellow());
    assert_eq!(a, Fg(red()) + Bg(yellow()) + Char(65));

    let mut a = Fg(red()) + Bg(blue()) + Char(0x32u8);
    a |= Char(65) + Bg(yellow());
    assert_eq!(a, Fg(red()) + Bg(yellow()) + Char(65))
}

#[test]
fn test_into() {
    let c = Fg(red()) + Bg(white()) + Char(0x65u8);
    assert_eq!(Char::from(c), Char(0x65u8));
    assert_eq!(FgBg::from(c), Fg(red()) + Bg(white()));

    let col = Fg(red()) + Bg(white());
    assert_eq!(Bg::from(col), Bg(white()));
}

#[test]
fn cell_parts_in_every_order() {
    let (f, b, ch) = (Fg(blue()), Bg(yellow()), Char(b'@'));
    let cell = Cell { ch: b'@', fg: blue(), bg: yellow() };
    assert_eq!(ch + (f + b), cell);
    assert_eq!((b + ch) + f, cell);
    assert_eq!(f + (ch + b), cell);
    assert_eq!(FgChar::from(cell), f + ch);
    assert_eq!(BgChar::from(cell), b + ch);
    assert_eq!(Fg::from(f + ch), f);
    assert_eq!(Char::from(b + ch), ch);
}

#[test]
fn default_cell_is_a_white_space_on_clear() {
    assert_eq!(Cell::default(), Fg(white()) + Bg(textgraph::clear()) + Char(b' '));
}
