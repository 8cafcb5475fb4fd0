use textgraph::{blue, pxy, red, white, xy, Bg, Char, Color, Fg, Font, Glyph, Layer, Sprite};

/// A blend that takes the colour as it is.
fn paint(color: Color, _under: &[u8]) -> [u8; 4] {
    [color.r, color.g, color.b, color.a]
}

/// The pixel at `(x, y)` of a frame that is `width` pixels wide.
fn pixel(frame: &[u8], width: usize, x: usize, y: usize) -> [u8; 4] {
    let start = (y * width + x) * 4;
    [frame[start], frame[start + 1], frame[start + 2], frame[start + 3]]
}

const RED: [u8; 4] = [255, 0, 0, 255];
const BLUE: [u8; 4] = [0, 0, 255, 255];
const WHITE: [u8; 4] = [255, 255, 255, 255];
const NONE: [u8; 4] = [0, 0, 0, 0];

fn font_with_corner() -> Font {
    let mut glyphs = [Glyph::default(); 256];
    // top left pixel and bottom right pixel
    glyphs[b'c' as usize] = Glyph([0x80, 0, 0, 0, 0, 0, 0, 0x01]);
    Font::from_glyphs(glyphs)
}

#[test]
fn blit_lays_foreground_and_background() {
    let font = font_with_corner();
    let layer = Layer::new(&font, xy(1, 1), pxy(1, 1), pxy(0, 0));
    let mut frame = vec![7u8; 10 * 9 * 4 + 3];
    layer.blit(&mut frame, 10, font[b'c'], red(), blue(), pxy(1, 0), pxy(1, 1), &paint);
    assert_eq!(pixel(&frame, 10, 1, 0), RED);
    assert_eq!(pixel(&frame, 10, 8, 7), RED);
    assert_eq!(pixel(&frame, 10, 2, 0), BLUE);
    assert_eq!(pixel(&frame, 10, 1, 7), BLUE);
    // around the glyph nothing changes
    assert_eq!(pixel(&frame, 10, 0, 0), [7; 4]);
    assert_eq!(pixel(&frame, 10, 9, 3), [7; 4]);
    assert_eq!(pixel(&frame, 10, 4, 8), [7; 4]);
    assert_eq!(&frame[360..], &[7, 7, 7]);
}

#[test]
fn blit_scales_each_pixel_to_a_block() {
    let font = font_with_corner();
    let layer = Layer::new(&font, xy(1, 1), pxy(1, 1), pxy(0, 0));
    let mut frame = vec![0u8; 20 * 30 * 4];
    layer.blit(&mut frame, 20, font[b'c'], red(), blue(), pxy(2, 3), pxy(2, 3), &paint);
    for (x, y) in [(2, 3), (3, 3), (2, 5), (3, 5), (16, 24), (17, 26)] {
        assert_eq!(pixel(&frame, 20, x, y), RED, "at {}, {}", x, y);
    }
    for (x, y) in [(4, 3), (2, 6), (15, 24), (17, 23)] {
        assert_eq!(pixel(&frame, 20, x, y), BLUE, "at {}, {}", x, y);
    }
    for (x, y) in [(1, 3), (2, 2), (18, 26), (17, 27)] {
        assert_eq!(pixel(&frame, 20, x, y), NONE, "at {}, {}", x, y);
    }
}

#[test]
fn blit_is_clipped_to_the_frame() {
    let font = font_with_corner();
    let layer = Layer::new(&font, xy(1, 1), pxy(1, 1), pxy(0, 0));
    let mut frame = vec![0u8; 4 * 4 * 4];
    layer.blit(&mut frame, 4, font[b'c'], red(), blue(), pxy(-5, -5), pxy(1, 1), &paint);
    assert_eq!(pixel(&frame, 4, 0, 0), BLUE);
    assert_eq!(pixel(&frame, 4, 2, 2), RED);
    assert_eq!(pixel(&frame, 4, 3, 2), NONE);
    assert_eq!(pixel(&frame, 4, 2, 3), NONE);
    let before = frame.clone();
    layer.blit(&mut frame, 4, font[b'c'], red(), blue(), pxy(4, 0), pxy(1, 1), &paint);
    layer.blit(&mut frame, 4, font[b'c'], red(), blue(), pxy(0, 4), pxy(1, 1), &paint);
    layer.blit(&mut frame, 4, font[b'c'], red(), blue(), pxy(-9, 0), pxy(1, 1), &paint);
    layer.blit(&mut frame, 4, font[b'c'], red(), blue(), pxy(0, 0), pxy(0, 1), &paint);
    assert_eq!(frame, before);
}

#[test]
fn blend_sees_what_lies_under() {
    let font = font_with_corner();
    let layer = Layer::new(&font, xy(1, 1), pxy(1, 1), pxy(0, 0));
    let mut frame: Vec<u8> = (0..8 * 8 * 4).map(|n| (n % 251) as u8).collect();
    let before = frame.clone();
    let add = |color: Color, under: &[u8]| -> [u8; 4] {
        [under[0] ^ color.r, under[1] ^ color.g, under[2] ^ color.b, under[3]]
    };
    layer.blit(&mut frame, 8, font[b'c'], red(), blue(), pxy(0, 0), pxy(1, 1), &add);
    for n in 0..64 {
        let under = &before[n * 4..n * 4 + 4];
        let color = if n == 0 || n == 63 { red() } else { blue() };
        assert_eq!(&frame[n * 4..n * 4 + 4], &[under[0] ^ color.r, under[1], under[2] ^ color.b, under[3]]);
    }
}

#[test]
fn draw_places_every_cell() {
    let font = font_with_corner();
    let mut layer = Layer::new(&font, xy(2, 2), pxy(1, 2), pxy(3, 1));
    layer[xy(1, 0)] |= Char(b'c') + Fg(red()) + Bg(blue());
    layer[xy(0, 1)] |= Char(b'c') + Fg(white()) + Bg(red());
    let mut frame = vec![9u8; 24 * 40 * 4];
    layer.draw(&mut frame, 24, &paint);
    // cell (1, 0) starts at pixel (3 + 8, 1), each glyph pixel two rows high
    assert_eq!(pixel(&frame, 24, 11, 1), RED);
    assert_eq!(pixel(&frame, 24, 11, 2), RED);
    assert_eq!(pixel(&frame, 24, 11, 3), BLUE);
    assert_eq!(pixel(&frame, 24, 18, 16), RED);
    // cell (0, 1) starts at pixel (3, 1 + 16)
    assert_eq!(pixel(&frame, 24, 3, 17), WHITE);
    assert_eq!(pixel(&frame, 24, 4, 17), RED);
    // cell (0, 0) is a blank glyph on a clear background
    assert_eq!(pixel(&frame, 24, 3, 1), NONE);
    // outside the layer nothing is drawn
    assert_eq!(pixel(&frame, 24, 2, 1), [9; 4]);
    assert_eq!(pixel(&frame, 24, 19, 1), [9; 4]);
    assert_eq!(pixel(&frame, 24, 3, 33), [9; 4]);
}

#[test]
fn sprites_are_drawn_from_the_layer_s_origin() {
    let font = font_with_corner();
    let layer = Layer::new(&font, xy(1, 1), pxy(1, 1), pxy(10, 20));
    let player = Sprite { cell: Char(b'c') + Fg(red()) + Bg(blue()), position: pxy(5, 5), scale: pxy(0, 1) };
    let ghost = Sprite { cell: Char(b'c') + Fg(white()) + Bg(white()), position: pxy(12, 12), scale: pxy(1, 1) };
    let mut frame = vec![0u8; 40 * 40 * 4];
    layer.draw_sprites(&[player, ghost], &mut frame, 40, &paint);
    assert_eq!(pixel(&frame, 40, 15, 25), RED);
    assert_eq!(pixel(&frame, 40, 16, 25), BLUE);
    // the sprite drawn later lies on top
    assert_eq!(pixel(&frame, 40, 22, 32), WHITE);
    assert_eq!(pixel(&frame, 40, 29, 39), WHITE);
    assert_eq!(pixel(&frame, 40, 14, 25), NONE);
}

#[test]
fn pixel_coord_scales_and_shifts() {
    let font = Font::blank();
    let layer = Layer::new(&font, xy(10, 10), pxy(2, 0), pxy(50, -7));
    assert_eq!(layer.pixel_coord(xy(0, 0)), pxy(50, -7));
    assert_eq!(layer.pixel_coord(xy(3, 2)), pxy(50 + 48, -7 + 16));
}
