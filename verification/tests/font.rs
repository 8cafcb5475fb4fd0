use textgraph::{Font, Glyph};

#[test]
fn glyph_pixels_row_by_row() {
    let glyph = Glyph::from([
        0b00000000, 0b00011000, 0b10011000, 0b01111110, 0b00011001, 0b00100100, 0b01000010,
        0b11000011,
    ]);
    let mut it = glyph.into_iter();
    let mut rows = vec![String::new(); 8];
    let mut count = 0;
    while let Some((on, x, y)) = it.next() {
        assert_eq!(x, count % 8);
        assert_eq!(y, count / 8);
        rows[y].push(if on { '#' } else { '.' });
        count += 1;
    }
    assert_eq!(count, 64);
    assert_eq!(it.next(), None);
    assert_eq!(
        rows,
        vec![
            "........", "...##...", "#..##...", ".######.", "...##..#", "..#..#..", ".#....#.",
            "##....##"
        ]
    );
}

#[test]
fn default_glyph_is_blank() {
    let glyph = Glyph::default();
    let mut it = glyph.into_iter();
    while let Some((on, _, _)) = it.next() {
        assert!(!on);
    }
    assert_eq!(glyph.0, [0; 8]);
}

#[test]
fn fonts_are_indexed_by_byte_and_by_char() {
    let mut glyphs = [Glyph::default(); 256];
    glyphs[65] = Glyph([1, 2, 3, 4, 5, 6, 7, 8]);
    glyphs[200] = Glyph([9; 8]);
    let mut font = Font::from_glyphs(glyphs);
    assert_eq!(font[65u8].0, [1, 2, 3, 4, 5, 6, 7, 8]);
    assert_eq!(font['A'].0, [1, 2, 3, 4, 5, 6, 7, 8]);
    assert_eq!(font[200u8].0, [9; 8]);
    assert_eq!(font[66u8].0, [0; 8]);
    font['B'] = Glyph([0xff; 8]);
    font[7u8] = Glyph([0x0f; 8]);
    assert_eq!(font[66u8].0, [0xff; 8]);
    assert_eq!(font[7u8].0, [0x0f; 8]);
    assert_eq!(Font::blank()[65u8].0, [0; 8]);
}

#[test]
fn no_font_from_what_is_no_png() {
    assert!(Font::from_png(b"not a picture").is_none());
    assert!(Font::from_png(&[]).is_none());
}

/// A PNG image of the given size, every pixel of which has the alpha value
/// that `alpha` gives it.
fn png(width: u32, height: u32, alpha: impl Fn(u32, u32) -> u8) -> Vec<u8> {
    let picture = image::RgbaImage::from_fn(width, height, |x, y| image::Rgba([0, 0, 0, alpha(x, y)]));
    let mut bytes = std::io::Cursor::new(Vec::new());
    picture.write_to(&mut bytes, image::ImageFormat::Png).unwrap();
    bytes.into_inner()
}

#[test]
fn font_from_a_png_of_glyphs() {
    // 16 glyphs to a row, 16 rows; glyph n has its pixel (n % 8, n / 32) set.
    let bytes = png(128, 128, |x, y| {
        let n = (y / 8) * 16 + x / 8;
        if x % 8 == n % 8 && y % 8 == n / 32 {
            255
        } else {
            0
        }
    });
    let font = Font::from_png(&bytes).unwrap();
    for n in 0..=255u8 {
        let mut rows = [0u8; 8];
        rows[(n / 32) as usize] = 1 << (7 - n % 8);
        assert_eq!(font[n].0, rows, "glyph {}", n);
    }
}

#[test]
fn any_alpha_but_zero_is_foreground() {
    let bytes = png(2048, 8, |x, _| (x % 256) as u8);
    let font = Font::from_png(&bytes).unwrap();
    assert_eq!(font[0u8].0, [0b0111_1111; 8]);
    assert_eq!(font[1u8].0, [0xff; 8]);
    assert_eq!(font[32u8].0, [0b0111_1111; 8]);
}

#[test]
fn no_font_from_a_png_that_is_too_small() {
    assert!(Font::from_png(&png(7, 4000, |_, _| 255)).is_none());
    assert!(Font::from_png(&png(128, 127, |_, _| 255)).is_none());
    assert!(Font::from_png(&png(8, 2047, |_, _| 255)).is_none());
    assert!(Font::from_png(&png(8, 2048, |_, _| 255)).is_some());
    assert!(Font::from_png(&png(135, 128, |_, _| 255)).is_some());
}
