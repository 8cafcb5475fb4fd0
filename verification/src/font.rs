//! Fonts of 256 glyphs, 8x8 pixels each.

use vstd::prelude::*;
use core::ops::{Index, IndexMut};
use vstd::std_specs::convert::FromSpecImpl;
use image::{DynamicImage, GenericImageView, ImageFormat};

verus! {

/// A single symbol in a [`Font`], 8x8 pixels in size. Each byte is a row, top
/// row first; the low-order bit of a byte is the right edge.
#[derive(Copy, Clone, Debug)]
pub struct Glyph(pub [u8; 8]);

/// Whether bit `7 - x` of `row` is set: the pixel in column `x`, counted from
/// the left.
pub open spec fn bit_of(row: u8, x: int) -> bool
    recommends
        0 <= x < 8,
{
    row & (1u8 << ((7 - x) as u8)) != 0
}

impl Glyph {
    /// Whether the pixel in column `x` of row `y` belongs to the foreground.
    pub open spec fn pixel(&self, x: int, y: int) -> bool
        recommends
            0 <= x < 8,
            0 <= y < 8,
    {
        bit_of(self.0[y], x)
    }

    /// Starts a walk over the 64 pixels of the glyph, row by row from the
    /// top, each row from the left.
    pub fn into_iter(&self) -> (it: GlyphIterator<'_>)
        ensures
            it.glyph() == *self,
            it.position() == 0,
    {
        GlyphIterator(self, 0)
    }
}

impl Default for Glyph {
    /// Returns a `Glyph` that is entirely blank (when rendered, every pixel
    /// will be the background color).
    fn default() -> (glyph: Self)
        ensures
            forall|y: int| 0 <= y < 8 ==> glyph.0[y] == 0,
    {
        Self([0;8])
    }
}

impl From<[u8; 8]> for Glyph {
    /// Create a glyph from an 8x8 bitmap. Each byte is a row, low-order bit
    /// is the right edge.
    fn from(bytes: [u8; 8]) -> Glyph {
        Glyph(bytes)
    }
}

impl FromSpecImpl<[u8; 8]> for Glyph {
    open spec fn obeys_from_spec() -> bool {
        true
    }

    open spec fn from_spec(bytes: [u8; 8]) -> Glyph {
        Glyph(bytes)
    }
}

/// A walk over the pixels of a [`Glyph`].
pub struct GlyphIterator<'a>(&'a Glyph, usize);

impl<'a> GlyphIterator<'a> {
    /// The glyph being walked.
    pub closed spec fn glyph(&self) -> Glyph {
        *self.0
    }

    /// How many pixels have been handed out, at most 64.
    pub closed spec fn position(&self) -> int {
        if self.1 >= 64 {
            64
        } else {
            self.1 as int
        }
    }

    /// Hands out the next pixel as `(on, x, y)`: whether it belongs to the
    /// foreground, and its column and row, each from 0 to 7 with `(0, 0)` the
    /// top left. After 64 pixels the walk is over.
    pub fn next(&mut self) -> (r: Option<(bool, usize, usize)>)
        ensures
            final(self).glyph() == old(self).glyph(),
            old(self).position() < 64 ==> {
                &&& final(self).position() == old(self).position() + 1
                &&& r == Some(
                    (
                        old(self).glyph().pixel(old(self).position() % 8, old(self).position() / 8),
                        (old(self).position() % 8) as usize,
                        (old(self).position() / 8) as usize,
                    ),
                )
            },
            old(self).position() >= 64 ==> r.is_none() && final(self).position() == 64,
    {
        let n = self.1;
        if n >= 64 {
            None
        } else {
            self.1 = n + 1;
            let (x, y) = (n % 8, n / 8);
            let b = self.0.0[y];
            let color = (b & (1u8 << ((7 - x) as u8))) != 0;
            Some((color, x, y))
        }
    }
}

/// A set of 256 glyphs, 8x8 pixels in size, which can be rendered to a
/// `Layer` in a foreground and background color.
#[derive(Copy, Clone, Debug)]
pub struct Font {
    glyphs: [Glyph; 256],
}

impl Font {
    /// The glyphs of the font by their code.
    pub closed spec fn glyphs(&self) -> Seq<Glyph> {
        self.glyphs@
    }

    /// A font of the given glyphs.
    pub fn from_glyphs(glyphs: [Glyph; 256]) -> (font: Font)
        ensures
            font.glyphs() == glyphs@,
    {
        Font { glyphs }
    }

    /// A font whose glyphs are all blank.
    pub fn blank() -> (font: Font)
        ensures
            font.glyphs().len() == 256,
            forall|n: int, y: int| 0 <= n < 256 && 0 <= y < 8 ==> font.glyphs()[n].0[y] == 0,
    {
        Font { glyphs: [Glyph([0;8]);256] }
    }
}

impl Index<u8> for Font {
    type Output = Glyph;

    /// Fetch the `Glyph` corresponding to a given `u8` in this font.
    fn index(&self, index: u8) -> (glyph: &Glyph)
        ensures
            *glyph == self.glyphs()[index as int],
    {
        &self.glyphs[index as usize]
    }
}

impl vstd::std_specs::core::IndexSpecImpl<u8> for Font {
    open spec fn index_req(&self, index: &u8) -> bool {
        true
    }
}

impl Index<char> for Font {
    type Output = Glyph;

    /// Fetch the `Glyph` corresponding to a given `char` in this font. Fonts
    /// are only defined for ASCII chars.
    fn index(&self, index: char) -> (glyph: &Glyph)
        ensures
            *glyph == self.glyphs()[(index as u32) as int],
    {
        &self.glyphs[(index as u32) as usize]
    }
}

impl vstd::std_specs::core::IndexSpecImpl<char> for Font {
    open spec fn index_req(&self, index: &char) -> bool {
        (*index as u32) < 128
    }
}

/// `image::DynamicImage`, a decoded image. Nothing is known of what is
/// inside it but what `image_width` and `image_alpha` name.
#[verifier::external_type_specification]
#[verifier::external_body]
pub struct ExDynamicImage(DynamicImage);

/// The alpha values of the pixels of an image, row by row from the top.
pub uninterp spec fn image_alpha(image: DynamicImage) -> Seq<Seq<u8>>;

/// The width of an image in pixels.
pub uninterp spec fn image_width(image: DynamicImage) -> nat;

/// What the bytes of a PNG image decode to: the width of the image and the
/// alpha values of its pixels, row by row from the top. There is nothing
/// where the bytes are no PNG image.
pub uninterp spec fn png_pixels(data: Seq<u8>) -> Option<(nat, Seq<Seq<u8>>)>;

/// Decodes a PNG image with `image::load_from_memory_with_format`. There is
/// no image where the bytes are no PNG.
///
/// Trusted: the decoding is the work of the outside crate. Its source reads
/// nothing but the bytes it is given, so the same bytes always decode to the
/// same image, or always to none; what they decode to is only named here.
#[verifier::external_body]
fn decode_png(data: &[u8]) -> (image: Option<DynamicImage>)
    ensures
        match image {
            Some(decoded) => png_pixels(data@) == Some(
                (image_width(decoded), image_alpha(decoded)),
            ),
            None => png_pixels(data@).is_none(),
        },
{
    image::load_from_memory_with_format(data, ImageFormat::Png).ok()
}

/// The width and the height of an image, as
/// `image::GenericImageView::dimensions` gives them.
///
/// Trusted: an image has as many rows of pixels as it is high, and every
/// row is as long as the image is wide.
#[verifier::external_body]
fn image_size(image: &DynamicImage) -> (size: (u32, u32))
    ensures
        size.0 == image_width(*image),
        size.1 == image_alpha(*image).len(),
        forall|y: int| 0 <= y < size.1 ==> (#[trigger] image_alpha(*image)[y]).len() == size.0,
{
    image.dimensions()
}

/// The alpha value of the pixel at `(x, y)`, counted from the top left, as
/// `image::GenericImageView::get_pixel` gives it.
///
/// Trusted: the pixel is read by the outside crate, which refuses
/// coordinates outside the image.
#[verifier::external_body]
fn alpha_at(image: &DynamicImage, x: u32, y: u32) -> (alpha: u8)
    requires
        y < image_alpha(*image).len(),
        x < image_alpha(*image)[y as int].len(),
    ensures
        alpha == image_alpha(*image)[y as int][x as int],
{
    image.get_pixel(x, y).0[3]
}

/// Whether rows of pixels, `width` to a row, are enough to hold 256 glyphs
/// of 8 by 8 pixels, laid out left to right and top to bottom.
pub open spec fn rows_hold_font(width: nat, rows: Seq<Seq<u8>>) -> bool {
    let across = width as int / 8;
    across > 0 && (255int / across + 1) * 8 <= rows.len()
}

/// Whether the pixel in column `x` of row `y` of glyph `n` is set in rows
/// of alpha values that show glyphs: whether the alpha value there is not
/// zero.
pub open spec fn rows_pixel(width: nat, rows: Seq<Seq<u8>>, n: int, x: int, y: int) -> bool {
    let across = width as int / 8;
    rows[(n / across) * 8 + y][(n % across) * 8 + x] != 0
}

/// Whether the glyphs of `font` are those that the rows of alpha values
/// show.
pub open spec fn rows_read_as(width: nat, rows: Seq<Seq<u8>>, font: Font) -> bool {
    &&& font.glyphs().len() == 256
    &&& forall|n: int, x: int, y: int|
        0 <= n < 256 && 0 <= x < 8 && 0 <= y < 8 ==> #[trigger] font.glyphs()[n].pixel(x, y)
            == rows_pixel(width, rows, n, x, y)
}

/// Whether an image is large enough to hold 256 glyphs of 8 by 8 pixels,
/// laid out left to right and top to bottom.
pub open spec fn holds_font(image: DynamicImage) -> bool {
    rows_hold_font(image_width(image), image_alpha(image))
}

/// Whether the pixel in column `x` of row `y` of glyph `n` is set in an
/// image of glyphs: whether the image is not fully transparent there.
pub open spec fn glyph_pixel(image: DynamicImage, n: int, x: int, y: int) -> bool {
    rows_pixel(image_width(image), image_alpha(image), n, x, y)
}

/// Setting bit `k` of a byte sets that bit and leaves the others alone.
proof fn lemma_set_bit(b: u8, k: u8, j: u8)
    requires
        k < 8,
        j < 8,
    ensures
        ((b | (1u8 << k)) & (1u8 << j) != 0) <==> ((b & (1u8 << j)) != 0 || j == k),
{
    assert(((b | (1u8 << k)) & (1u8 << j) != 0) <==> ((b & (1u8 << j)) != 0 || j == k))
        by (bit_vector)
        requires
            k < 8,
            j < 8,
    ;
}

/// No bit of a zero byte is set.
proof fn lemma_zero_bits(j: u8)
    requires
        j < 8,
    ensures
        0u8 & (1u8 << j) == 0,
{
    assert(0u8 & (1u8 << j) == 0) by (bit_vector);
}

impl Glyph {
    /// Reads the glyph in column `x` and row `y` of an image of glyphs: a
    /// pixel of the glyph is set where the image is not fully transparent.
    fn from_image_slice(image: &DynamicImage, x: u32, y: u32) -> (glyph: Self)
        requires
            x * 8 + 8 <= image_width(*image) <= u32::MAX,
            y * 8 + 8 <= image_alpha(*image).len() <= u32::MAX,
            forall|r: int|
                0 <= r < image_alpha(*image).len() ==> (#[trigger] image_alpha(*image)[r]).len()
                    == image_width(*image),
        ensures
            forall|xo: int, yo: int|
                0 <= xo < 8 && 0 <= yo < 8 ==> #[trigger] glyph.pixel(xo, yo) == (image_alpha(
                    *image,
                )[y * 8 + yo][x * 8 + xo] != 0),
    {
        let mut bytes = [0u8;8];
        let mut yo: u32 = 0;
        while yo < 8
            invariant
                yo <= 8,
                x * 8 + 8 <= image_width(*image) <= u32::MAX,
                y * 8 + 8 <= image_alpha(*image).len() <= u32::MAX,
                forall|r: int|
                    0 <= r < image_alpha(*image).len() ==> (#[trigger] image_alpha(
                        *image,
                    )[r]).len() == image_width(*image),
                forall|r: int| yo <= r < 8 ==> bytes[r] == 0,
                forall|xo: int, r: int|
                    0 <= xo < 8 && 0 <= r < yo ==> #[trigger] bit_of(bytes[r], xo) == (image_alpha(
                        *image,
                    )[y * 8 + r][x * 8 + xo] != 0),
            decreases 8 - yo,
        {
            proof {
                assert forall|c: int| 0 <= c < 8 implies !#[trigger] bit_of(
                    bytes[yo as int],
                    c,
                ) by {
                    lemma_zero_bits((7 - c) as u8);
                }
            }
            let mut xo: u32 = 0;
            while xo < 8
                invariant
                    xo <= 8,
                    yo < 8,
                    x * 8 + 8 <= image_width(*image) <= u32::MAX,
                    y * 8 + 8 <= image_alpha(*image).len() <= u32::MAX,
                    forall|r: int|
                        0 <= r < image_alpha(*image).len() ==> (#[trigger] image_alpha(
                            *image,
                        )[r]).len() == image_width(*image),
                    forall|r: int| yo < r < 8 ==> bytes[r] == 0,
                    forall|c: int, r: int|
                        0 <= c < 8 && 0 <= r < yo ==> #[trigger] bit_of(bytes[r], c) == (
                        image_alpha(*image)[y * 8 + r][x * 8 + c] != 0),
                    forall|c: int|
                        0 <= c < xo ==> #[trigger] bit_of(bytes[yo as int], c) == (image_alpha(
                            *image,
                        )[y * 8 + yo][x * 8 + c] != 0),
                    forall|c: int| xo <= c < 8 ==> !#[trigger] bit_of(bytes[yo as int], c),
                decreases 8 - xo,
            {
                let ghost row = bytes[yo as int];
                if alpha_at(image, x * 8 + xo, y * 8 + yo) != 0 {
                    bytes[yo as usize] = bytes[yo as usize] | (1u8 << ((7 - xo) as u8));
                    proof {
                        assert forall|c: int| 0 <= c < 8 implies #[trigger] bit_of(
                            bytes[yo as int],
                            c,
                        ) == (bit_of(row, c) || c == xo) by {
                            lemma_set_bit(row, (7 - xo) as u8, (7 - c) as u8);
                        }
                    }
                }
                xo += 1;
            }
            yo += 1;
        }
        Self(bytes)
    }
}

impl Font {
    /// Takes the bytes of a PNG image of 256 8x8 glyphs and turns them into a
    /// `Font`. Glyphs are read left-to-right, top-to-bottom, but the actual
    /// dimensions of the image don't matter as long as it's large enough.
    /// The image must be a transparent PNG; any pixel with 0 for alpha is
    /// taken to be background, anything non-zero alpha is foreground.
    ///
    /// There is a font exactly where the bytes decode to an image that is
    /// large enough for 256 glyphs, and its glyphs are those that the
    /// decoded pixels show.
    pub fn from_png(image_data: &[u8]) -> (font: Option<Font>)
        ensures
            font.is_some() == (png_pixels(image_data@) matches Some(pixels) && rows_hold_font(
                pixels.0,
                pixels.1,
            )),
            font matches Some(f) ==> (png_pixels(image_data@) matches Some(pixels)
                && rows_read_as(pixels.0, pixels.1, f)),
    {
        match decode_png(image_data) {
            Some(image) => Font::from_image(&image),
            None => None,
        }
    }

    /// Reads a font from an image of 256 8x8 glyphs, laid out left-to-right
    /// and top-to-bottom, where the image is large enough to hold them.
    pub fn from_image(image: &DynamicImage) -> (font: Option<Font>)
        ensures
            font.is_some() == holds_font(*image),
            font matches Some(f) ==> reads_as(*image, f),
    {
        let (width, height) = image_size(image);
        let w = width / 8;
        if w == 0 || (255 / w + 1) as u64 * 8 > height as u64 {
            return None;
        }
        let mut glyphs = [Glyph([0;8]);256];
        let mut n: u32 = 0;
        while n < 256
            invariant
                n <= 256,
                w == width / 8,
                w > 0,
                (255int / (w as int) + 1) * 8 <= height,
                width == image_width(*image),
                height == image_alpha(*image).len(),
                forall|y: int|
                    0 <= y < height ==> (#[trigger] image_alpha(*image)[y]).len() == width,
                forall|m: int, x: int, y: int|
                    0 <= m < n && 0 <= x < 8 && 0 <= y < 8 ==> #[trigger] glyphs[m].pixel(x, y)
                        == glyph_pixel(*image, m, x, y),
            decreases 256 - n,
        {
            let (x, y) = (n % w, n / w);
            proof {
                let across = w as int;
                assert(n as int / across <= 255int / across) by (nonlinear_arith)
                    requires
                        0 <= n <= 255,
                        across > 0,
                ;
                assert((n as int / across) * 8 + 8 <= (255int / across + 1) * 8);
                assert((n as int % across) * 8 + 8 <= across * 8);
                assert(across * 8 <= width);
            }
            let glyph = Glyph::from_image_slice(image, x, y);
            glyphs[n as usize] = glyph;
            n += 1;
        }
        Some(Self { glyphs })
    }
}

/// Whether the glyphs of `font` are those that the image shows.
pub open spec fn reads_as(image: DynamicImage, font: Font) -> bool {
    rows_read_as(image_width(image), image_alpha(image), font)
}

impl IndexMut<u8> for Font {
    /// Fetch the `Glyph` corresponding to a given `u8` in this font, to
    /// change it.
    fn index_mut(&mut self, index: u8) -> (glyph: &mut Glyph)
        ensures
            *glyph == old(self).glyphs()[index as int],
            final(self).glyphs() == old(self).glyphs().update(index as int, *final(glyph)),
    {
        &mut self.glyphs[index as usize]
    }
}

impl IndexMut<char> for Font {
    /// Fetch the `Glyph` corresponding to a given `char` in this font, to
    /// change it. Fonts are only defined for ASCII chars.
    fn index_mut(&mut self, index: char) -> (glyph: &mut Glyph)
        requires
            (index as u32) < 128,
        ensures
            *glyph == old(self).glyphs()[(index as u32) as int],
            final(self).glyphs() == old(self).glyphs().update(
                (index as u32) as int,
                *final(glyph),
            ),
    {
        &mut self.glyphs[(index as u32) as usize]
    }
}

} // verus!
