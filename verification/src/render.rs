//! Laying glyphs onto a surface of RGBA pixels.

use vstd::prelude::*;
use crate::color::Color;
use crate::coords::{fits, lemma_linear_index_injective, Coord, PixelCoord};
use crate::layer::Layer;
use crate::font::Glyph;

verus! {

/// The number of rows of a surface of `len` bytes that is `width` pixels
/// wide, at four bytes to a pixel. Bytes that fill no whole row are left
/// over.
pub open spec fn rows_of(len: int, width: int) -> int {
    (len / 4) / width
}

/// Where the four bytes of the pixel at `(px, py)` start.
pub open spec fn pixel_start(width: int, px: int, py: int) -> int {
    (py * width + px) * 4
}

/// The four bytes of the pixel at `(px, py)`.
pub open spec fn pixel_bytes(surface: Seq<u8>, width: int, px: int, py: int) -> Seq<u8> {
    surface.subrange(pixel_start(width, px, py), pixel_start(width, px, py) + 4)
}

/// Whether the glyph drawn at `pc` with the given scale covers the pixel at
/// `(px, py)`.
pub open spec fn covers(pc: PixelCoord, scale: PixelCoord, px: int, py: int) -> bool {
    &&& scale.0 > 0
    &&& scale.1 > 0
    &&& pc.0 <= px < pc.0 + 8 * scale.0
    &&& pc.1 <= py < pc.1 + 8 * scale.1
}

/// The colour that a glyph lays on a pixel it covers: the foreground where
/// the glyph's own pixel is set, the background elsewhere.
pub open spec fn ink(
    glyph: Glyph,
    fg: Color,
    bg: Color,
    pc: PixelCoord,
    scale: PixelCoord,
    px: int,
    py: int,
) -> Color {
    if glyph.pixel((px - pc.0) / (scale.0 as int), (py - pc.1) / (scale.1 as int)) {
        fg
    } else {
        bg
    }
}

/// Whether `after` holds, for the pixel starting at `start`, a blend of
/// `color` into the bytes that `before` held there.
pub open spec fn blended<B: Fn(Color, &[u8]) -> [u8; 4]>(
    blend: &B,
    before: Seq<u8>,
    after: Seq<u8>,
    start: int,
    color: Color,
) -> bool {
    exists|under: &[u8], new: [u8; 4]|
        {
            &&& under@ == before.subrange(start, start + 4)
            &&& #[trigger] call_ensures(*blend, (color, under), new)
            &&& after.subrange(start, start + 4) == new@
        }
}

/// Whether the pixel at `(px, py)` is in `after` what drawing the glyph makes
/// of it: blended with the glyph's colour where the glyph covers it, and as
/// it was in `before` elsewhere.
pub open spec fn pixel_drawn<B: Fn(Color, &[u8]) -> [u8; 4]>(
    blend: &B,
    before: Seq<u8>,
    after: Seq<u8>,
    width: int,
    glyph: Glyph,
    fg: Color,
    bg: Color,
    pc: PixelCoord,
    scale: PixelCoord,
    px: int,
    py: int,
) -> bool {
    if covers(pc, scale, px, py) {
        blended(
            blend,
            before,
            after,
            pixel_start(width, px, py),
            ink(glyph, fg, bg, pc, scale, px, py),
        )
    } else {
        pixel_bytes(after, width, px, py) == pixel_bytes(before, width, px, py)
    }
}

/// Whether `after` is the surface `before` with the glyph drawn on it: every
/// pixel of the surface is as `pixel_drawn` says, and the bytes left over
/// behind the last row are untouched.
pub open spec fn blitted<B: Fn(Color, &[u8]) -> [u8; 4]>(
    blend: &B,
    before: Seq<u8>,
    after: Seq<u8>,
    width: int,
    glyph: Glyph,
    fg: Color,
    bg: Color,
    pc: PixelCoord,
    scale: PixelCoord,
) -> bool {
    &&& after.len() == before.len()
    &&& forall|px: int, py: int|
        0 <= px < width && 0 <= py < rows_of(before.len() as int, width) ==> #[trigger] pixel_drawn(
            blend,
            before,
            after,
            width,
            glyph,
            fg,
            bg,
            pc,
            scale,
            px,
            py,
        )
    &&& forall|i: int|
        4 * width * rows_of(before.len() as int, width) <= i < before.len() ==> after[i]
            == before[i]
}

/// Whether `blend` can be called with any colour on any four bytes.
pub open spec fn blends_pixels<B: Fn(Color, &[u8]) -> [u8; 4]>(blend: &B) -> bool {
    forall|color: Color, under: &[u8]|
        under@.len() == 4 ==> #[trigger] call_requires(*blend, (color, under))
}

/// Blends `color` into the pixel whose four bytes start at `start`.
pub fn blend_pixel<B: Fn(Color, &[u8]) -> [u8; 4]>(
    pixels: &mut [u8],
    start: usize,
    color: Color,
    blend: &B,
)
    requires
        start + 4 <= old(pixels)@.len(),
        blends_pixels(blend),
    ensures
        final(pixels)@.len() == old(pixels)@.len(),
        blended(blend, old(pixels)@, final(pixels)@, start as int, color),
        forall|i: int|
            0 <= i < old(pixels)@.len() && !(start <= i < start + 4) ==> final(pixels)@[i] == old(
                pixels,
            )@[i],
{
    let ghost before = pixels@;
    let len = pixels.len();
    let under = vstd::slice::slice_subrange(pixels, start, start + 4);
    let new = blend(color, under);
    proof {
        assert(under@ == before.subrange(start as int, start + 4));
        assert(call_ensures(*blend, (color, under), new));
    }
    let mut n: usize = 0;
    while n < 4
        invariant
            n <= 4,
            pixels@.len() == before.len(),
            start + 4 <= before.len(),
            before.len() == len,
            forall|i: int| 0 <= i < n ==> pixels@[start + i] == new@[i],
            forall|i: int|
                0 <= i < before.len() && !(start <= i < start + n) ==> pixels@[i] == before[i],
        decreases 4 - n,
    {
        pixels[start + n] = new[n];
        n += 1;
    }
    proof {
        assert(pixels@.subrange(start as int, start + 4) =~= new@);
    }
}

/// Whether the pixel at `(px, py)` has had its turn once the first `k` pixels
/// of the glyph are done, and of the next one the first `sy` rows of its
/// block and the first `sx` columns of the row after them.
pub open spec fn drawn_before(
    pc: PixelCoord,
    scale: PixelCoord,
    px: int,
    py: int,
    k: int,
    sy: int,
    sx: int,
) -> bool {
    let gx = (px - pc.0) / (scale.0 as int);
    let gy = (py - pc.1) / (scale.1 as int);
    let dx = (px - pc.0) % (scale.0 as int);
    let dy = (py - pc.1) % (scale.1 as int);
    let gi = gy * 8 + gx;
    covers(pc, scale, px, py) && (gi < k || (gi == k && (dy < sy || (dy == sy && dx < sx))))
}

/// Whether the pixel at `(px, py)` is in `now` what the drawing has made of
/// it so far.
pub open spec fn pixel_so_far<B: Fn(Color, &[u8]) -> [u8; 4]>(
    blend: &B,
    before: Seq<u8>,
    now: Seq<u8>,
    width: int,
    glyph: Glyph,
    fg: Color,
    bg: Color,
    pc: PixelCoord,
    scale: PixelCoord,
    px: int,
    py: int,
    k: int,
    sy: int,
    sx: int,
) -> bool {
    if drawn_before(pc, scale, px, py, k, sy, sx) {
        blended(
            blend,
            before,
            now,
            pixel_start(width, px, py),
            ink(glyph, fg, bg, pc, scale, px, py),
        )
    } else {
        pixel_bytes(now, width, px, py) == pixel_bytes(before, width, px, py)
    }
}

/// Whether every pixel of the surface is in `now` what the drawing has made
/// of it so far, and the bytes behind the last row are untouched.
pub open spec fn so_far<B: Fn(Color, &[u8]) -> [u8; 4]>(
    blend: &B,
    before: Seq<u8>,
    now: Seq<u8>,
    width: int,
    glyph: Glyph,
    fg: Color,
    bg: Color,
    pc: PixelCoord,
    scale: PixelCoord,
    k: int,
    sy: int,
    sx: int,
) -> bool {
    &&& now.len() == before.len()
    &&& forall|px: int, py: int|
        0 <= px < width && 0 <= py < rows_of(before.len() as int, width) ==> #[trigger] pixel_so_far(
            blend,
            before,
            now,
            width,
            glyph,
            fg,
            bg,
            pc,
            scale,
            px,
            py,
            k,
            sy,
            sx,
        )
    &&& forall|i: int|
        4 * width * rows_of(before.len() as int, width) <= i < before.len() ==> now[i] == before[i]
}

/// The bytes of a pixel of the surface lie inside the surface, before the
/// bytes that are left over.
pub proof fn lemma_pixel_fits(len: int, width: int, px: int, py: int)
    requires
        0 <= len,
        0 < width,
        0 <= px < width,
        0 <= py < rows_of(len, width),
    ensures
        0 <= pixel_start(width, px, py),
        pixel_start(width, px, py) + 4 <= 4 * width * rows_of(len, width),
        4 * width * rows_of(len, width) <= len,
{
    let rows = rows_of(len, width);
    let count = len / 4;
    assert(count * 4 <= len);
    vstd::arithmetic::div_mod::lemma_fundamental_div_mod(count, width);
    assert(width * rows <= count) by (nonlinear_arith)
        requires
            count == width * (count / width) + count % width,
            0 <= count % width,
            rows == count / width,
    ;
    assert(py * width + px + 1 <= width * rows) by (nonlinear_arith)
        requires
            0 <= px < width,
            0 <= py < rows,
    ;
    assert(py * width + px >= 0) by (nonlinear_arith)
        requires
            0 <= px,
            0 <= py,
            0 < width,
    ;
    assert(4 * width * rows == 4 * (width * rows)) by (nonlinear_arith);
}

/// Different pixels of the surface share no byte.
pub proof fn lemma_pixels_apart(width: int, px: int, py: int, qx: int, qy: int)
    requires
        0 <= px < width,
        0 <= qx < width,
        0 <= py,
        0 <= qy,
        px != qx || py != qy,
    ensures
        pixel_start(width, px, py) + 4 <= pixel_start(width, qx, qy) || pixel_start(width, qx, qy)
            + 4 <= pixel_start(width, px, py),
{
    assert(py * width + px != qy * width + qx) by (nonlinear_arith)
        requires
            0 <= px < width,
            0 <= qx < width,
            0 <= py,
            0 <= qy,
            px != qx || py != qy,
    ;
}

/// Offset `scale * o + s` from `base` lies in block `o`, at place `s` of the
/// block.
pub proof fn lemma_block(base: int, scale: int, o: int, s: int)
    requires
        0 < scale,
        0 <= o < 8,
        0 <= s < scale,
    ensures
        (base + scale * o + s - base) / scale == o,
        (base + scale * o + s - base) % scale == s,
        base <= base + scale * o + s < base + 8 * scale,
{
    assert(scale * o + s == o * scale + s) by (nonlinear_arith);
    vstd::arithmetic::div_mod::lemma_fundamental_div_mod_converse(scale * o + s, scale, o, s);
    assert(scale * o + s < 8 * scale) by (nonlinear_arith)
        requires
            0 < scale,
            0 <= o < 8,
            0 <= s < scale,
    ;
    assert(scale * o + s >= 0) by (nonlinear_arith)
        requires
            0 < scale,
            0 <= o,
            0 <= s,
    ;
}

/// A covered pixel lies in one of the 8 by 8 blocks of the glyph, and is
/// found again from its block and its place in the block.
pub proof fn lemma_covered(base: int, scale: int, p: int)
    requires
        0 < scale,
        base <= p < base + 8 * scale,
    ensures
        0 <= (p - base) / scale < 8,
        0 <= (p - base) % scale < scale,
        p == base + scale * ((p - base) / scale) + (p - base) % scale,
{
    vstd::arithmetic::div_mod::lemma_fundamental_div_mod(p - base, scale);
    let q = (p - base) / scale;
    let r = (p - base) % scale;
    assert(0 <= q < 8) by (nonlinear_arith)
        requires
            p - base == scale * q + r,
            0 <= r < scale,
            0 <= p - base < 8 * scale,
            0 < scale,
    ;
}

/// One step of drawing a glyph: the pixel whose turn it is, `(px, py)`, has
/// been blended where it lies on the surface, and nothing else has changed.
pub proof fn lemma_blit_step<B: Fn(Color, &[u8]) -> [u8; 4]>(
    blend: &B,
    before: Seq<u8>,
    mid: Seq<u8>,
    now: Seq<u8>,
    width: int,
    glyph: Glyph,
    fg: Color,
    bg: Color,
    pc: PixelCoord,
    scale: PixelCoord,
    xo: int,
    yo: int,
    sy: int,
    sx: int,
    color: Color,
)
    requires
        0 < width,
        0 < scale.0,
        0 < scale.1,
        0 <= xo < 8,
        0 <= yo < 8,
        0 <= sx < scale.0,
        0 <= sy < scale.1,
        color == (if glyph.pixel(xo, yo) {
            fg
        } else {
            bg
        }),
        so_far(blend, before, mid, width, glyph, fg, bg, pc, scale, yo * 8 + xo, sy, sx),
        ({
            let px = pc.0 + scale.0 * xo + sx;
            let py = pc.1 + scale.1 * yo + sy;
            if 0 <= px < width && 0 <= py < rows_of(before.len() as int, width) {
                &&& now.len() == mid.len()
                &&& blended(blend, mid, now, pixel_start(width, px, py), color)
                &&& forall|i: int|
                    0 <= i < mid.len() && !(pixel_start(width, px, py) <= i < pixel_start(
                        width,
                        px,
                        py,
                    ) + 4) ==> now[i] == mid[i]
            } else {
                now == mid
            }
        }),
    ensures
        so_far(blend, before, now, width, glyph, fg, bg, pc, scale, yo * 8 + xo, sy, sx + 1),
{
    let k = yo * 8 + xo;
    let px = pc.0 + scale.0 * xo + sx;
    let py = pc.1 + scale.1 * yo + sy;
    let rows = rows_of(before.len() as int, width);
    let hit = 0 <= px < width && 0 <= py < rows;
    lemma_block(pc.0 as int, scale.0 as int, xo, sx);
    lemma_block(pc.1 as int, scale.1 as int, yo, sy);
    assert forall|qx: int, qy: int| 0 <= qx < width && 0 <= qy < rows implies #[trigger] pixel_so_far(
        blend,
        before,
        now,
        width,
        glyph,
        fg,
        bg,
        pc,
        scale,
        qx,
        qy,
        k,
        sy,
        sx + 1,
    ) by {
        assert(pixel_so_far(blend, before, mid, width, glyph, fg, bg, pc, scale, qx, qy, k, sy, sx));
        lemma_pixel_fits(before.len() as int, width, qx, qy);
        let start = pixel_start(width, qx, qy);
        if qx == px && qy == py {
            assert(!drawn_before(pc, scale, qx, qy, k, sy, sx));
            assert(drawn_before(pc, scale, qx, qy, k, sy, sx + 1));
            assert(mid.subrange(start, start + 4) == before.subrange(start, start + 4));
            assert(ink(glyph, fg, bg, pc, scale, qx, qy) == color);
            let (under, new) = choose|under: &[u8], new: [u8; 4]|
                {
                    &&& under@ == mid.subrange(start, start + 4)
                    &&& #[trigger] call_ensures(*blend, (color, under), new)
                    &&& now.subrange(start, start + 4) == new@
                };
            assert(call_ensures(*blend, (color, under), new));
        } else {
            if hit {
                lemma_pixels_apart(width, qx, qy, px, py);
            }
            assert(now.subrange(start, start + 4) =~= mid.subrange(start, start + 4));
            if covers(pc, scale, qx, qy) {
                lemma_covered(pc.0 as int, scale.0 as int, qx);
                lemma_covered(pc.1 as int, scale.1 as int, qy);
            }
            assert(drawn_before(pc, scale, qx, qy, k, sy, sx + 1) == drawn_before(
                pc,
                scale,
                qx,
                qy,
                k,
                sy,
                sx,
            ));
            if drawn_before(pc, scale, qx, qy, k, sy, sx) {
                let c = ink(glyph, fg, bg, pc, scale, qx, qy);
                let (under, new) = choose|under: &[u8], new: [u8; 4]|
                    {
                        &&& under@ == before.subrange(start, start + 4)
                        &&& #[trigger] call_ensures(*blend, (c, under), new)
                        &&& mid.subrange(start, start + 4) == new@
                    };
                assert(call_ensures(*blend, (c, under), new));
            }
        }
    }
    assert forall|i: int| 4 * width * rows <= i < before.len() implies now[i] == before[i] by {
        if hit {
            lemma_pixel_fits(before.len() as int, width, px, py);
        }
    }
}

impl<'a> Layer<'a> {
    /// Draws one glyph onto a surface of RGBA pixels that is `width` pixels
    /// wide, with its top left corner at `pc`. Every pixel of the glyph
    /// becomes a block of `scale` pixels, and each pixel of the surface
    /// that the glyph covers is blended, by `blend`, with the foreground
    /// colour where the glyph is set and with the background colour where
    /// it is not. What lies outside the surface is left out.
    pub fn blit<B: Fn(Color, &[u8]) -> [u8; 4]>(
        &self,
        pixels: &mut [u8],
        width: usize,
        glyph: Glyph,
        fg: Color,
        bg: Color,
        pc: PixelCoord,
        scale: PixelCoord,
        blend: &B,
    )
        requires
            0 < width <= i32::MAX,
            rows_of(old(pixels)@.len() as int, width as int) <= i32::MAX,
            fits(scale.0 * 8),
            fits(scale.1 * 8),
            fits(pc.0 + scale.0 * 8),
            fits(pc.1 + scale.1 * 8),
            blends_pixels(blend),
        ensures
            blitted(
                blend,
                old(pixels)@,
                final(pixels)@,
                width as int,
                glyph,
                fg,
                bg,
                pc,
                scale,
            ),
    {
        let PixelCoord(x, y) = pc;
        let PixelCoord(xscale, yscale) = scale;
        let ghost before = pixels@;
        let len = pixels.len();
        let height = (len / 4) / width;  // Height of the pixel buffer in pixels
        let ghost w = width as int;
        proof {
            assert forall|px: int, py: int| 0 <= px < w && 0 <= py < height implies #[trigger] pixel_so_far(
                blend,
                before,
                before,
                w,
                glyph,
                fg,
                bg,
                pc,
                scale,
                px,
                py,
                0,
                0,
                0,
            ) by {
                if covers(pc, scale, px, py) {
                    lemma_covered(pc.0 as int, scale.0 as int, px);
                    lemma_covered(pc.1 as int, scale.1 as int, py);
                }
            }
        }
        if xscale > 0 && yscale > 0 && !(x >= width as i32 || y >= height as i32) {
            let (right, bottom) = (x + xscale * 8, y + yscale * 8);
            if !(right < 0 || bottom < 0) {
                let mut it = glyph.into_iter();
                loop
                    invariant_except_break
                        it.glyph() == glyph,
                        0 <= it.position() <= 64,
                    invariant
                        0 < width <= i32::MAX,
                        w == width,
                        height == rows_of(before.len() as int, w),
                        height <= i32::MAX,
                        pc == PixelCoord(x, y),
                        scale == PixelCoord(xscale, yscale),
                        xscale > 0,
                        yscale > 0,
                        fits(xscale * 8),
                        fits(yscale * 8),
                        fits(x + xscale * 8),
                        fits(y + yscale * 8),
                        before.len() == len,
                        blends_pixels(blend),
                        so_far(
                            blend,
                            before,
                            pixels@,
                            w,
                            glyph,
                            fg,
                            bg,
                            pc,
                            scale,
                            it.position(),
                            0,
                            0,
                        ),
                    ensures
                        it.position() == 64,
                    decreases 64 - it.position(),
                {
                    let ghost k = it.position();
                    match it.next() {
                        Some((color, xo, yo)) => {
                            let ink = if color {
                                fg
                            } else {
                                bg
                            };
                            // Scaling is like drawing a tiny rectangle instead
                            // of a single pixel, for each dot:
                            let mut sy: i32 = 0;
                            while sy < yscale
                                invariant
                                    0 <= sy <= yscale,
                                    0 < width <= i32::MAX,
                                    w == width,
                                    height == rows_of(before.len() as int, w),
                                    height <= i32::MAX,
                                    pc == PixelCoord(x, y),
                                    scale == PixelCoord(xscale, yscale),
                                    xscale > 0,
                                    yscale > 0,
                                    fits(xscale * 8),
                                    fits(yscale * 8),
                                    fits(x + xscale * 8),
                                    fits(y + yscale * 8),
                                    before.len() == len,
                                    blends_pixels(blend),
                                    0 <= k < 64,
                                    xo == k % 8,
                                    yo == k / 8,
                                    ink == (if glyph.pixel(xo as int, yo as int) {
                                        fg
                                    } else {
                                        bg
                                    }),
                                    so_far(
                                        blend,
                                        before,
                                        pixels@,
                                        w,
                                        glyph,
                                        fg,
                                        bg,
                                        pc,
                                        scale,
                                        k,
                                        sy as int,
                                        0,
                                    ),
                                decreases yscale - sy,
                            {
                                let mut sx: i32 = 0;
                                while sx < xscale
                                    invariant
                                        0 <= sx <= xscale,
                                        0 <= sy < yscale,
                                        0 < width <= i32::MAX,
                                        w == width,
                                        height == rows_of(before.len() as int, w),
                                        height <= i32::MAX,
                                        pc == PixelCoord(x, y),
                                        scale == PixelCoord(xscale, yscale),
                                        xscale > 0,
                                        yscale > 0,
                                        fits(xscale * 8),
                                        fits(yscale * 8),
                                        fits(x + xscale * 8),
                                        fits(y + yscale * 8),
                                        before.len() == len,
                                        blends_pixels(blend),
                                        0 <= k < 64,
                                        xo == k % 8,
                                        yo == k / 8,
                                        ink == (if glyph.pixel(xo as int, yo as int) {
                                            fg
                                        } else {
                                            bg
                                        }),
                                        so_far(
                                            blend,
                                            before,
                                            pixels@,
                                            w,
                                            glyph,
                                            fg,
                                            bg,
                                            pc,
                                            scale,
                                            k,
                                            sy as int,
                                            sx as int,
                                        ),
                                    decreases xscale - sx,
                                {
                                    proof {
                                        lemma_block(x as int, xscale as int, xo as int, sx as int);
                                        lemma_block(y as int, yscale as int, yo as int, sy as int);
                                        assert(xscale * (xo as i32) >= 0 && xscale * (xo as i32)
                                            <= xscale * 8) by (nonlinear_arith)
                                            requires
                                                xscale > 0,
                                                0 <= xo < 8,
                                        ;
                                        assert(yscale * (yo as i32) >= 0 && yscale * (yo as i32)
                                            <= yscale * 8) by (nonlinear_arith)
                                            requires
                                                yscale > 0,
                                                0 <= yo < 8,
                                        ;
                                    }
                                    // Pixel coords of the current pixel:
                                    let (px, py) = (
                                        x + xscale * xo as i32 + sx,
                                        y + yscale * yo as i32 + sy,
                                    );
                                    let ghost mid = pixels@;
                                    // If in bounds:
                                    if px < width as i32 && py < height as i32 && px >= 0 && py
                                        >= 0 {
                                        let (px, py) = (px as usize, py as usize);
                                        proof {
                                            lemma_pixel_fits(
                                                before.len() as int,
                                                w,
                                                px as int,
                                                py as int,
                                            );
                                            assert(0 <= py * width) by (nonlinear_arith)
                                                requires
                                                    0 <= py,
                                                    0 < width,
                                            ;
                                            assert(px * 4 + py * width * 4 == (py * width + px)
                                                * 4) by (nonlinear_arith);
                                            assert(py * width * 4 <= (py * width + px) * 4);
                                            assert(py * width <= (py * width + px) * 4);
                                        }
                                        // byte addr of start of pixel
                                        let start = px * 4 + py * width * 4;
                                        blend_pixel(pixels, start, ink, blend);
                                    }
                                    proof {
                                        assert(k == yo * 8 + xo);
                                        lemma_blit_step(
                                            blend,
                                            before,
                                            mid,
                                            pixels@,
                                            w,
                                            glyph,
                                            fg,
                                            bg,
                                            pc,
                                            scale,
                                            xo as int,
                                            yo as int,
                                            sy as int,
                                            sx as int,
                                            ink,
                                        );
                                    }
                                    sx += 1;
                                }
                                proof {
                                    lemma_row_done(
                                        blend,
                                        before,
                                        pixels@,
                                        w,
                                        glyph,
                                        fg,
                                        bg,
                                        pc,
                                        scale,
                                        k,
                                        sy as int,
                                    );
                                }
                                sy += 1;
                            }
                            proof {
                                lemma_block_done(
                                    blend,
                                    before,
                                    pixels@,
                                    w,
                                    glyph,
                                    fg,
                                    bg,
                                    pc,
                                    scale,
                                    k,
                                );
                            }
                        },
                        None => {
                            break ;
                        },
                    }
                }
            }
        }
        proof {
            lemma_all_done(blend, before, pixels@, w, glyph, fg, bg, pc, scale);
        }
    }
}

/// A finished row of a block is the start of the next row.
pub proof fn lemma_row_done<B: Fn(Color, &[u8]) -> [u8; 4]>(
    blend: &B,
    before: Seq<u8>,
    now: Seq<u8>,
    width: int,
    glyph: Glyph,
    fg: Color,
    bg: Color,
    pc: PixelCoord,
    scale: PixelCoord,
    k: int,
    sy: int,
)
    requires
        0 < scale.0,
        0 < scale.1,
        so_far(blend, before, now, width, glyph, fg, bg, pc, scale, k, sy, scale.0 as int),
    ensures
        so_far(blend, before, now, width, glyph, fg, bg, pc, scale, k, sy + 1, 0),
{
    assert forall|px: int, py: int|
        0 <= px < width && 0 <= py < rows_of(before.len() as int, width) implies #[trigger] pixel_so_far(
        blend,
        before,
        now,
        width,
        glyph,
        fg,
        bg,
        pc,
        scale,
        px,
        py,
        k,
        sy + 1,
        0,
    ) by {
        assert(pixel_so_far(
            blend,
            before,
            now,
            width,
            glyph,
            fg,
            bg,
            pc,
            scale,
            px,
            py,
            k,
            sy,
            scale.0 as int,
        ));
        if covers(pc, scale, px, py) {
            lemma_covered(pc.0 as int, scale.0 as int, px);
            lemma_covered(pc.1 as int, scale.1 as int, py);
        }
    }
}

/// A finished block is the start of the next pixel of the glyph.
pub proof fn lemma_block_done<B: Fn(Color, &[u8]) -> [u8; 4]>(
    blend: &B,
    before: Seq<u8>,
    now: Seq<u8>,
    width: int,
    glyph: Glyph,
    fg: Color,
    bg: Color,
    pc: PixelCoord,
    scale: PixelCoord,
    k: int,
)
    requires
        0 < scale.0,
        0 < scale.1,
        so_far(blend, before, now, width, glyph, fg, bg, pc, scale, k, scale.1 as int, 0),
    ensures
        so_far(blend, before, now, width, glyph, fg, bg, pc, scale, k + 1, 0, 0),
{
    assert forall|px: int, py: int|
        0 <= px < width && 0 <= py < rows_of(before.len() as int, width) implies #[trigger] pixel_so_far(
        blend,
        before,
        now,
        width,
        glyph,
        fg,
        bg,
        pc,
        scale,
        px,
        py,
        k + 1,
        0,
        0,
    ) by {
        assert(pixel_so_far(
            blend,
            before,
            now,
            width,
            glyph,
            fg,
            bg,
            pc,
            scale,
            px,
            py,
            k,
            scale.1 as int,
            0,
        ));
        if covers(pc, scale, px, py) {
            lemma_covered(pc.0 as int, scale.0 as int, px);
            lemma_covered(pc.1 as int, scale.1 as int, py);
        }
    }
}

/// Once every pixel of the glyph has had its turn, or where the glyph
/// covers no pixel of the surface and nothing was done, the glyph is drawn.
pub proof fn lemma_all_done<B: Fn(Color, &[u8]) -> [u8; 4]>(
    blend: &B,
    before: Seq<u8>,
    now: Seq<u8>,
    width: int,
    glyph: Glyph,
    fg: Color,
    bg: Color,
    pc: PixelCoord,
    scale: PixelCoord,
)
    requires
        0 < width,
        so_far(blend, before, now, width, glyph, fg, bg, pc, scale, 64, 0, 0) || (now == before
            && forall|px: int, py: int|
            0 <= px < width && 0 <= py < rows_of(before.len() as int, width) ==> !covers(
                pc,
                scale,
                px,
                py,
            )),
    ensures
        blitted(blend, before, now, width, glyph, fg, bg, pc, scale),
{
    assert forall|px: int, py: int|
        0 <= px < width && 0 <= py < rows_of(before.len() as int, width) implies #[trigger] pixel_drawn(
        blend,
        before,
        now,
        width,
        glyph,
        fg,
        bg,
        pc,
        scale,
        px,
        py,
    ) by {
        if so_far(blend, before, now, width, glyph, fg, bg, pc, scale, 64, 0, 0) {
            assert(pixel_so_far(
                blend,
                before,
                now,
                width,
                glyph,
                fg,
                bg,
                pc,
                scale,
                px,
                py,
                64,
                0,
                0,
            ));
            if covers(pc, scale, px, py) {
                lemma_covered(pc.0 as int, scale.0 as int, px);
                lemma_covered(pc.1 as int, scale.1 as int, py);
            }
        }
    }
}

} // verus!
