//! The pixel arithmetic of the interface overlays: translucent tints for
//! boxes, alpha blending of glyphs, and the status label. Where the boxes
//! stand on screen is a floating-point layout computed by the caller.

use vstd::prelude::*;

verus! {

/// A channel mixed with a tint colour: `keep` percent of the channel and
/// the rest of the tint, rounded down.
pub open spec fn mix(p: u8, keep: int, tint: int) -> int {
    (p * keep + tint * (100 - keep)) / 100
}

/// The dark translucent tint of the dialogue box and of unselected menu
/// entries: 30 percent of the pixel over the colour (15, 18, 25); alpha
/// is kept.
pub open spec fn dimmed(px: Seq<u8>) -> Seq<u8> {
    seq![mix(px[0], 30, 15) as u8, mix(px[1], 30, 18) as u8, mix(px[2], 30, 25) as u8, px[3]]
}

/// The golden highlight of the selected menu entry: 20 percent of the
/// pixel over the colour (200, 160, 50); alpha is kept.
pub open spec fn highlighted(px: Seq<u8>) -> Seq<u8> {
    seq![mix(px[0], 20, 200) as u8, mix(px[1], 20, 160) as u8, mix(px[2], 20, 50) as u8, px[3]]
}

/// Tints a pixel with the dark box tint.
pub fn dim_pixel(px: [u8; 4]) -> (r: [u8; 4])
    ensures
        r@ == dimmed(px@),
{
    let r0 = ((px[0] as u32 * 30 + 15 * 70) / 100) as u8;
    let g0 = ((px[1] as u32 * 30 + 18 * 70) / 100) as u8;
    let b0 = ((px[2] as u32 * 30 + 25 * 70) / 100) as u8;
    let r = [r0, g0, b0, px[3]];
    assert(r@ =~= seq![r0, g0, b0, px@[3]]);
    r
}

/// Tints a pixel with the golden highlight.
pub fn highlight_pixel(px: [u8; 4]) -> (r: [u8; 4])
    ensures
        r@ == highlighted(px@),
{
    let r0 = ((px[0] as u32 * 20 + 200 * 80) / 100) as u8;
    let g0 = ((px[1] as u32 * 20 + 160 * 80) / 100) as u8;
    let b0 = ((px[2] as u32 * 20 + 50 * 80) / 100) as u8;
    let r = [r0, g0, b0, px[3]];
    assert(r@ =~= seq![r0, g0, b0, px@[3]]);
    r
}

/// The opacity of a glyph pixel: the colour's alpha scaled by coverage.
pub open spec fn glyph_alpha(color_alpha: u8, coverage: u8) -> int {
    (color_alpha * coverage) / 255
}

/// A glyph pixel of coverage `coverage` in `color` blended over `base`:
/// each colour channel is the weighted mean by the glyph's opacity, and
/// the alpha is the glyph's opacity plus what shows through, at most 255.
pub open spec fn blended(base: Seq<u8>, color: Seq<u8>, coverage: u8) -> Seq<u8> {
    let a = glyph_alpha(color[3], coverage);
    seq![
        ((color[0] * a + base[0] * (255 - a)) / 255) as u8,
        ((color[1] * a + base[1] * (255 - a)) / 255) as u8,
        ((color[2] * a + base[2] * (255 - a)) / 255) as u8,
        (if a + (base[3] * (255 - a)) / 255 > 255 {
            255
        } else {
            a + (base[3] * (255 - a)) / 255
        }) as u8,
    ]
}

/// Blends a glyph pixel over a frame pixel.
pub fn blend_glyph(base: [u8; 4], color: [u8; 4], coverage: u8) -> (r: [u8; 4])
    ensures
        r@ == blended(base@, color@, coverage),
{
    proof {
        assert(color[3] as u32 * coverage as u32 <= 255 * 255) by (nonlinear_arith)
            requires
                color[3] <= 255,
                coverage <= 255,
        ;
    }
    let src_a = (color[3] as u32 * coverage as u32) / 255;
    let inv_a = 255 - src_a;
    proof {
        assert(color[0] as u32 * src_a + base[0] as u32 * inv_a <= 255 * 255) by (nonlinear_arith)
            requires
                color[0] <= 255,
                base[0] <= 255,
                src_a + inv_a == 255,
        ;
        assert(color[1] as u32 * src_a + base[1] as u32 * inv_a <= 255 * 255) by (nonlinear_arith)
            requires
                color[1] <= 255,
                base[1] <= 255,
                src_a + inv_a == 255,
        ;
        assert(color[2] as u32 * src_a + base[2] as u32 * inv_a <= 255 * 255) by (nonlinear_arith)
            requires
                color[2] <= 255,
                base[2] <= 255,
                src_a + inv_a == 255,
        ;
        assert(base[3] as u32 * inv_a <= 255 * 255) by (nonlinear_arith)
            requires
                base[3] <= 255,
                inv_a <= 255,
        ;
    }
    let r0 = (color[0] as u32 * src_a + base[0] as u32 * inv_a) / 255;
    let g0 = (color[1] as u32 * src_a + base[1] as u32 * inv_a) / 255;
    let b0 = (color[2] as u32 * src_a + base[2] as u32 * inv_a) / 255;
    let a0 = src_a + (base[3] as u32 * inv_a) / 255;
    let a1 = if a0 > 255 { 255 } else { a0 };
    let r = [r0 as u8, g0 as u8, b0 as u8, a1 as u8];
    assert(r@ =~= seq![r0 as u8, g0 as u8, b0 as u8, a1 as u8]);
    r
}

/// Where a glyph does not cover a pixel, blending leaves the pixel as it
/// was.
pub proof fn law_uncovered_pixel_unchanged(base: [u8; 4], color: [u8; 4])
    ensures
        blended(base@, color@, 0) == base@,
{
    let b = base@;
    assert(glyph_alpha(color@[3], 0) == 0);
    assert((b[0] * 255) / 255 == b[0]);
    assert((b[1] * 255) / 255 == b[1]);
    assert((b[2] * 255) / 255 == b[2]);
    assert((b[3] * 255) / 255 == b[3]);
    assert(blended(b, color@, 0) =~= b);
}

/// Where an opaque glyph fully covers a pixel, blending gives the glyph's
/// colour.
pub proof fn law_covered_pixel_takes_color(base: [u8; 4], color: [u8; 4])
    requires
        color[3] == 255,
    ensures
        blended(base@, color@, 255) == color@,
{
    let c = color@;
    assert(glyph_alpha(c[3], 255) == 255) by (nonlinear_arith)
        requires
            c[3] == 255,
    ;
    assert((c[0] * 255 + base@[0] * 0) / 255 == c[0]);
    assert((c[1] * 255 + base@[1] * 0) / 255 == c[1]);
    assert((c[2] * 255 + base@[2] * 0) / 255 == c[2]);
    assert(blended(base@, c, 255) =~= c);
}

/// The status label: skipping outranks auto-advance; neither shows none.
pub fn hud_label(auto_mode: bool, skip_mode: bool) -> (r: Option<&'static str>)
    ensures
        match r {
            Some(s) => (skip_mode && s@ == ">> SKIP >>"@) || (!skip_mode && auto_mode && s@
                == ">> AUTO >>"@),
            None => !auto_mode && !skip_mode,
        },
{
    if !auto_mode && !skip_mode {
        None
    } else if skip_mode {
        Some(">> SKIP >>")
    } else {
        Some(">> AUTO >>")
    }
}

/// What a rectangle does to its pixels: the dark tint, the highlight, or a
/// flat colour.
#[derive(Debug, Clone, Copy)]
pub enum Paint {
    Dim,
    Highlight,
    Fill([u8; 4]),
}

/// A pixel after painting.
pub open spec fn painted(paint: Paint, px: Seq<u8>) -> Seq<u8> {
    match paint {
        Paint::Dim => dimmed(px),
        Paint::Highlight => highlighted(px),
        Paint::Fill(c) => c@,
    }
}

/// The four bytes of pixel `i` of an RGBA frame.
pub open spec fn pixel_at(s: Seq<u8>, i: int) -> Seq<u8> {
    s.subrange(4 * i, 4 * i + 4)
}

/// Whether column `x` and row `y` lie in the rectangle of corner (`x0`,
/// `y0`), width `w` and height `h`.
pub open spec fn in_rect(x: int, y: int, x0: int, y0: int, w: int, h: int) -> bool {
    x0 <= x < x0 + w && y0 <= y < y0 + h
}

/// Paints the four bytes from `k` on.
fn paint_one(pixels: &mut Vec<u8>, k: usize, paint: Paint)
    requires
        k + 4 <= old(pixels)@.len(),
    ensures
        final(pixels)@.len() == old(pixels)@.len(),
        final(pixels)@.subrange(k as int, k + 4) == painted(paint, old(pixels)@.subrange(k as int, k + 4)),
        forall|j: int|
            0 <= j < old(pixels)@.len() && (j < k || j >= k + 4) ==> #[trigger] final(pixels)@[j]
                == old(pixels)@[j],
{
    let len = pixels.len();
    assert(k + 4 <= len);
    let px = [pixels[k], pixels[k + 1], pixels[k + 2], pixels[k + 3]];
    assert(px@ =~= old(pixels)@.subrange(k as int, k + 4));
    let q = match paint {
        Paint::Dim => dim_pixel(px),
        Paint::Highlight => highlight_pixel(px),
        Paint::Fill(c) => c,
    };
    pixels.set(k, q[0]);
    pixels.set(k + 1, q[1]);
    pixels.set(k + 2, q[2]);
    pixels.set(k + 3, q[3]);
    assert(pixels@.subrange(k as int, k + 4) =~= q@);
}

/// Paints the part of a rectangle that lies on an RGBA frame of `width` by
/// `height` pixels, row by row; every other pixel is left as it was.
pub fn paint_rect(
    pixels: &mut Vec<u8>,
    width: u32,
    height: u32,
    x0: u32,
    y0: u32,
    w: u32,
    h: u32,
    paint: Paint,
)
    requires
        old(pixels)@.len() == width * height * 4,
    ensures
        final(pixels)@.len() == old(pixels)@.len(),
        forall|i: int|
            0 <= i < width * height ==> #[trigger] pixel_at(final(pixels)@, i) == if in_rect(
                i % (width as int),
                i / (width as int),
                x0 as int,
                y0 as int,
                w as int,
                h as int,
            ) {
                painted(paint, pixel_at(old(pixels)@, i))
            } else {
                pixel_at(old(pixels)@, i)
            },
{
    let ghost orig = pixels@;
    let ghost n = width * height;
    let ghost wd = width as int;
    let x_end: u32 = if (x0 as u64) + (w as u64) < width as u64 {
        x0 + w
    } else {
        width
    };
    let y_end: u32 = if (y0 as u64) + (h as u64) < height as u64 {
        y0 + h
    } else {
        height
    };
    let mut y = y0;
    while y < y_end
        invariant
            pixels@.len() == orig.len(),
            orig.len() == width * height * 4,
            n == width * height,
            wd == width as int,
            y0 <= y,
            y_end <= height,
            y_end as int == if y0 + h < height { y0 + h } else { height as int },
            x_end as int == if x0 + w < width { x0 + w } else { width as int },
            x_end <= width,
            forall|i: int|
                0 <= i < n ==> #[trigger] pixel_at(pixels@, i) == if in_rect(i % wd, i / wd, x0 as int, y0 as int, w as int, h as int)
                    && i / wd < y {
                    painted(paint, pixel_at(orig, i))
                } else {
                    pixel_at(orig, i)
                },
        decreases y_end - y,
    {
        let mut x = x0;
        while x < x_end
            invariant
                pixels@.len() == orig.len(),
                orig.len() == width * height * 4,
                n == width * height,
                wd == width as int,
                y0 <= y < y_end <= height,
                x0 <= x,
                x_end <= width,
                y_end as int == if y0 + h < height { y0 + h } else { height as int },
                x_end as int == if x0 + w < width { x0 + w } else { width as int },
                forall|i: int|
                    0 <= i < n ==> #[trigger] pixel_at(pixels@, i) == if in_rect(i % wd, i / wd, x0 as int, y0 as int, w as int, h as int)
                        && (i / wd < y || (i / wd == y && i % wd < x)) {
                        painted(paint, pixel_at(orig, i))
                    } else {
                        pixel_at(orig, i)
                    },
            decreases x_end - x,
        {
            let ghost i0 = y * wd + x;
            proof {
                assert(y * wd + x < height * wd) by (nonlinear_arith)
                    requires
                        y < height,
                        x < wd,
                        0 <= x,
                ;
                assert(height * wd == n) by (nonlinear_arith)
                    requires
                        wd == width,
                        n == width * height,
                ;
                vstd::arithmetic::div_mod::lemma_fundamental_div_mod_converse(i0, wd, y as int, x as int);
            }
            let len = pixels.len();
            assert(4 * i0 + 4 <= len);
            assert((y as int) * (width as int) == y * wd);
            let k = ((y as usize) * (width as usize) + (x as usize)) * 4;
            assert(k == 4 * i0);
            let ghost before = pixels@;
            paint_one(pixels, k, paint);
            proof {
                assert forall|i: int| 0 <= i < n implies #[trigger] pixel_at(pixels@, i) == if in_rect(i % wd, i / wd, x0 as int, y0 as int, w as int, h as int)
                    && (i / wd < y || (i / wd == y && i % wd < x + 1)) {
                    painted(paint, pixel_at(orig, i))
                } else {
                    pixel_at(orig, i)
                } by {
                    vstd::arithmetic::div_mod::lemma_fundamental_div_mod(i, wd);
                    assert(pixel_at(before, i) == if in_rect(i % wd, i / wd, x0 as int, y0 as int, w as int, h as int)
                        && (i / wd < y || (i / wd == y && i % wd < x)) {
                        painted(paint, pixel_at(orig, i))
                    } else {
                        pixel_at(orig, i)
                    });
                    if i == i0 {
                        assert(pixel_at(pixels@, i) == painted(paint, pixel_at(before, i)));
                        assert(in_rect(i % wd, i / wd, x0 as int, y0 as int, w as int, h as int));
                    } else {
                        assert(4 * i + 4 <= k || 4 * i >= k + 4);
                        assert(pixel_at(pixels@, i) =~= pixel_at(before, i));
                        if i / wd == y && i % wd == x {
                            assert(wd * (i / wd) == y * wd) by (nonlinear_arith)
                                requires
                                    i / wd == y,
                            ;
                            assert(i == i0);
                        }
                    }
                }
            }
            x += 1;
        }
        proof {
            assert forall|i: int| 0 <= i < n implies #[trigger] pixel_at(pixels@, i) == if in_rect(i % wd, i / wd, x0 as int, y0 as int, w as int, h as int)
                && i / wd < y + 1 {
                painted(paint, pixel_at(orig, i))
            } else {
                pixel_at(orig, i)
            } by {
                if wd > 0 {
                    vstd::arithmetic::div_mod::lemma_fundamental_div_mod(i, wd);
                }
            }
        }
        y += 1;
    }
    proof {
        assert forall|i: int| 0 <= i < n implies #[trigger] pixel_at(pixels@, i) == if in_rect(i % wd, i / wd, x0 as int, y0 as int, w as int, h as int) {
            painted(paint, pixel_at(orig, i))
        } else {
            pixel_at(orig, i)
        } by {
            if wd > 0 {
                assert(i / wd < height) by {
                    vstd::arithmetic::div_mod::lemma_fundamental_div_mod(i, wd);
                    assert(i < height * wd) by (nonlinear_arith)
                        requires
                            i < n,
                            n == width * height,
                            wd == width,
                    ;
                    if i / wd >= height {
                        assert(wd * (i / wd) >= wd * height) by (nonlinear_arith)
                            requires
                                i / wd >= height,
                                wd > 0,
                        ;
                    }
                }
            }
        }
    }
}

} // verus!
