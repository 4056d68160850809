//! Re-encoding AVIF images as JPEG, or as PNG where they are translucent,
//! for devices whose decoders are too slow for AVIF.

use image::codecs::jpeg::JpegEncoder;
use image::codecs::png::PngEncoder;
use image::{ExtendedColorType, ImageEncoder};
use vstd::prelude::*;
use vstd::string::StringExecFns;

use crate::render::scaler::{avif_decode, decode_avif};
use crate::text::{append_decimal, decimal};

verus! {

/// An image re-encoded in a format that the device reads quickly.
pub enum ConvertedImage {
    Jpeg(Vec<u8>),
    Png(Vec<u8>),
}

/// Whether some whole four-byte pixel has an alpha below 250.
pub open spec fn has_translucency(d: Seq<u8>) -> bool
    decreases d.len(),
{
    if d.len() < 4 {
        false
    } else {
        d[3] < 250 || has_translucency(d.subrange(4, d.len() as int))
    }
}

/// RGBA bytes without their alpha bytes (a partial pixel at the end is
/// dropped).
pub open spec fn rgba_to_rgb(d: Seq<u8>) -> Seq<u8>
    decreases d.len(),
{
    if d.len() < 4 {
        seq![]
    } else {
        seq![d[0], d[1], d[2]] + rgba_to_rgb(d.subrange(4, d.len() as int))
    }
}

/// Three output bytes for each whole input pixel.
pub proof fn lemma_rgba_to_rgb_len(d: Seq<u8>)
    ensures
        rgba_to_rgb(d).len() == (d.len() / 4) * 3,
    decreases d.len(),
{
    if d.len() >= 4 {
        lemma_rgba_to_rgb_len(d.subrange(4, d.len() as int));
    }
}

/// The PNG file that `image`'s `PngEncoder` writes for RGBA8 pixels.
pub uninterp spec fn png_encode(w: u32, h: u32, rgba: Seq<u8>) -> Option<Seq<u8>>;

/// `PngEncoder::write_image` with `Rgba8` pixels into a byte buffer. Its
/// result is the name `png_encode`; it panics unless the buffer holds
/// exactly four bytes a pixel, which `requires` asks for. On failure, the
/// error's debug form.
#[verifier::external_body]
fn encode_png(rgba: &[u8], w: u32, h: u32) -> (r: Result<Vec<u8>, String>)
    requires
        rgba@.len() == w * h * 4,
    ensures
        match r {
            Ok(b) => png_encode(w, h, rgba@) == Some(b@),
            Err(_) => png_encode(w, h, rgba@) is None,
        },
{
    let mut out = Vec::new();
    match PngEncoder::new(&mut out).write_image(rgba, w, h, ExtendedColorType::Rgba8) {
        Ok(()) => Ok(out),
        Err(e) => Err(format!("{:?}", e)),
    }
}

/// The JPEG file that `image`'s `JpegEncoder` writes for RGB8 pixels at a
/// quality.
pub uninterp spec fn jpeg_encode(w: u32, h: u32, rgb: Seq<u8>, quality: u8) -> Option<Seq<u8>>;

/// `JpegEncoder::new_with_quality(_, quality).encode` with `Rgb8` pixels
/// into a byte buffer. Its result is the name `jpeg_encode`; it panics
/// unless the buffer holds exactly three bytes a pixel, which `requires`
/// asks for. On failure, the error's debug form.
#[verifier::external_body]
fn encode_jpeg(rgb: &[u8], w: u32, h: u32, quality: u8) -> (r: Result<Vec<u8>, String>)
    requires
        rgb@.len() == w * h * 3,
    ensures
        match r {
            Ok(b) => jpeg_encode(w, h, rgb@, quality) == Some(b@),
            Err(_) => jpeg_encode(w, h, rgb@, quality) is None,
        },
{
    let mut out = Vec::new();
    match JpegEncoder::new_with_quality(&mut out, quality).encode(rgb, w, h, ExtendedColorType::Rgb8) {
        Ok(()) => Ok(out),
        Err(e) => Err(format!("{:?}", e)),
    }
}

/// The re-encoding of an AVIF image: PNG when it has four-byte pixels and
/// one of them is translucent (alpha below 250), else JPEG at quality 82
/// from its RGB bytes (alpha dropped); other pixel sizes are refused.
/// `Some((true, png))` or `Some((false, jpeg))`; `None` on any failure.
pub open spec fn converted(avif: Seq<u8>) -> Option<(bool, Seq<u8>)> {
    match avif_decode(avif) {
        None => None,
        Some((w, h, bpp, d)) => if bpp == 4 && has_translucency(d) {
            match png_encode(w, h, d) {
                Some(b) => Some((true, b)),
                None => None,
            }
        } else if bpp == 4 || bpp == 3 {
            match jpeg_encode(w, h, if bpp == 4 { rgba_to_rgb(d) } else { d }, 82) {
                Some(b) => Some((false, b)),
                None => None,
            }
        } else {
            None
        },
    }
}

/// Whether some whole pixel is translucent.
fn any_translucent(d: &[u8]) -> (r: bool)
    ensures
        r == has_translucency(d@),
{
    let n = d.len();
    let mut k: usize = 0;
    assert(d@.subrange(0, n as int) =~= d@);
    while n - k >= 4
        invariant
            n == d@.len(),
            k <= n,
            has_translucency(d@) == has_translucency(d@.subrange(k as int, n as int)),
        decreases n - k,
    {
        let ghost rest = d@.subrange(k as int, n as int);
        assert(rest.subrange(4, rest.len() as int) =~= d@.subrange(k + 4, n as int));
        if d[k + 3] < 250 {
            return true;
        }
        k += 4;
    }
    false
}

/// RGBA bytes with the alpha bytes left out.
fn strip_alpha(d: &[u8]) -> (r: Vec<u8>)
    ensures
        r@ == rgba_to_rgb(d@),
{
    let n = d.len();
    let mut out: Vec<u8> = Vec::new();
    let mut k: usize = 0;
    assert(d@.subrange(0, n as int) =~= d@);
    while n - k >= 4
        invariant
            n == d@.len(),
            k <= n,
            out@ + rgba_to_rgb(d@.subrange(k as int, n as int)) == rgba_to_rgb(d@),
        decreases n - k,
    {
        let ghost rest = d@.subrange(k as int, n as int);
        assert(rest.subrange(4, rest.len() as int) =~= d@.subrange(k + 4, n as int));
        let ghost before = out@;
        out.push(d[k]);
        out.push(d[k + 1]);
        out.push(d[k + 2]);
        assert(out@ =~= before + seq![d@[k as int], d@[k + 1], d@[k + 2]]);
        assert(out@ + rgba_to_rgb(d@.subrange(k + 4, n as int)) =~= before + rgba_to_rgb(rest));
        k += 4;
    }
    assert(out@ + rgba_to_rgb(d@.subrange(k as int, n as int)) =~= out@);
    out
}

/// The message for an unsupported pixel size.
fn unsupported_bpp(bpp: usize) -> (r: String)
    ensures
        r@ == "Unsupported bpp: "@ + decimal(bpp as nat),
{
    let mut m = String::from_str("Unsupported bpp: ");
    append_decimal(&mut m, bpp as u64);
    m
}

/// An error message: a prefix, then the error's own text.
fn prefixed(prefix: &str, e: String) -> (r: String)
    ensures
        r@ == prefix@ + e@,
{
    let mut m = String::from_str(prefix);
    m.append(e.as_str());
    m
}

/// Decodes an AVIF image and re-encodes it: PNG (extension `.png`) for
/// translucent four-byte pixels, JPEG at quality 82 (extension `.jpg`)
/// otherwise.
pub fn decode_avif_and_convert(avif_bytes: &[u8]) -> (r: Result<(ConvertedImage, &'static str), String>)
    ensures
        match converted(avif_bytes@) {
            Some((true, b)) => r matches Ok((ConvertedImage::Png(p), ext)) && p@ == b && ext@
                == ".png"@,
            Some((false, b)) => r matches Ok((ConvertedImage::Jpeg(j), ext)) && j@ == b && ext@
                == ".jpg"@,
            None => r is Err,
        },
        match avif_decode(avif_bytes@) {
            Some((_, _, bpp, _)) => bpp != 3 && bpp != 4 ==> (r matches Err(m) && m@
                == "Unsupported bpp: "@ + decimal(bpp as nat)),
            None => true,
        },
{
    let (width, height, bpp, raw) = match decode_avif(avif_bytes) {
        Ok(x) => x,
        Err(e) => {
            return Err(prefixed("AVIF decode error: ", e));
        },
    };
    let has_transparency = if bpp == 4 {
        any_translucent(raw.as_slice())
    } else {
        false
    };
    if has_transparency {
        let png = match encode_png(raw.as_slice(), width, height) {
            Ok(b) => b,
            Err(e) => {
                return Err(prefixed("PNG encode error: ", e));
            },
        };
        Ok((ConvertedImage::Png(png), ".png"))
    } else {
        let rgb_bytes = if bpp == 4 {
            let rgb = strip_alpha(raw.as_slice());
            proof {
                lemma_rgba_to_rgb_len(raw@);
                assert((width * height * 4) / 4 * 3 == width * height * 3) by (nonlinear_arith);
            }
            rgb
        } else if bpp == 3 {
            raw
        } else {
            return Err(unsupported_bpp(bpp));
        };
        let jpeg = match encode_jpeg(rgb_bytes.as_slice(), width, height, 82) {
            Ok(b) => b,
            Err(e) => {
                return Err(prefixed("JPEG encode error: ", e));
            },
        };
        Ok((ConvertedImage::Jpeg(jpeg), ".jpg"))
    }
}

} // verus!
