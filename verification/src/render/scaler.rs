//! Decoding game images into RGBA pixels and fitting them to the screen.
//! How far to shrink an image is a floating-point computation and is not
//! here; everything around it is.

use fast_image_resize::images::Image;
use fast_image_resize::{FilterType, PixelType, ResizeAlg, ResizeOptions, Resizer};
use vstd::prelude::*;

use vstd::string::StringExecFns;

use crate::text::{append_decimal, decimal};

verus! {

/// Decoded RGBA pixels, four bytes a pixel, row by row.
pub struct RgbaPixels {
    pub width: u32,
    pub height: u32,
    pub data: Vec<u8>,
}

/// What `zenavif::decode` yields for an AVIF file, read back with the
/// buffer's `width`, `height`, `bytes_per_pixel` and
/// `copy_to_contiguous_bytes`; `None` where it reports an error.
pub uninterp spec fn avif_decode(bytes: Seq<u8>) -> Option<(u32, u32, usize, Seq<u8>)>;

/// `zenavif::decode` with the default settings. Its result is the name
/// `avif_decode` of the input; zenpixels documents that the contiguous
/// copy holds exactly width times height times bytes-per-pixel bytes.
/// On failure, the error's debug form, whose text is not stated.
#[verifier::external_body]
pub(crate) fn decode_avif(bytes: &[u8]) -> (r: Result<(u32, u32, usize, Vec<u8>), String>)
    ensures
        match r {
            Ok((w, h, bpp, d)) => avif_decode(bytes@) == Some((w, h, bpp, d@)) && d@.len() == w
                * h * bpp,
            Err(_) => avif_decode(bytes@) is None,
        },
{
    match zenavif::decode(bytes) {
        Ok(buffer) => Ok((
            buffer.width(),
            buffer.height(),
            buffer.descriptor().bytes_per_pixel(),
            buffer.copy_to_contiguous_bytes(),
        )),
        Err(e) => Err(format!("{:?}", e)),
    }
}

/// What the `image` crate yields for a non-AVIF image: the format guessed
/// from its first bytes, the image decoded and converted to RGBA8, read
/// back as width, height and raw bytes; `None` where guessing or decoding
/// fails. (The library registers no format hooks, so the guess depends on
/// the bytes alone.)
pub uninterp spec fn image_decode(bytes: Seq<u8>) -> Option<(u32, u32, Seq<u8>)>;

/// `image::ImageReader` with a guessed format, `decode` and `to_rgba8`.
/// Its result is the name `image_decode` of the input; an RGBA8 buffer
/// holds four bytes for each of its width times height pixels. The error
/// message is not stated.
#[verifier::external_body]
fn decode_image(bytes: &[u8]) -> (r: Result<(u32, u32, Vec<u8>), String>)
    ensures
        match r {
            Ok((w, h, d)) => image_decode(bytes@) == Some((w, h, d@)) && d@.len() == w * h * 4,
            Err(_) => image_decode(bytes@) is None,
        },
{
    let reader = image::ImageReader::new(std::io::Cursor::new(bytes)).with_guessed_format().map_err(
        |e| format!("Failed to guess image format: {}", e),
    )?;
    let img = reader.decode().map_err(|e| format!("Failed to decode image: {}", e))?;
    let rgba = img.to_rgba8();
    Ok((rgba.width(), rgba.height(), rgba.into_raw()))
}

/// What `fast_image_resize` makes of RGBA pixels resized to `nw` by `nh`
/// with bilinear convolution; `None` where it reports an error.
pub uninterp spec fn bilinear_resize(w: u32, h: u32, data: Seq<u8>, nw: u32, nh: u32) -> Option<Seq<u8>>;

/// `fast_image_resize::Resizer::resize` with bilinear convolution, from a
/// `U8x4` image to a new one of the given size. Its result is the name
/// `bilinear_resize` of the inputs; a `U8x4` image of `nw` by `nh` holds
/// four bytes a pixel. The error message is not stated.
#[verifier::external_body]
fn resize_bilinear(w: u32, h: u32, data: Vec<u8>, nw: u32, nh: u32) -> (r: Result<Vec<u8>, String>)
    ensures
        match r {
            Ok(d) => bilinear_resize(w, h, data@, nw, nh) == Some(d@) && d@.len() == nw * nh * 4,
            Err(_) => bilinear_resize(w, h, data@, nw, nh) is None,
        },
{
    let src = Image::from_vec_u8(w, h, data, PixelType::U8x4).map_err(
        |e| format!("Source image creation failed: {:?}", e),
    )?;
    let mut dst = Image::new(nw, nh, PixelType::U8x4);
    let options = ResizeOptions::new().resize_alg(ResizeAlg::Convolution(FilterType::Bilinear));
    Resizer::new().resize(&src, &mut dst, &options).map_err(|e| format!("Fast resize failed: {:?}", e))?;
    Ok(dst.into_vec())
}

/// The message for an AVIF image with an unsupported pixel size.
fn unsupported_bpp_message(bpp: usize) -> (r: String)
    ensures
        r@ == "Unsupported AVIF bytes_per_pixel: "@ + decimal(bpp as nat),
{
    let mut m = String::from_str("Unsupported AVIF bytes_per_pixel: ");
    append_decimal(&mut m, bpp as u64);
    m
}


/// RGB bytes with an opaque alpha byte after each whole pixel, as
/// `chunks_exact(3)` walks them (a partial pixel at the end is dropped).
pub open spec fn rgb_to_rgba(d: Seq<u8>) -> Seq<u8>
    decreases d.len(),
{
    if d.len() < 3 {
        seq![]
    } else {
        seq![d[0], d[1], d[2], 255u8] + rgb_to_rgba(d.subrange(3, d.len() as int))
    }
}

/// Four output bytes for each whole input pixel.
pub proof fn lemma_rgb_to_rgba_len(d: Seq<u8>)
    ensures
        rgb_to_rgba(d).len() == (d.len() / 3) * 4,
    decreases d.len(),
{
    if d.len() >= 3 {
        lemma_rgb_to_rgba_len(d.subrange(3, d.len() as int));
    }
}

/// Whether bytes are an ISO-BMFF `ftyp` box of an AVIF image: bytes 4..8
/// are `ftyp` and bytes 8..12 are `avif`, `avis` or `mif1`.
pub open spec fn is_avif(b: Seq<u8>) -> bool {
    &&& b.len() >= 12
    &&& b.subrange(4, 8) == seq![0x66u8, 0x74, 0x79, 0x70]
    &&& (b.subrange(8, 12) == seq![0x61u8, 0x76, 0x69, 0x66] || b.subrange(8, 12) == seq![
        0x61u8,
        0x76,
        0x69,
        0x73,
    ] || b.subrange(8, 12) == seq![0x6du8, 0x69, 0x66, 0x31])
}

/// The RGBA pixels an image file decodes to: AVIF through `zenavif`, with
/// three-byte pixels given an opaque alpha and other pixel sizes refused;
/// every other format through `image`.
pub open spec fn decoded_rgba(b: Seq<u8>) -> Option<(u32, u32, Seq<u8>)> {
    if is_avif(b) {
        match avif_decode(b) {
            Some((w, h, bpp, d)) => if bpp == 4 {
                Some((w, h, d))
            } else if bpp == 3 {
                Some((w, h, rgb_to_rgba(d)))
            } else {
                None
            },
            None => None,
        }
    } else {
        image_decode(b)
    }
}

/// Abstract contents of a [`TextureScaler`].
pub struct ScalerView {
    pub target_width: u32,
    pub target_height: u32,
    pub enable_downscale: bool,
}

/// Fits decoded images to a screen of a target size.
pub struct TextureScaler {
    target_width: u32,
    target_height: u32,
    enable_downscale: bool,
}

impl View for TextureScaler {
    type V = ScalerView;

    closed spec fn view(&self) -> ScalerView {
        ScalerView {
            target_width: self.target_width,
            target_height: self.target_height,
            enable_downscale: self.enable_downscale,
        }
    }
}

/// Whether an image of this size is shown as it is: downscaling is off,
/// or it fits within the target in both directions.
pub open spec fn keeps_size(s: ScalerView, w: u32, h: u32) -> bool {
    !s.enable_downscale || (w <= s.target_width && h <= s.target_height)
}

/// Whether the bytes are an AVIF container.
pub fn is_avif_container(b: &[u8]) -> (r: bool)
    ensures
        r == is_avif(b@),
{
    if b.len() < 12 {
        return false;
    }
    let ftyp = b[4] == 0x66 && b[5] == 0x74 && b[6] == 0x79 && b[7] == 0x70;
    let avif = b[8] == 0x61 && b[9] == 0x76 && b[10] == 0x69 && b[11] == 0x66;
    let avis = b[8] == 0x61 && b[9] == 0x76 && b[10] == 0x69 && b[11] == 0x73;
    let mif1 = b[8] == 0x6d && b[9] == 0x69 && b[10] == 0x66 && b[11] == 0x31;
    proof {
        let f = b@.subrange(4, 8);
        let t = b@.subrange(8, 12);
        assert(ftyp <==> f =~= seq![0x66u8, 0x74, 0x79, 0x70]);
        assert(avif <==> t =~= seq![0x61u8, 0x76, 0x69, 0x66]);
        assert(avis <==> t =~= seq![0x61u8, 0x76, 0x69, 0x73]);
        assert(mif1 <==> t =~= seq![0x6du8, 0x69, 0x66, 0x31]);
    }
    ftyp && (avif || avis || mif1)
}

/// Three-byte pixels with an opaque alpha byte added.
pub fn expand_rgb(d: &[u8]) -> (r: Vec<u8>)
    ensures
        r@ == rgb_to_rgba(d@),
{
    let n = d.len();
    let mut out: Vec<u8> = Vec::new();
    let mut k: usize = 0;
    assert(d@.subrange(0, n as int) =~= d@);
    while n - k >= 3
        invariant
            n == d@.len(),
            k <= n,
            out@ + rgb_to_rgba(d@.subrange(k as int, n as int)) == rgb_to_rgba(d@),
        decreases n - k,
    {
        let ghost rest = d@.subrange(k as int, n as int);
        assert(rest.subrange(3, rest.len() as int) =~= d@.subrange(k + 3, n as int));
        let ghost before = out@;
        out.push(d[k]);
        out.push(d[k + 1]);
        out.push(d[k + 2]);
        out.push(255u8);
        assert(out@ =~= before + seq![d@[k as int], d@[k + 1], d@[k + 2], 255u8]);
        assert(out@ + rgb_to_rgba(d@.subrange(k + 3, n as int)) =~= before + rgb_to_rgba(rest));
        k += 3;
    }
    assert(out@ + rgb_to_rgba(d@.subrange(k as int, n as int)) =~= out@);
    out
}

impl TextureScaler {
    /// A scaler for a screen of the given size.
    pub fn new(target_width: u32, target_height: u32, enable_downscale: bool) -> (r: Self)
        ensures
            r@ == (ScalerView { target_width, target_height, enable_downscale }),
    {
        TextureScaler { target_width, target_height, enable_downscale }
    }

    /// The scaler for the Anbernic RG40XXH: 640 by 480, downscaling on.
    pub fn for_rg40xxh() -> (r: Self)
        ensures
            r@ == (ScalerView { target_width: 640, target_height: 480, enable_downscale: true }),
    {
        Self::new(640, 480, true)
    }

    /// The target width.
    pub fn target_width(&self) -> (r: u32)
        ensures
            r == self@.target_width,
    {
        self.target_width
    }

    /// The target height.
    pub fn target_height(&self) -> (r: u32)
        ensures
            r == self@.target_height,
    {
        self.target_height
    }

    /// Whether an image of this size is kept as it is rather than shrunk.
    pub fn keeps(&self, width: u32, height: u32) -> (r: bool)
        ensures
            r == keeps_size(self@, width, height),
    {
        !self.enable_downscale || (width <= self.target_width && height <= self.target_height)
    }

    /// Decodes an image file (AVIF, PNG, JPEG and the other formats the
    /// `image` crate reads) into RGBA pixels. An AVIF image with a pixel
    /// size other than three or four bytes is refused with a message that
    /// names the size.
    pub fn decode_rgba(image_bytes: &[u8]) -> (r: Result<RgbaPixels, String>)
        ensures
            match decoded_rgba(image_bytes@) {
                Some((w, h, d)) => r matches Ok(p) && p.width == w && p.height == h && p.data@ == d
                    && d.len() == w * h * 4,
                None => r is Err,
            },
            is_avif(image_bytes@) ==> match avif_decode(image_bytes@) {
                Some((_, _, bpp, _)) => bpp != 3 && bpp != 4 ==> (r matches Err(m) && m@
                    == "Unsupported AVIF bytes_per_pixel: "@ + decimal(bpp as nat)),
                None => true,
            },
    {
        if is_avif_container(image_bytes) {
            let (width, height, bpp, raw) = match decode_avif(image_bytes) {
                Ok(x) => x,
                Err(e) => {
                    let mut m = String::from_str("Failed to decode AVIF image: ");
                    m.append(e.as_str());
                    return Err(m);
                },
            };
            if bpp == 4 {
                Ok(RgbaPixels { width, height, data: raw })
            } else if bpp == 3 {
                let data = expand_rgb(raw.as_slice());
                proof {
                    lemma_rgb_to_rgba_len(raw@);
                    assert((width * height * 3) / 3 * 4 == width * height * 4) by (nonlinear_arith);
                }
                Ok(RgbaPixels { width, height, data })
            } else {
                Err(unsupported_bpp_message(bpp))
            }
        } else {
            let (width, height, data) = decode_image(image_bytes)?;
            Ok(RgbaPixels { width, height, data })
        }
    }

    /// The pixels resized to `new_width` by `new_height` with bilinear
    /// filtering.
    pub fn resize(pixels: RgbaPixels, new_width: u32, new_height: u32) -> (r: Result<RgbaPixels, String>)
        requires
            new_width >= 1,
            new_height >= 1,
        ensures
            match bilinear_resize(pixels.width, pixels.height, pixels.data@, new_width, new_height) {
                Some(d) => r matches Ok(p) && p.width == new_width && p.height == new_height
                    && p.data@ == d && d.len() == new_width * new_height * 4,
                None => r is Err,
            },
    {
        let data = resize_bilinear(pixels.width, pixels.height, pixels.data, new_width, new_height)?;
        Ok(RgbaPixels { width: new_width, height: new_height, data })
    }
}

} // verus!
