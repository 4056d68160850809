//! zlib inflation and compression, through `flate2`.

use std::io::{Read, Write};
use vstd::prelude::*;

verus! {

/// What `flate2`'s zlib decoder yields on `data` read to its end: the
/// inflated bytes, or `None` where the decoder reports an error. Inflation
/// is a function of the input bytes alone.
pub uninterp spec fn zlib_inflate(data: Seq<u8>) -> Option<Seq<u8>>;

/// `flate2::read::ZlibDecoder` over `data`, read to the end. On success the
/// result is `zlib_inflate(data)`; on failure the decoder's error message.
/// What the message says is not stated.
#[verifier::external_body]
pub(crate) fn inflate(data: &[u8]) -> (r: Result<Vec<u8>, String>)
    ensures
        match r {
            Ok(v) => zlib_inflate(data@) == Some(v@),
            Err(_) => zlib_inflate(data@) is None,
        },
{
    let mut out = Vec::new();
    match flate2::read::ZlibDecoder::new(data).read_to_end(&mut out) {
        Ok(_) => Ok(out),
        Err(e) => Err(e.to_string()),
    }
}


/// What `flate2`'s zlib encoder at the default compression level writes for
/// `data`; `None` where it reports an error.
pub uninterp spec fn zlib_deflate(data: Seq<u8>) -> Option<Seq<u8>>;

/// `flate2::write::ZlibEncoder` over a new `Vec` with
/// `Compression::default()`, `data` written whole, then finished. On
/// success the result is `zlib_deflate(data)`; on failure the I/O error.
#[verifier::external_body]
pub(crate) fn deflate(data: &[u8]) -> (r: Result<Vec<u8>, std::io::Error>)
    ensures
        match r {
            Ok(c) => zlib_deflate(data@) == Some(c@),
            Err(_) => zlib_deflate(data@) is None,
        },
{
    let mut encoder = flate2::write::ZlibEncoder::new(Vec::new(), flate2::Compression::default());
    encoder.write_all(data)?;
    encoder.finish()
}

} // verus!
