use vstd::prelude::*;

use crate::errors::CompressionError;

verus! {

/// The bytes that the zlib compressor emits for `data`: a fresh encoder at
/// the default compression level, fed the whole input and finalized. The
/// output is a function of the input bytes alone; no state survives between
/// calls.
pub uninterp spec fn zlib_of(data: Seq<u8>) -> Seq<u8>;

/// Relies on `flate2::write::ZlibEncoder`: a fresh encoder at the default
/// level, fed the whole input through `write_all` and finalized by `finish`,
/// deterministically yields the compressed stream for exactly these bytes.
/// The call always succeeds, since writing into a `Vec` sink cannot fail and
/// the encoder is driven through valid states only; and a finalized zlib
/// stream is never empty, as it carries at least its two header bytes and
/// its four checksum bytes.
#[verifier::external_body]
fn zlib_compress(data: &Vec<u8>) -> (r: Option<Vec<u8>>)
    ensures
        r is Some,
        r matches Some(v) ==> v@ == zlib_of(data@),
        r matches Some(v) ==> v@.len() >= 1,
{
    let mut enc = flate2::write::ZlibEncoder::new(Vec::new(), flate2::Compression::default());
    match std::io::Write::write_all(&mut enc, data.as_slice()) {
        Ok(()) => enc.finish().ok(),
        Err(_) => None,
    }
}

/// Compresses `data` in isolation with a fresh compressor instance and
/// returns the compressed bytes.
pub fn compress(data: &Vec<u8>) -> (r: Result<Vec<u8>, CompressionError>)
    ensures
        r is Ok,
        r matches Ok(v) ==> v@ == zlib_of(data@),
        zlib_of(data@).len() >= 1,
{
    match zlib_compress(data) {
        Some(v) => Ok(v),
        None => Err(CompressionError),
    }
}

/// The concatenation of two byte vectors.
pub fn concat_bytes(x1: &Vec<u8>, x2: &Vec<u8>) -> (r: Vec<u8>)
    ensures
        r@ == x1@ + x2@,
{
    let mut out = vstd::slice::slice_to_vec(x1.as_slice());
    let mut tail = vstd::slice::slice_to_vec(x2.as_slice());
    out.append(&mut tail);
    out
}

/// The compressed length of the concatenation of `x1` and `x2`, each call on
/// a fresh compressor instance.
pub fn compress_bytes(x1: &Vec<u8>, x2: &Vec<u8>) -> (r: Result<usize, CompressionError>)
    ensures
        r is Ok,
        r matches Ok(n) ==> n == zlib_of(x1@ + x2@).len(),
        r matches Ok(n) ==> n >= 1,
{
    let joined = concat_bytes(x1, x2);
    match compress(&joined) {
        Ok(v) => Ok(v.len()),
        Err(e) => Err(e),
    }
}

} // verus!
