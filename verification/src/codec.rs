//! Compression of stored payloads.
//!
//! Payloads are persisted compressed. The codec wraps a general-purpose
//! lossless compressor; one moderate effort level is chosen once for the
//! whole system. What the compressor emits for given bytes is named by the
//! uninterpreted function `brotli_compressed`, and what decoding yields
//! for given bytes by `brotli_decoded`; that compression always succeeds
//! and that decoding inverts it are the codec's trusted contracts, and
//! everything the cache proves about round trips rests on them.

use vstd::prelude::*;
use crate::error::CacheError;

verus! {

/// The compression effort level used for every payload.
pub const COMPRESSION_LEVEL: i32 = 5;

/// The bytes the compressor emits for `data` at effort level `quality`.
pub uninterp spec fn brotli_compressed(data: Seq<u8>, quality: int) -> Seq<u8>;

/// What the decompressor yields for the bytes `data`: the decoded
/// payload, or `None` where the bytes are not a valid compressed stream.
pub uninterp spec fn brotli_decoded(data: Seq<u8>) -> Option<Seq<u8>>;

/// Relies on `brotli::BrotliCompress`: deterministic lossless compression
/// of the whole buffer at the given effort level. The call always
/// succeeds here: it reads from an in-memory cursor and writes to a
/// vector, neither of which can fail, and it sanitizes the effort level
/// itself before encoding.
#[verifier::external_body]
fn brotli_compress(data: &Vec<u8>, quality: i32) -> (r: Result<Vec<u8>, CacheError>)
    ensures
        r is Ok,
        r matches Ok(c) ==> c@ == brotli_compressed(data@, quality as int),
{
    let mut params = brotli::enc::BrotliEncoderParams::default();
    params.quality = quality;
    let mut reader = std::io::Cursor::new(data.as_slice());
    let mut out = Vec::new();
    match brotli::BrotliCompress(&mut reader, &mut out, &params) {
        Ok(_) => Ok(out),
        Err(_) => Err(CacheError::Compression),
    }
}

/// Relies on `brotli::BrotliDecompress`: what decoding yields is a
/// function of the bytes alone; it inverts compression, whatever effort
/// level the encoder used, and it fails exactly on bytes that are not a
/// valid compressed stream.
#[verifier::external_body]
fn brotli_decompress(data: &Vec<u8>) -> (r: Result<Vec<u8>, CacheError>)
    ensures
        match r {
            Ok(d) => brotli_decoded(data@) == Some(d@) && (forall|orig: Seq<u8>, q: int|
                data@ == #[trigger] brotli_compressed(orig, q) ==> d@ == orig),
            Err(e) => e == CacheError::Decompression && brotli_decoded(data@) is None && (
            forall|orig: Seq<u8>, q: int| data@ != #[trigger] brotli_compressed(orig, q)),
        },
{
    let mut reader = std::io::Cursor::new(data.as_slice());
    let mut out = Vec::new();
    match brotli::BrotliDecompress(&mut reader, &mut out) {
        Ok(()) => Ok(out),
        Err(_) => Err(CacheError::Decompression),
    }
}

/// Compresses a payload as it will be persisted. Compression of an
/// in-memory buffer never fails.
pub fn compress_payload(data: &Vec<u8>) -> (c: Vec<u8>)
    ensures
        c@ == brotli_compressed(data@, COMPRESSION_LEVEL as int),
{
    match brotli_compress(data, COMPRESSION_LEVEL) {
        Ok(c) => c,
        Err(_) => unreached(),
    }
}

/// Decompresses persisted bytes back into the original payload.
///
/// The outcome is exactly what the decoder yields for the bytes: the
/// decoded payload, or `Decompression` where they are not a valid
/// compressed stream. Bytes that are exactly what the compressor produced
/// for some payload always decode back to that payload.
pub fn decode_payload(data: &Vec<u8>) -> (r: Result<Vec<u8>, CacheError>)
    ensures
        match r {
            Ok(d) => brotli_decoded(data@) == Some(d@),
            Err(e) => e == CacheError::Decompression && brotli_decoded(data@) is None,
        },
        forall|orig: Seq<u8>, q: int|
            data@ == #[trigger] brotli_compressed(orig, q) ==> (r matches Ok(d) && d@ == orig),
{
    brotli_decompress(data)
}

} // verus!
