//! Per-object lossless compression. Stored objects and pack entries are zlib
//! streams; the streams themselves are handled by the flate2 crate.
use vstd::prelude::*;
use std::io::Read;

verus! {

/// The zlib encoding of a byte string at the fast compression setting.
/// Stated rather than defined: flate2 computes it, deterministically from
/// the input bytes alone.
pub uninterp spec fn deflate_of(data: Seq<u8>) -> Seq<u8>;

/// What decompressing one zlib stream from the front of a byte string
/// yields: the decompressed bytes and the count of input bytes the
/// decompressor consumed, or nothing when no complete, well-formed stream
/// starts the input.
pub uninterp spec fn inflate_of(data: Seq<u8>) -> Option<(Seq<u8>, int)>;

/// Relies on flate2 read::ZlibEncoder at Compression::fast(): the encoding
/// is a function of the input bytes alone, and decompressing it consumes
/// exactly the encoded stream and restores the input.
#[verifier::external_body]
pub fn zlib_compress(data: &[u8]) -> (r: Vec<u8>)
    ensures
        r@ == deflate_of(data@),
        inflate_of(deflate_of(data@)) == Some((data@, r@.len() as int)),
{
    let mut e = flate2::read::ZlibEncoder::new(data, flate2::Compression::fast());
    let mut out: Vec<u8> = Vec::new();
    // Reading from a slice and writing to a vector cannot fail.
    e.read_to_end(&mut out).unwrap();
    out
}

/// Relies on flate2 read::ZlibDecoder: decompresses the zlib stream at the
/// front of the input and reports, through total_in, how many input bytes
/// the decompressor consumed; fails when the stream is incomplete or
/// malformed.
#[verifier::external_body]
pub fn zlib_decompress(data: &[u8]) -> (r: Option<(Vec<u8>, usize)>)
    ensures
        match r {
            Some(p) => inflate_of(data@) == Some((p.0@, p.1 as int)) && p.1 <= data@.len(),
            None => inflate_of(data@) is None,
        },
{
    let mut d = flate2::read::ZlibDecoder::new(data);
    let mut out: Vec<u8> = Vec::new();
    match d.read_to_end(&mut out) {
        Ok(_) => {
            let used = d.total_in() as usize;
            Some((out, used))
        },
        Err(_) => None,
    }
}

} // verus!
