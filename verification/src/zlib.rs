//! zlib compression and decompression of packet payloads, through the
//! `flate2` crate. Both directions are modelled by uninterpreted functions
//! of the input bytes alone.

use vstd::prelude::*;
use crate::types::Error;
use flate2::{Compression, FlushDecompress, Status};
use flate2::write::ZlibEncoder;
use std::io::Write;

verus! {

/// The zlib (deflate with zlib header, fast level) compression of `s`: a
/// pure function of the input bytes, named rather than written out.
pub uninterp spec fn zlib_deflate(s: Seq<u8>) -> Seq<u8>;

/// The zlib decompression of the stream opening `s`: `Some` of the inflated
/// bytes when `s` opens with a complete well-formed zlib stream, `None`
/// otherwise. A pure function of the input bytes.
pub uninterp spec fn zlib_inflate(s: Seq<u8>) -> Option<Seq<u8>>;

/// Relies on `flate2::write::ZlibEncoder` (zlib format, `Compression::fast()`):
/// compression is a pure function of the input bytes, it cannot fail over a
/// `Vec` sink (errors arise only from the sink or a corrupted compressor
/// state), and zlib guarantees that inflating the compressed stream yields
/// the input back.
#[verifier::external_body]
pub fn deflate(data: &Vec<u8>) -> (r: Vec<u8>)
    ensures
        r@ == zlib_deflate(data@),
        zlib_inflate(r@) == Some(data@),
{
    let mut enc = ZlibEncoder::new(Vec::new(), Compression::fast());
    enc.write_all(data.as_slice()).unwrap();
    enc.finish().unwrap()
}

/// Relies on `flate2::Decompress::decompress_vec` with
/// `FlushDecompress::Finish`: with at least `cap` output bytes of room it
/// reaches `StreamEnd` whenever the input opens with a complete zlib stream
/// whose decompressed form fits in `cap` bytes, and fails on a corrupt
/// stream or one overflowing the room it was given. How much the output may
/// exceed `cap` depends on the allocator, so the caller checks the returned
/// length itself.
#[verifier::external_body]
pub fn inflate(data: &Vec<u8>, cap: usize) -> (r: Result<Vec<u8>, Error>)
    ensures
        match r {
            Ok(v) => zlib_inflate(data@) == Some(v@),
            Err(e) => e == Error::InflateError && (zlib_inflate(data@) is None || zlib_inflate(
                data@,
            ).unwrap().len() > cap),
        },
{
    let mut d = flate2::Decompress::new(true);
    let mut out: Vec<u8> = Vec::with_capacity(cap);
    match d.decompress_vec(data.as_slice(), &mut out, FlushDecompress::Finish) {
        Ok(Status::StreamEnd) => Ok(out),
        _ => Err(Error::InflateError),
    }
}

} // verus!
