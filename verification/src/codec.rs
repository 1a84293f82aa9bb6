//! Compression plumbing for framed payloads: zlib streams produced and
//! consumed through `libdeflater`, named at the specification level so that
//! frame contracts can speak of the exact bytes.

use vstd::prelude::*;

verus! {

/// The zlib stream that `libdeflater` emits for `data` at compression level
/// `level`. Deterministic for a given input and level.
pub uninterp spec fn zlib_deflate_of(data: Seq<u8>, level: int) -> Seq<u8>;

/// What decoding the zlib stream that leads `data` yields: `Some` of the
/// decompressed bytes of that leading stream when one is well formed, `None`
/// otherwise. Bytes after the stream's end do not take part.
pub uninterp spec fn zlib_inflate_of(data: Seq<u8>) -> Option<Seq<u8>>;

/// Relies on `libdeflater::Compressor::zlib_compress`: compressing into a
/// buffer of `zlib_compress_bound` size cannot fail, the output is a function
/// of the input bytes and the level alone, and decompressing it yields the
/// input again.
#[verifier::external_body]
pub(crate) fn zlib_compress(data: &[u8], level: i32) -> (r: Vec<u8>)
    requires
        0 <= level <= 12,
    ensures
        r@ == zlib_deflate_of(data@, level as int),
        zlib_inflate_of(r@) == Some(data@),
{
    let lvl = match libdeflater::CompressionLvl::new(level) {
        Ok(lvl) => lvl,
        Err(_) => libdeflater::CompressionLvl::default(),
    };
    let mut compressor = libdeflater::Compressor::new(lvl);
    let mut out = vec![0u8; compressor.zlib_compress_bound(data.len())];
    let written = compressor.zlib_compress(data, &mut out).unwrap_or(0);
    out.truncate(written);
    out
}

/// Relies on `libdeflater::Decompressor::zlib_decompress`: it succeeds
/// exactly when a well-formed zlib stream leads the input and its
/// decompressed form fits the output buffer, and reports how many bytes it
/// wrote; here it is handed a buffer of `expected_len` bytes and held to
/// filling it exactly.
#[verifier::external_body]
pub(crate) fn zlib_decompress(data: &[u8], expected_len: usize) -> (r: Option<Vec<u8>>)
    ensures
        r matches Some(v) ==> zlib_inflate_of(data@) == Some(v@) && v@.len() == expected_len,
        r is None ==> !(zlib_inflate_of(data@) matches Some(v) && v.len() == expected_len),
{
    let mut out = vec![0u8; expected_len];
    let mut decompressor = libdeflater::Decompressor::new();
    match decompressor.zlib_decompress(data, &mut out) {
        Ok(written) if written == expected_len => Some(out),
        _ => None,
    }
}

} // verus!
