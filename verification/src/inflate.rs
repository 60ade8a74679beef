//! Decompression of the zlib-wrapped payload.

use vstd::prelude::*;

verus! {

/// What inflating a zlib-wrapped stream yields: the decompressed bytes, or
/// nothing when the stream is not a valid complete stream.
pub uninterp spec fn zlib_inflate(b: Seq<u8>) -> Option<Seq<u8>>;

/// Relies on `miniz_oxide::inflate::decompress_to_vec_zlib`: inflates a
/// zlib-wrapped deflate stream; the outcome depends on the input bytes
/// alone.
#[verifier::external_body]
pub fn decompress_zlib(data: &[u8]) -> (r: Option<Vec<u8>>)
    ensures
        match r {
            Some(v) => zlib_inflate(data@) == Some(v@),
            None => zlib_inflate(data@) is None,
        },
{
    match miniz_oxide::inflate::decompress_to_vec_zlib(data) {
        Ok(v) => Some(v),
        Err(_) => None,
    }
}

} // verus!
