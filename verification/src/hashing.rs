//! Content hashing: the SHA-1 digest used by the integrity check, and the
//! deterministic placeholder hash the JSON path derives from identifiers.

use vstd::prelude::*;
use sha1::Digest;

verus! {

/// What the SHA-1 digest of a byte sequence is.
pub uninterp spec fn sha1_of(b: Seq<u8>) -> Seq<u8>;

/// Relies on `sha1::Sha1` through the `Digest` trait: a 20-byte digest that
/// depends on the input bytes alone.
#[verifier::external_body]
pub fn sha1_digest(data: &[u8]) -> (r: Vec<u8>)
    ensures
        r@ == sha1_of(data@),
        r@.len() == 20,
{
    sha1::Sha1::digest(data).to_vec()
}

/// The 64-bit FNV-1a offset basis.
pub const FNV_OFFSET: u64 = 14695981039346656037;

/// The 64-bit FNV-1a prime.
pub const FNV_PRIME: u64 = 1099511628211;

/// 64-bit FNV-1a over a byte sequence: xor each byte in, multiply by the
/// prime modulo 2^64. Used only as a deterministic placeholder where the
/// source format carries no real hash; the same bytes always give the same
/// value.
pub open spec fn fnv1a(b: Seq<u8>) -> u64
    decreases b.len(),
{
    if b.len() == 0 {
        FNV_OFFSET
    } else {
        (((fnv1a(b.drop_last()) ^ b.last() as u64) * FNV_PRIME) % 0x10000000000000000) as u64
    }
}

/// Compute 64-bit FNV-1a over `data`.
pub fn fnv1a_hash(data: &[u8]) -> (r: u64)
    ensures
        r == fnv1a(data@),
{
    let n: usize = data.len();
    let mut h: u64 = FNV_OFFSET;
    let mut i: usize = 0;
    while i < n
        invariant
            n == data@.len(),
            i <= n,
            h == fnv1a(data@.subrange(0, i as int)),
        decreases n - i,
    {
        let ghost prefix = data@.subrange(0, i as int);
        h = (h ^ data[i] as u64).wrapping_mul(FNV_PRIME);
        proof {
            let longer = data@.subrange(0, i + 1);
            assert(longer.drop_last() =~= prefix);
            assert(longer.last() == data@[i as int]);
        }
        i = i + 1;
    }
    assert(data@.subrange(0, n as int) =~= data@);
    h
}

} // verus!
