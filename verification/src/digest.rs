//! Trusted boundary to the SHA-2 hash functions. The digests themselves are
//! named, not restated: `sha256_of` and `sha384_of` stand for what the hash
//! crate returns, and every contract downstream speaks of those names.

use vstd::prelude::*;
use sha2::Digest;

verus! {

pub uninterp spec fn sha256_of(bytes: Seq<u8>) -> Seq<u8>;

pub uninterp spec fn sha384_of(bytes: Seq<u8>) -> Seq<u8>;

/// Relies on sha2::Sha256 through the Digest trait: the 32-byte SHA-256
/// digest, a function of the input bytes alone.
#[verifier::external_body]
pub fn sha256(bytes: &Vec<u8>) -> (r: Vec<u8>)
    ensures
        r@ == sha256_of(bytes@),
        r@.len() == 32,
{
    sha2::Sha256::digest(bytes.as_slice()).to_vec()
}

/// Relies on sha2::Sha384 through the Digest trait: the 48-byte SHA-384
/// digest, a function of the input bytes alone.
#[verifier::external_body]
pub fn sha384(bytes: &Vec<u8>) -> (r: Vec<u8>)
    ensures
        r@ == sha384_of(bytes@),
        r@.len() == 48,
{
    sha2::Sha384::digest(bytes.as_slice()).to_vec()
}

/// Two distinct SHA-256 preimages share a digest: infeasible in practice,
/// but never excluded by the contracts, so the binding laws name it.
pub open spec fn sha256_collision() -> bool {
    exists|x: Seq<u8>, y: Seq<u8>| x != y && #[trigger] sha256_of(x) == #[trigger] sha256_of(y)
}

/// Two distinct SHA-384 preimages share a digest.
pub open spec fn sha384_collision() -> bool {
    exists|x: Seq<u8>, y: Seq<u8>| x != y && #[trigger] sha384_of(x) == #[trigger] sha384_of(y)
}

} // verus!
