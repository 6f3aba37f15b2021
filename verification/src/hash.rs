//! The hash behind state roots.
use vstd::prelude::*;
use crate::primitive::H256;

verus! {

/// The Keccak-256 digest of the bytes.
pub uninterp spec fn keccak256_digest(bytes: Seq<u8>) -> Seq<u8>;

/// `tiny_keccak::Keccak` at 256 bits, fed with the bytes and finalized into 32
/// bytes: the digest of the bytes.
#[verifier::external_body]
pub(crate) fn keccak256(bytes: &Vec<u8>) -> (r: H256)
    ensures
        r.0@ == keccak256_digest(bytes@),
{
    let mut hasher = tiny_keccak::Keccak::v256();
    tiny_keccak::Hasher::update(&mut hasher, bytes);
    let mut digest = [0u8; 32];
    tiny_keccak::Hasher::finalize(hasher, &mut digest);
    H256(digest)
}

} // verus!
