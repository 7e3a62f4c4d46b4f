//! BLAKE3 digests.

use vstd::prelude::*;

verus! {

/// An incremental BLAKE3 state.
#[verifier::external_type_specification]
#[verifier::external_body]
pub struct ExHasher(blake3::Hasher);

/// The bytes that a hasher has taken in so far.
pub uninterp spec fn hashed_bytes(hasher: blake3::Hasher) -> Seq<u8>;

/// The BLAKE3 digest of a byte sequence.
pub uninterp spec fn blake3_digest(input: Seq<u8>) -> Seq<u8>;

/// `blake3::Hasher::new` starts a hasher that has taken in nothing.
#[verifier::external_body]
pub(crate) fn hasher_new() -> (hasher: blake3::Hasher)
    ensures
        hashed_bytes(hasher) == Seq::<u8>::empty(),
{
    blake3::Hasher::new()
}

/// `blake3::Hasher::update` takes in further bytes after those before.
#[verifier::external_body]
pub(crate) fn hasher_update(hasher: &mut blake3::Hasher, bytes: &[u8])
    ensures
        hashed_bytes(*final(hasher)) == hashed_bytes(*old(hasher)) + bytes@,
{
    hasher.update(bytes);
}

/// `blake3::Hasher::finalize` gives the digest of everything taken in.
#[verifier::external_body]
pub(crate) fn hasher_finalize(hasher: &blake3::Hasher) -> (digest: [u8; 32])
    ensures
        digest@ == blake3_digest(hashed_bytes(*hasher)),
{
    *hasher.finalize().as_bytes()
}

/// The digest of a byte slice.
pub fn digest_bytes(bytes: &[u8]) -> (digest: [u8; 32])
    ensures
        digest@ == blake3_digest(bytes@),
{
    let mut hasher = hasher_new();
    hasher_update(&mut hasher, bytes);
    assert(hashed_bytes(hasher) =~= bytes@);
    hasher_finalize(&hasher)
}

} // verus!
