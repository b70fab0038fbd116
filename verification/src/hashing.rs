//! The hash under which a listing is filed.

use vstd::prelude::*;

verus! {

/// A 256-bit digest: the key of a listing.
pub type ListingHash = [u8; 32];

/// The BLAKE2b-256 digest of `data`, as the runtime's `BlakeTwo256` hasher
/// computes it.
pub uninterp spec fn blake2_256(data: Seq<u8>) -> ListingHash;

/// Hashes `data` with `sp_runtime::traits::BlakeTwo256`.
///
/// Trusted: the hasher is a pure function of the bytes it is given (it
/// forwards to BLAKE2b with a 32-byte output and no key), so the digest it
/// returns is the one named `blake2_256(data@)`.
#[verifier::external_body]
pub(crate) fn hash_of(data: &Vec<u8>) -> (digest: ListingHash)
    ensures
        digest == blake2_256(data@),
{
    <sp_runtime::traits::BlakeTwo256 as sp_runtime::traits::Hash>::hash(data.as_slice()).to_fixed_bytes()
}

} // verus!
