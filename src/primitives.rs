//! The hashing primitive of the block format, taken from the `bitcoin` crate.

use bitcoin::hashes::sha256d;
use vstd::prelude::*;

verus! {

/// The bytes of the double SHA-256 digest of `data`.
pub uninterp spec fn sha256d_of(data: Seq<u8>) -> Seq<u8>;

/// Relies on `bitcoin::hashes::sha256d::Hash::hash`: the double SHA-256 of
/// `data`, which depends on the bytes of `data` alone.
#[verifier::external_body]
pub(crate) fn sha256d(data: &[u8]) -> (r: [u8; 32])
    ensures
        r@ == sha256d_of(data@),
{
    bitcoin::hashes::Hash::into_inner(<sha256d::Hash as bitcoin::hashes::Hash>::hash(data))
}

} // verus!
