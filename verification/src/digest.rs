//! Digests of byte strings.

use vstd::prelude::*;

verus! {

/// The SHA-256 digest of a byte string.
pub uninterp spec fn sha256_of(s: Seq<u8>) -> Seq<u8>;

/// `sha2::Sha256` through `Digest::chain_update` and `Digest::finalize`: the
/// digest of three byte strings one after the other, 32 bytes long. Feeding
/// the hasher piece by piece gives the digest of the pieces put together; what
/// the digest of a string is stays with the name.
#[verifier::external_body]
pub(crate) fn sha256(a: &[u8], b: &[u8], c: &[u8]) -> (r: Vec<u8>)
    ensures
        r@ == sha256_of(a@ + b@ + c@),
        r@.len() == 32,
{
    let hasher = <sha2::Sha256 as sha2::Digest>::new();
    let hasher = sha2::Digest::chain_update(hasher, a);
    let hasher = sha2::Digest::chain_update(hasher, b);
    let hasher = sha2::Digest::chain_update(hasher, c);
    sha2::Digest::finalize(hasher).to_vec()
}

} // verus!
