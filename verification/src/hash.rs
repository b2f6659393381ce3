//! SHA-256 through the `sha2` crate's incremental hasher.
//!
//! Nothing here is proved: the hasher is opaque, and the contracts below say
//! what the crate documents of it. The verified code that feeds a buffer to
//! the hasher chunk by chunk is proved against these contracts.

use vstd::prelude::*;

verus! {

/// `sha2::Sha256`, the crate's incremental SHA-256 hasher. Nothing inside it
/// is visible to the proofs.
#[verifier::external_type_specification]
#[verifier::external_body]
pub struct ExSha256(sha2::Sha256);

/// The bytes that a hasher has been fed since it was made, in the order in
/// which they were fed.
pub uninterp spec fn absorbed(hasher: sha2::Sha256) -> Seq<u8>;

/// The SHA-256 digest of a message.
pub uninterp spec fn sha256_digest(message: Seq<u8>) -> Seq<u8>;

/// `sha2::Digest::new` for `Sha256`: a hasher that has been fed nothing.
#[verifier::external_body]
pub(crate) fn hasher_new() -> (hasher: sha2::Sha256)
    ensures
        absorbed(hasher) == Seq::<u8>::empty(),
{
    <sha2::Sha256 as sha2::Digest>::new()
}

/// `sha2::Digest::update` for `Sha256`: the hasher has been fed `chunk` after
/// what it had been fed before.
#[verifier::external_body]
pub(crate) fn hasher_update(hasher: &mut sha2::Sha256, chunk: &[u8])
    ensures
        absorbed(*final(hasher)) == absorbed(*old(hasher)) + chunk@,
{
    sha2::Digest::update(hasher, chunk)
}

/// `sha2::Digest::finalize` for `Sha256`: the 32-byte digest of everything
/// the hasher has been fed.
#[verifier::external_body]
pub(crate) fn hasher_finalize(hasher: sha2::Sha256) -> (digest: [u8; 32])
    ensures
        digest@ == sha256_digest(absorbed(hasher)),
{
    sha2::Digest::finalize(hasher).into()
}

} // verus!
