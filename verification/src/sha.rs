//! The one hashing primitive the engine uses: SHA-256 over a byte slice.

use vstd::prelude::*;

verus! {

/// The SHA-256 digest of a byte sequence, as the 32-byte sequence the
/// audited implementation returns. The digest is a function of the input
/// bytes alone; its value is not stated here.
pub uninterp spec fn sha256_of(data: Seq<u8>) -> Seq<u8>;

/// Relies on sha2::Sha256 (through the Digest trait's one-shot `digest`):
/// the returned 32 bytes depend on the input bytes alone.
#[verifier::external_body]
pub(crate) fn sha256_hash(data: &[u8]) -> (r: [u8; 32])
    ensures
        r@ == sha256_of(data@),
{
    <sha2::Sha256 as sha2::Digest>::digest(data).into()
}

} // verus!
