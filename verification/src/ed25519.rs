//! The ed25519 primitive the signature-batch executor uses: strict
//! verification of one signature over one message under one public key.

use vstd::prelude::*;
use crate::JobError;

verus! {

/// Whether 32 bytes decode to a valid ed25519 verifying key (a valid
/// compressed curve point). A function of the bytes alone.
pub uninterp spec fn key_decodes(key: Seq<u8>) -> bool;

/// Whether a 64-byte signature strict-verifies over `message` under the key
/// encoded by `key`. Strict verification also rejects signatures in
/// non-canonical encodings. A function of the three byte-strings alone.
pub uninterp spec fn strict_verifies(key: Seq<u8>, message: Seq<u8>, signature: Seq<u8>) -> bool;

/// Relies on ed25519_dalek: `VerifyingKey::from_bytes` (fails exactly on
/// bytes that are no valid compressed point), `Signature::from_bytes`
/// (infallible), and `VerifyingKey::verify_strict`. All three are
/// deterministic in their byte inputs.
#[verifier::external_body]
pub(crate) fn check_signature_pair(
    public_key: &[u8; 32],
    message: &[u8; 32],
    signature: &[u8; 64],
) -> (r: Result<(), JobError>)
    ensures
        (r is Ok) == (key_decodes(public_key@) && strict_verifies(public_key@, message@, signature@)),
        (r == Err::<(), JobError>(JobError::InvalidPublicKey)) == !key_decodes(public_key@),
        (r == Err::<(), JobError>(JobError::SignatureMismatch)) == (key_decodes(public_key@) && !strict_verifies(public_key@, message@, signature@)),
{
    match ed25519_dalek::VerifyingKey::from_bytes(public_key) {
        Ok(vk) => {
            let sig = ed25519_dalek::Signature::from_bytes(signature);
            match vk.verify_strict(message, &sig) {
                Ok(()) => Ok(()),
                Err(_) => Err(JobError::SignatureMismatch),
            }
        },
        Err(_) => Err(JobError::InvalidPublicKey),
    }
}

} // verus!
