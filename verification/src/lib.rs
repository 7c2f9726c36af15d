//! Guest-side execution engine for three cryptographic verification
//! workloads: repeated SHA-256 hashing over fixed-size chunks, batch
//! verification of ed25519 signatures against one shared message digest, and
//! sparse-Merkle-tree inclusion-proof checking against a fixed root.
//!
//! A flat input buffer carries one job: a leading opcode byte selects the
//! workload, and the rest of the buffer is the job's fields in a fixed
//! little-endian layout. The engine decodes the buffer, runs the selected
//! executor, and packages the result as a canonical 36-byte output record.

use vstd::prelude::*;

pub mod codec;
pub mod dispatch;
pub mod ed25519;
pub mod hash_chain;
pub mod merkle;
pub mod signature_batch;
pub mod outputs;
pub mod sha;

verus! {

/// Opcode selecting the SHA-256 hash-chain workload.
pub const OP_HASH_8K: u8 = 0;

/// Opcode selecting the ed25519 signature-batch workload.
pub const OP_SIGNATURE: u8 = 1;

/// Opcode selecting the sparse-Merkle-tree proof workload.
pub const OP_SMT_PROOF: u8 = 2;

/// Why an invocation aborted without committing an output record.
#[derive(Clone, Copy, Debug, PartialEq, Eq, Structural)]
pub enum JobError {
    /// The input buffer is shorter than its declared counts require.
    MalformedInput,
    /// The leading opcode byte selects none of the three workloads.
    UnrecognizedOpcode,
    /// A public key's 32 bytes do not decode to a valid curve point.
    InvalidPublicKey,
    /// A signature fails strict verification against the message digest.
    SignatureMismatch,
    /// A recomputed Merkle root differs from the supplied root.
    RootMismatch,
}

} // verus!
