//! The output record and its canonical 36-byte serialization.

use vstd::prelude::*;
use vstd::bytes::spec_u32_to_le_bytes;
use vstd::bytes::u32_to_le_bytes;

verus! {

/// The sole externally visible result of an invocation: a 32-byte digest
/// (final chain hash, message digest, or Merkle root, depending on the
/// opcode) and the number of repetitions processed.
#[derive(Clone, Copy, Debug, PartialEq, Eq)]
pub struct Outputs {
    pub hash_output: [u8; 32],
    pub num_iterations: u32,
}

/// The canonical serialized form of an output record: the 32 digest bytes
/// followed by the iteration count as 4 little-endian bytes.
pub open spec fn outputs_bytes(digest: Seq<u8>, iterations: u32) -> Seq<u8> {
    digest + spec_u32_to_le_bytes(iterations)
}

impl Outputs {
    /// Serializes the record into its canonical 36-byte layout, the form in
    /// which it is committed as the invocation's public result.
    pub fn serialize(&self) -> (out: Vec<u8>)
        ensures
            out@ == outputs_bytes(self.hash_output@, self.num_iterations),
            out@.len() == 36,
    {
        let mut out: Vec<u8> = Vec::new();
        out.extend_from_slice(self.hash_output.as_slice());
        let mut tail = u32_to_le_bytes(self.num_iterations);
        out.append(&mut tail);
        proof {
            vstd::bytes::lemma_auto_spec_u32_to_from_le_bytes();
        }
        out
    }

    /// Reads a canonical 36-byte record back into its structured form, as an
    /// external verifier does with the committed result. Anything but
    /// exactly 36 bytes is no record.
    pub fn deserialize(bytes: &[u8]) -> (r: Option<Outputs>)
        ensures
            bytes@.len() == 36 ==> (r matches Some(out) && outputs_bytes(
                out.hash_output@,
                out.num_iterations,
            ) == bytes@),
            bytes@.len() != 36 ==> r is None,
    {
        if bytes.len() != 36 {
            return None;
        }
        let hash_output = crate::codec::read_arr32(bytes, 0);
        let num_iterations = vstd::bytes::u32_from_le_bytes(
            vstd::slice::slice_subrange(bytes, 32, 36),
        );
        proof {
            vstd::bytes::lemma_auto_spec_u32_to_from_le_bytes();
            assert(outputs_bytes(hash_output@, num_iterations) =~= bytes@);
        }
        Some(Outputs { hash_output, num_iterations })
    }
}

/// Round trip: serializing an output record and reading it back yields the
/// record itself — the committed 36 bytes determine the structured result.
pub proof fn lemma_outputs_record_round_trip(a: Outputs, d: Outputs)
    requires
        outputs_bytes(d.hash_output@, d.num_iterations) == outputs_bytes(
            a.hash_output@,
            a.num_iterations,
        ),
    ensures
        d == a,
{
    vstd::bytes::lemma_auto_spec_u32_to_from_le_bytes();
    let b = outputs_bytes(a.hash_output@, a.num_iterations);
    assert(a.hash_output@ =~= b.subrange(0, 32));
    assert(d.hash_output@ =~= b.subrange(0, 32));
    assert(a.hash_output =~= d.hash_output);
    assert(spec_u32_to_le_bytes(a.num_iterations) =~= b.subrange(32, 36));
    assert(spec_u32_to_le_bytes(d.num_iterations) =~= b.subrange(32, 36));
    assert(vstd::bytes::spec_u32_from_le_bytes(spec_u32_to_le_bytes(a.num_iterations))
        == vstd::bytes::spec_u32_from_le_bytes(spec_u32_to_le_bytes(d.num_iterations)));
}

} // verus!
