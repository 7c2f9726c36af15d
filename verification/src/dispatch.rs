//! The opcode dispatcher: byte 0 of the input buffer selects the executor
//! that the rest of the buffer is handed to.

use vstd::prelude::*;
use crate::JobError;
use crate::OP_HASH_8K;
use crate::OP_SIGNATURE;
use crate::OP_SMT_PROOF;
use crate::codec::digest_field;
use crate::codec::hash_buffer_ok;
use crate::codec::hash_chunk_at;
use crate::codec::merkle_buffer_ok;
use crate::codec::repeat_field;
use crate::codec::sig_buffer_ok;
use crate::hash_chain::execute_hash_8k;
use crate::hash_chain::zero_digest;
use crate::merkle::execute_smt_proof;
use crate::merkle::merkle_buffer_outcome;
use crate::outputs::Outputs;
use crate::sha::sha256_of;
use crate::signature_batch::execute_signature;
use crate::signature_batch::sig_buffer_outcome;

verus! {

/// One whole guest invocation: reads the opcode and runs the matching
/// executor on the buffer. An empty buffer is malformed, and an opcode
/// outside the three known values is an explicit, observable outcome rather
/// than a silent no-op.
pub fn execute_job(input: &[u8]) -> (r: Result<Outputs, JobError>)
    ensures
        input@.len() == 0 ==> r == Err::<Outputs, JobError>(JobError::MalformedInput),
        input@.len() > 0 && input@[0] != OP_HASH_8K && input@[0] != OP_SIGNATURE && input@[0]
            != OP_SMT_PROOF ==> r == Err::<Outputs, JobError>(JobError::UnrecognizedOpcode),
        input@.len() > 0 && input@[0] == OP_HASH_8K ==> {
            &&& (r is Ok <==> hash_buffer_ok(input@))
            &&& (!hash_buffer_ok(input@) ==> r == Err::<Outputs, JobError>(
                JobError::MalformedInput,
            ))
            &&& (r matches Ok(out) ==> {
                &&& out.num_iterations == repeat_field(input@)
                &&& repeat_field(input@) >= 1 ==> out.hash_output@ == sha256_of(
                    hash_chunk_at(input@, repeat_field(input@) - 1),
                )
                &&& repeat_field(input@) == 0 ==> out.hash_output@ == zero_digest()
            })
        },
        input@.len() > 0 && input@[0] == OP_SIGNATURE ==> {
            &&& (!sig_buffer_ok(input@) ==> r == Err::<Outputs, JobError>(
                JobError::MalformedInput,
            ))
            &&& (sig_buffer_ok(input@) ==> match r {
                Ok(out) => {
                    &&& sig_buffer_outcome(input@, 0) is None
                    &&& out.hash_output@ == digest_field(input@)
                    &&& out.num_iterations == repeat_field(input@)
                },
                Err(e) => sig_buffer_outcome(input@, 0) == Some(e),
            })
        },
        input@.len() > 0 && input@[0] == OP_SMT_PROOF ==> {
            &&& (!merkle_buffer_ok(input@) ==> r == Err::<Outputs, JobError>(
                JobError::MalformedInput,
            ))
            &&& (merkle_buffer_ok(input@) ==> match r {
                Ok(out) => {
                    &&& merkle_buffer_outcome(input@, 0) is None
                    &&& out.hash_output@ == digest_field(input@)
                    &&& out.num_iterations == repeat_field(input@)
                },
                Err(e) => merkle_buffer_outcome(input@, 0) == Some(e),
            })
        },
{
    if input.len() == 0 {
        return Err(JobError::MalformedInput);
    }
    let op = input[0];
    if op == OP_HASH_8K {
        execute_hash_8k(input)
    } else if op == OP_SIGNATURE {
        execute_signature(input)
    } else if op == OP_SMT_PROOF {
        execute_smt_proof(input)
    } else {
        Err(JobError::UnrecognizedOpcode)
    }
}

} // verus!
