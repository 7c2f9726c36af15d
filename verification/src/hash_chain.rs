//! The hash-chain executor: SHA-256 over each chunk in turn, keeping only
//! the digest of the last chunk.
//!
//! Each chunk's digest overwrites the previous one; nothing is carried from
//! one chunk into the next. The committed digest is therefore the hash of
//! the final chunk alone, whatever the earlier chunks hold. This is
//! deliberate protocol behaviour and must stay byte-exact: committed outputs
//! have to match what external verifiers already accept.

use vstd::prelude::*;
use crate::JobError;
use crate::codec::HashJob;
use crate::codec::decode_hash_job;
use crate::codec::hash_buffer_ok;
use crate::codec::hash_chunk_at;
use crate::codec::repeat_field;
use crate::outputs::Outputs;
use crate::sha::sha256_of;
use crate::sha::sha256_hash;

verus! {

/// The all-zero digest reported for a job with no repetitions.
pub open spec fn zero_digest() -> Seq<u8> {
    Seq::new(32, |i: int| 0u8)
}

/// The digest a hash-chain job commits: SHA-256 of its last chunk.
pub open spec fn hash_job_digest(chunks: Seq<Seq<u8>>) -> Seq<u8>
    recommends
        chunks.len() > 0,
{
    sha256_of(chunks.last())
}

/// The committed digest depends on the last chunk alone: two jobs whose
/// final chunks agree commit the same digest, whatever their earlier chunks
/// hold.
pub proof fn lemma_digest_ignores_earlier_chunks(c1: Seq<Seq<u8>>, c2: Seq<Seq<u8>>)
    requires
        c1.len() > 0,
        c2.len() > 0,
        c1.last() == c2.last(),
    ensures
        hash_job_digest(c1) == hash_job_digest(c2),
{
}

/// Runs a hash-chain job: hashes each chunk in order and reports the digest
/// of the last one, or the all-zero digest when there are no repetitions.
pub fn run_hash_job(job: &HashJob) -> (out: Outputs)
    requires
        job.wf(),
    ensures
        out.num_iterations == job.repeat,
        job.repeat >= 1 ==> out.hash_output@ == sha256_of(job.chunks@[job.repeat - 1]@),
        job.repeat == 0 ==> out.hash_output@ == zero_digest(),
{
    let mut result = [0u8; 32];
    proof {
        assert(result@ =~= zero_digest());
    }
    let n = job.chunks.len();
    let mut i: usize = 0;
    while i < n
        invariant
            0 <= i <= n,
            n == job.chunks@.len(),
            i == 0 ==> result@ == zero_digest(),
            i >= 1 ==> result@ == sha256_of(job.chunks@[i - 1]@),
        decreases n - i,
    {
        result = sha256_hash(job.chunks[i].as_slice());
        i += 1;
    }
    Outputs { hash_output: result, num_iterations: job.repeat }
}

/// Decodes and runs a hash-chain job from a raw buffer whose byte 0 is the
/// opcode. Fails exactly when the buffer is shorter than its header
/// declares; a decodable job always commits.
pub fn execute_hash_8k(input: &[u8]) -> (r: Result<Outputs, JobError>)
    ensures
        r is Ok <==> hash_buffer_ok(input@),
        !hash_buffer_ok(input@) ==> r == Err::<Outputs, JobError>(JobError::MalformedInput),
        r matches Ok(out) ==> {
            &&& out.num_iterations == repeat_field(input@)
            &&& repeat_field(input@) >= 1 ==> out.hash_output@ == sha256_of(
                hash_chunk_at(input@, repeat_field(input@) - 1),
            )
            &&& repeat_field(input@) == 0 ==> out.hash_output@ == zero_digest()
        },
{
    match decode_hash_job(input) {
        Ok(job) => Ok(run_hash_job(&job)),
        Err(e) => Err(e),
    }
}

} // verus!
