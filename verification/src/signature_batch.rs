//! The signature-batch executor: strict ed25519 verification of `repeat`
//! (public key, signature) pairs against one shared 32-byte message digest.
//!
//! One bad entry invalidates the whole batch: the executor aborts on the
//! first public key that does not decode or the first signature that fails
//! strict verification, and commits only when every pair passes.

use vstd::prelude::*;
use crate::JobError;
use crate::codec::SignatureJob;
use crate::codec::SignaturePair;
use crate::codec::decode_signature_job;
use crate::codec::digest_field;
use crate::codec::repeat_field;
use crate::codec::sig_buffer_ok;
use crate::codec::sig_decode_ok;
use crate::codec::sig_key_at;
use crate::codec::sig_signature_at;
use crate::ed25519::check_signature_pair;
use crate::ed25519::key_decodes;
use crate::ed25519::strict_verifies;
use crate::outputs::Outputs;

verus! {

/// Whether one entry passes: its key decodes and its signature
/// strict-verifies over the shared digest.
pub open spec fn pair_ok(p: SignaturePair, digest: Seq<u8>) -> bool {
    key_decodes(p.public_key@) && strict_verifies(p.public_key@, digest, p.signature@)
}

/// The outcome of checking the pairs in order: the error of the first
/// failing entry, or nothing when every entry passes.
pub open spec fn batch_outcome(pairs: Seq<SignaturePair>, digest: Seq<u8>) -> Option<JobError>
    decreases pairs.len(),
{
    if pairs.len() == 0 {
        None
    } else if !key_decodes(pairs[0].public_key@) {
        Some(JobError::InvalidPublicKey)
    } else if !strict_verifies(pairs[0].public_key@, digest, pairs[0].signature@) {
        Some(JobError::SignatureMismatch)
    } else {
        batch_outcome(pairs.drop_first(), digest)
    }
}

/// The batch succeeds exactly when every single entry passes.
pub proof fn lemma_batch_outcome_none_iff_all_ok(pairs: Seq<SignaturePair>, digest: Seq<u8>)
    ensures
        batch_outcome(pairs, digest) is None <==> forall|i: int|
            0 <= i < pairs.len() ==> pair_ok(#[trigger] pairs[i], digest),
    decreases pairs.len(),
{
    if pairs.len() > 0 {
        lemma_batch_outcome_none_iff_all_ok(pairs.drop_first(), digest);
        assert(forall|i: int|
            1 <= i < pairs.len() ==> #[trigger] pairs[i] == pairs.drop_first()[i - 1]);
    }
}

/// The outcome determined by the raw buffer, from entry `k` on: the error of
/// the first failing entry, or nothing when all remaining entries pass.
pub open spec fn sig_buffer_outcome(b: Seq<u8>, k: int) -> Option<JobError>
    decreases repeat_field(b) - k,
{
    if k < 0 || k >= repeat_field(b) {
        None
    } else if !key_decodes(sig_key_at(b, k)) {
        Some(JobError::InvalidPublicKey)
    } else if !strict_verifies(sig_key_at(b, k), digest_field(b), sig_signature_at(b, k)) {
        Some(JobError::SignatureMismatch)
    } else {
        sig_buffer_outcome(b, k + 1)
    }
}

/// A decoded job checks the same entries the buffer holds, so both describe
/// the same outcome.
proof fn lemma_sig_outcome_bridge(b: Seq<u8>, j: SignatureJob, k: int)
    requires
        sig_decode_ok(b, j),
        0 <= k <= j.pairs@.len(),
    ensures
        batch_outcome(j.pairs@.skip(k), digest_field(b)) == sig_buffer_outcome(b, k),
    decreases j.pairs@.len() - k,
{
    let rest = j.pairs@.skip(k);
    if k < j.pairs@.len() {
        assert(rest[0] == j.pairs@[k]);
        assert(rest.drop_first() =~= j.pairs@.skip(k + 1));
        lemma_sig_outcome_bridge(b, j, k + 1);
    }
}

/// Runs a signature-batch job: checks every pair against the shared digest,
/// aborting on the first failure. On success the committed digest is the
/// shared message digest itself.
pub fn run_signature_job(job: &SignatureJob) -> (r: Result<Outputs, JobError>)
    requires
        job.wf(),
    ensures
        match r {
            Ok(out) => {
                &&& batch_outcome(job.pairs@, job.message_digest@) is None
                &&& out.hash_output@ == job.message_digest@
                &&& out.num_iterations == job.repeat
            },
            Err(e) => batch_outcome(job.pairs@, job.message_digest@) == Some(e),
        },
{
    let ghost all = job.pairs@;
    let ghost digest = job.message_digest@;
    proof {
        assert(all.skip(0) =~= all);
    }
    let n = job.pairs.len();
    let mut i: usize = 0;
    while i < n
        invariant
            0 <= i <= n,
            n == job.pairs@.len(),
            all == job.pairs@,
            digest == job.message_digest@,
            batch_outcome(all.skip(i as int), digest) == batch_outcome(all, digest),
        decreases n - i,
    {
        let ghost rest = all.skip(i as int);
        proof {
            assert(rest[0] == all[i as int]);
        }
        match check_signature_pair(
            &job.pairs[i].public_key,
            &job.message_digest,
            &job.pairs[i].signature,
        ) {
            Ok(_) => {},
            Err(e) => {
                return Err(e);
            },
        }
        proof {
            assert(rest.drop_first() =~= all.skip(i as int + 1));
        }
        i += 1;
    }
    proof {
        assert(all.skip(n as int) =~= Seq::<SignaturePair>::empty());
    }
    Ok(Outputs { hash_output: job.message_digest, num_iterations: job.repeat })
}

/// Decodes and runs a signature-batch job from a raw buffer whose byte 0 is
/// the opcode. Fails with `MalformedInput` exactly when the buffer is
/// shorter than its header declares; otherwise the outcome is decided by the
/// first failing entry, if any.
pub fn execute_signature(input: &[u8]) -> (r: Result<Outputs, JobError>)
    ensures
        !sig_buffer_ok(input@) ==> r == Err::<Outputs, JobError>(JobError::MalformedInput),
        sig_buffer_ok(input@) ==> match r {
            Ok(out) => {
                &&& sig_buffer_outcome(input@, 0) is None
                &&& out.hash_output@ == digest_field(input@)
                &&& out.num_iterations == repeat_field(input@)
            },
            Err(e) => sig_buffer_outcome(input@, 0) == Some(e),
        },
{
    match decode_signature_job(input) {
        Ok(job) => {
            proof {
                assert(job.pairs@.skip(0) =~= job.pairs@);
                lemma_sig_outcome_bridge(input@, job, 0);
            }
            run_signature_job(&job)
        },
        Err(e) => Err(e),
    }
}

} // verus!
