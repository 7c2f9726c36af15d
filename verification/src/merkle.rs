//! Sparse-Merkle-tree proof verification: recomputing a root from a leaf, a
//! 32-byte big-endian index, and a fixed-depth sibling path.
//!
//! The tree depth is a protocol constant: every proof carries exactly 255
//! sibling hashes, and the wire format's per-entry stride is derived from it.
//! The climb inspects one index bit per level, least-significant first: bit 0
//! of the last index byte decides whether the running hash is the left or the
//! right half of the next hash input, and the index is then shifted right by
//! one bit across the full 256-bit value.

use vstd::prelude::*;
use crate::JobError;
use crate::codec::MERKLE_ENTRY_BYTES;
use crate::codec::MerkleEntry;
use crate::codec::MerkleJob;
use crate::codec::decode_merkle_job;
use crate::codec::digest_field;
use crate::codec::merkle_buffer_ok;
use crate::codec::merkle_decode_ok;
use crate::codec::merkle_entry_decode_ok;
use crate::codec::repeat_field;
use crate::outputs::Outputs;
use crate::sha::sha256_of;
use crate::sha::sha256_hash;

verus! {

/// Number of levels climbed by every proof; the sibling path has exactly
/// this many 32-byte entries.
pub const MERKLE_DEPTH: usize = 255;

/// The least-significant bit of a 32-byte big-endian index: bit 0 of the
/// last byte. When set, the running hash is the right child at this level.
pub open spec fn index_lsb(idx: Seq<u8>) -> bool
    recommends
        idx.len() == 32,
{
    idx[31] & 1 == 1
}

/// One byte of a right-shifted index: `lo` shifted down one bit, with the
/// dropped bit of the more significant neighbour `hi` entering at the top.
pub open spec fn shr_carry(hi: u8, lo: u8) -> u8 {
    (lo >> 1) | (hi << 7)
}

/// A 32-byte big-endian index shifted right by one bit across the full
/// 256-bit value; the most significant bit of the result is zero.
pub open spec fn shr_index_spec(idx: Seq<u8>) -> Seq<u8>
    recommends
        idx.len() == 32,
{
    Seq::new(32, |i: int| if i == 0 { idx[0] >> 1 } else { shr_carry(idx[i - 1], idx[i]) })
}

/// One level of the climb: the running hash and the sibling are concatenated
/// in the order the index bit dictates, and hashed.
pub open spec fn merkle_step(current: Seq<u8>, sibling: Seq<u8>, right: bool) -> Seq<u8> {
    if right {
        sha256_of(sibling + current)
    } else {
        sha256_of(current + sibling)
    }
}

/// The candidate root reached by climbing from `current` through `siblings`,
/// consuming one index bit per level.
pub open spec fn merkle_climb(current: Seq<u8>, idx: Seq<u8>, siblings: Seq<Seq<u8>>) -> Seq<u8>
    decreases siblings.len(),
{
    if siblings.len() == 0 {
        current
    } else {
        merkle_climb(
            merkle_step(current, siblings[0], index_lsb(idx)),
            shr_index_spec(idx),
            siblings.drop_first(),
        )
    }
}

/// Shifts a 32-byte big-endian index right by one logical bit.
pub fn shr_index(index: &[u8; 32]) -> (shifted: [u8; 32])
    ensures
        shifted@ == shr_index_spec(index@),
{
    let mut shifted = [0u8; 32];
    shifted[0] = index[0] >> 1;
    let mut i: usize = 1;
    while i < 32
        invariant
            1 <= i <= 32,
            shifted@.len() == 32,
            shifted@[0] == index@[0] >> 1,
            forall|j: int| 1 <= j < i ==> shifted@[j] == shr_carry(index@[j - 1], index@[j]),
        decreases 32 - i,
    {
        shifted[i] = (index[i] >> 1) | (index[i - 1] << 7);
        i += 1;
    }
    proof {
        assert(shifted@ =~= shr_index_spec(index@));
    }
    shifted
}

/// Concatenates two 32-byte hashes into the 64-byte hash input for one level.
fn concat_pair(a: &[u8; 32], b: &[u8; 32]) -> (out: [u8; 64])
    ensures
        out@ == a@ + b@,
{
    let mut out = [0u8; 64];
    let mut i: usize = 0;
    while i < 32
        invariant
            0 <= i <= 32,
            out@.len() == 64,
            forall|j: int| 0 <= j < i ==> out@[j] == a@[j],
        decreases 32 - i,
    {
        out[i] = a[i];
        i += 1;
    }
    let mut k: usize = 0;
    while k < 32
        invariant
            0 <= k <= 32,
            out@.len() == 64,
            forall|j: int| 0 <= j < 32 ==> out@[j] == a@[j],
            forall|j: int| 0 <= j < k ==> out@[32 + j] == b@[j],
        decreases 32 - k,
    {
        out[32 + k] = b[k];
        k += 1;
    }
    proof {
        assert(out@ =~= a@ + b@);
    }
    out
}

/// Recomputes the candidate root for one proof entry by climbing the fixed
/// 255 levels from the leaf.
pub fn root_from_merkle_proof(leaf: &[u8; 32], index: &[u8; 32], path: &Vec<[u8; 32]>) -> (root: [
    u8; 32])
    requires
        path@.len() == MERKLE_DEPTH,
    ensures
        root@ == merkle_climb(leaf@, index@, path.deep_view()),
{
    let ghost all = path.deep_view();
    let mut idx: [u8; 32] = *index;
    let mut root: [u8; 32] = *leaf;
    let mut i: usize = 0;
    proof {
        assert(all.skip(0) =~= all);
    }
    while i < MERKLE_DEPTH
        invariant
            0 <= i <= MERKLE_DEPTH,
            path@.len() == MERKLE_DEPTH,
            all == path.deep_view(),
            merkle_climb(leaf@, index@, all) == merkle_climb(root@, idx@, all.skip(i as int)),
        decreases MERKLE_DEPTH - i,
    {
        let right = (idx[31] & 1) == 1;
        let sibling: [u8; 32] = path[i];
        let combined: [u8; 64] = if right {
            concat_pair(&sibling, &root)
        } else {
            concat_pair(&root, &sibling)
        };
        let next = sha256_hash(combined.as_slice());
        proof {
            let rest = all.skip(i as int);
            assert(rest.len() == MERKLE_DEPTH - i);
            assert(rest[0] == all[i as int]);
            assert(all[i as int] == path@[i as int]@);
            assert(next@ == merkle_step(root@, rest[0], index_lsb(idx@)));
            assert(rest.drop_first() =~= all.skip(i + 1));
        }
        root = next;
        idx = shr_index(&idx);
        i += 1;
    }
    proof {
        assert(all.skip(MERKLE_DEPTH as int) =~= Seq::<Seq<u8>>::empty());
    }
    root
}

/// Compares two 32-byte hashes.
fn arr32_eq(a: &[u8; 32], b: &[u8; 32]) -> (r: bool)
    ensures
        r == (a@ == b@),
{
    let mut i: usize = 0;
    while i < 32
        invariant
            0 <= i <= 32,
            forall|j: int| 0 <= j < i ==> a@[j] == b@[j],
        decreases 32 - i,
    {
        if a[i] != b[i] {
            return false;
        }
        i += 1;
    }
    proof {
        assert(a@ =~= b@);
    }
    true
}

/// Whether one proof entry passes: the climb from its leaf reaches `root`.
pub open spec fn entry_ok(e: MerkleEntry, root: Seq<u8>) -> bool {
    merkle_climb(e.leaf@, e.index@, e.siblings.deep_view()) == root
}

/// The outcome of checking the entries in order: a root mismatch at the
/// first failing entry, or nothing when every entry passes.
pub open spec fn merkle_outcome(entries: Seq<MerkleEntry>, root: Seq<u8>) -> Option<JobError>
    decreases entries.len(),
{
    if entries.len() == 0 {
        None
    } else if !entry_ok(entries[0], root) {
        Some(JobError::RootMismatch)
    } else {
        merkle_outcome(entries.drop_first(), root)
    }
}

/// The job succeeds exactly when every single entry's climb reaches the
/// root.
pub proof fn lemma_merkle_outcome_none_iff_all_ok(entries: Seq<MerkleEntry>, root: Seq<u8>)
    ensures
        merkle_outcome(entries, root) is None <==> forall|i: int|
            0 <= i < entries.len() ==> entry_ok(#[trigger] entries[i], root),
    decreases entries.len(),
{
    if entries.len() > 0 {
        lemma_merkle_outcome_none_iff_all_ok(entries.drop_first(), root);
        assert(forall|i: int|
            1 <= i < entries.len() ==> #[trigger] entries[i] == entries.drop_first()[i - 1]);
    }
}

/// Runs a Merkle job: recomputes each entry's candidate root and compares it
/// with the supplied root, aborting on the first mismatch. On success the
/// committed digest is the root itself.
pub fn run_merkle_job(job: &MerkleJob) -> (r: Result<Outputs, JobError>)
    requires
        job.wf(),
    ensures
        match r {
            Ok(out) => {
                &&& merkle_outcome(job.proofs@, job.root@) is None
                &&& out.hash_output@ == job.root@
                &&& out.num_iterations == job.repeat
            },
            Err(e) => merkle_outcome(job.proofs@, job.root@) == Some(e),
        },
{
    let ghost all = job.proofs@;
    proof {
        assert(all.skip(0) =~= all);
    }
    let n = job.proofs.len();
    let mut i: usize = 0;
    while i < n
        invariant
            0 <= i <= n,
            n == job.proofs@.len(),
            all == job.proofs@,
            job.wf(),
            merkle_outcome(all.skip(i as int), job.root@) == merkle_outcome(all, job.root@),
        decreases n - i,
    {
        let ghost rest = all.skip(i as int);
        proof {
            assert(rest[0] == all[i as int]);
        }
        let entry = &job.proofs[i];
        let candidate = root_from_merkle_proof(&entry.leaf, &entry.index, &entry.siblings);
        if !arr32_eq(&candidate, &job.root) {
            return Err(JobError::RootMismatch);
        }
        proof {
            assert(rest.drop_first() =~= all.skip(i as int + 1));
        }
        i += 1;
    }
    proof {
        assert(all.skip(n as int) =~= Seq::<MerkleEntry>::empty());
    }
    Ok(Outputs { hash_output: job.root, num_iterations: job.repeat })
}

/// Whether entry `i` of a raw Merkle buffer passes: the climb over the
/// entry's bytes reaches the root declared in the header.
pub open spec fn merkle_entry_passes(b: Seq<u8>, i: int) -> bool {
    let base = 37 + i * (MERKLE_ENTRY_BYTES as int);
    merkle_climb(
        b.subrange(base + 32, base + 64),
        b.subrange(base, base + 32),
        Seq::new(
            MERKLE_DEPTH as nat,
            |j: int| b.subrange(base + 64 + j * 32, base + 96 + j * 32),
        ),
    ) == digest_field(b)
}

/// The outcome determined by the raw buffer, from entry `k` on.
pub open spec fn merkle_buffer_outcome(b: Seq<u8>, k: int) -> Option<JobError>
    decreases repeat_field(b) - k,
{
    if k < 0 || k >= repeat_field(b) {
        None
    } else if !merkle_entry_passes(b, k) {
        Some(JobError::RootMismatch)
    } else {
        merkle_buffer_outcome(b, k + 1)
    }
}

/// A decoded entry holds exactly the bytes of its buffer slot, so both
/// climbs agree.
proof fn lemma_merkle_entry_bridge(b: Seq<u8>, e: MerkleEntry, i: int)
    requires
        merkle_entry_decode_ok(b, 37 + i * (MERKLE_ENTRY_BYTES as int), e),
    ensures
        entry_ok(e, digest_field(b)) == merkle_entry_passes(b, i),
{
    let base = 37 + i * (MERKLE_ENTRY_BYTES as int);
    let sv = e.siblings.deep_view();
    let bv = Seq::new(
        MERKLE_DEPTH as nat,
        |j: int| b.subrange(base + 64 + j * 32, base + 96 + j * 32),
    );
    assert forall|j: int| 0 <= j < MERKLE_DEPTH implies sv[j] == bv[j] by {
        assert(sv[j] == e.siblings@[j].deep_view());
        assert(e.siblings@[j].deep_view() =~= e.siblings@[j]@);
    }
    assert(sv =~= bv);
}

/// A decoded job checks the same entries the buffer holds, so both describe
/// the same outcome.
proof fn lemma_merkle_outcome_bridge(b: Seq<u8>, j: MerkleJob, k: int)
    requires
        merkle_decode_ok(b, j),
        0 <= k <= j.proofs@.len(),
    ensures
        merkle_outcome(j.proofs@.skip(k), digest_field(b)) == merkle_buffer_outcome(b, k),
    decreases j.proofs@.len() - k,
{
    let rest = j.proofs@.skip(k);
    if k < j.proofs@.len() {
        assert(rest[0] == j.proofs@[k]);
        lemma_merkle_entry_bridge(b, j.proofs@[k], k);
        assert(rest.drop_first() =~= j.proofs@.skip(k + 1));
        lemma_merkle_outcome_bridge(b, j, k + 1);
    }
}

/// Decodes and runs a Merkle job from a raw buffer whose byte 0 is the
/// opcode. Fails with `MalformedInput` exactly when the buffer is shorter
/// than its header declares; otherwise the outcome is decided by the first
/// entry whose recomputed root misses, if any.
pub fn execute_smt_proof(input: &[u8]) -> (r: Result<Outputs, JobError>)
    ensures
        !merkle_buffer_ok(input@) ==> r == Err::<Outputs, JobError>(JobError::MalformedInput),
        merkle_buffer_ok(input@) ==> match r {
            Ok(out) => {
                &&& merkle_buffer_outcome(input@, 0) is None
                &&& out.hash_output@ == digest_field(input@)
                &&& out.num_iterations == repeat_field(input@)
            },
            Err(e) => merkle_buffer_outcome(input@, 0) == Some(e),
        },
{
    match decode_merkle_job(input) {
        Ok(job) => {
            proof {
                assert(job.proofs@.skip(0) =~= job.proofs@);
                lemma_merkle_outcome_bridge(input@, job, 0);
            }
            run_merkle_job(&job)
        },
        Err(e) => Err(e),
    }
}

/// The hash chain got by repeatedly pairing a value with itself: step `n`
/// hashes the previous step's value concatenated with itself.
pub open spec fn self_chain(leaf: Seq<u8>, n: nat) -> Seq<u8>
    decreases n,
{
    if n == 0 {
        leaf
    } else {
        sha256_of(self_chain(leaf, (n - 1) as nat) + self_chain(leaf, (n - 1) as nat))
    }
}

/// Builds the synthetic balanced-tree fixture: the sibling at level `i` is
/// the i-th self-pairing hash of the leaf, and the returned root is the
/// 255th.
pub fn build_self_path(leaf: &[u8; 32]) -> (out: (Vec<[u8; 32]>, [u8; 32]))
    ensures
        out.0@.len() == MERKLE_DEPTH,
        forall|i: int| 0 <= i < MERKLE_DEPTH ==> (#[trigger] out.0@[i])@ == self_chain(
            leaf@,
            i as nat,
        ),
        out.1@ == self_chain(leaf@, MERKLE_DEPTH as nat),
{
    let mut sibs: Vec<[u8; 32]> = Vec::new();
    let mut hash: [u8; 32] = *leaf;
    let mut i: usize = 0;
    while i < MERKLE_DEPTH
        invariant
            0 <= i <= MERKLE_DEPTH,
            sibs@.len() == i,
            hash@ == self_chain(leaf@, i as nat),
            forall|k: int| 0 <= k < i ==> (#[trigger] sibs@[k])@ == self_chain(leaf@, k as nat),
        decreases MERKLE_DEPTH - i,
    {
        sibs.push(hash);
        let combined = concat_pair(&hash, &hash);
        hash = sha256_hash(combined.as_slice());
        i += 1;
    }
    (sibs, hash)
}

/// Helper for the self-pairing law, generalized over the starting level.
proof fn lemma_self_path_climb_from(leaf: Seq<u8>, idx: Seq<u8>, siblings: Seq<Seq<u8>>, k: nat)
    requires
        forall|i: int| 0 <= i < siblings.len() ==> #[trigger] siblings[i] == self_chain(
            leaf,
            (k + i) as nat,
        ),
    ensures
        merkle_climb(self_chain(leaf, k), idx, siblings) == self_chain(
            leaf,
            (k + siblings.len()) as nat,
        ),
    decreases siblings.len(),
{
    if siblings.len() > 0 {
        assert(siblings[0] == self_chain(leaf, k));
        assert(merkle_step(self_chain(leaf, k), siblings[0], index_lsb(idx)) == self_chain(
            leaf,
            (k + 1) as nat,
        ));
        assert(forall|i: int|
            0 <= i < siblings.len() - 1 ==> #[trigger] siblings.drop_first()[i] == siblings[i + 1]);
        lemma_self_path_climb_from(leaf, shr_index_spec(idx), siblings.drop_first(), k + 1);
    }
}

/// In a path whose sibling at every level equals the running hash — the
/// synthetic balanced-tree fixture — the climb reaches the self-pairing
/// chain's final value whatever the index bits are: with such a path the
/// left and the right concatenation coincide at every level.
pub proof fn lemma_self_path_climb(leaf: Seq<u8>, idx: Seq<u8>, siblings: Seq<Seq<u8>>)
    requires
        forall|i: int| 0 <= i < siblings.len() ==> #[trigger] siblings[i] == self_chain(
            leaf,
            i as nat,
        ),
    ensures
        merkle_climb(leaf, idx, siblings) == self_chain(leaf, siblings.len()),
{
    lemma_self_path_climb_from(leaf, idx, siblings, 0);
    assert(self_chain(leaf, 0) == leaf);
}

/// An entry whose sibling path is the self-pairing chain of its leaf — what
/// `build_self_path` returns — passes against exactly that chain's final
/// value, and its index plays no part in the outcome.
pub proof fn lemma_self_path_entry_ok(e: MerkleEntry, root: Seq<u8>)
    requires
        e.siblings@.len() == MERKLE_DEPTH,
        forall|i: int| 0 <= i < MERKLE_DEPTH ==> (#[trigger] e.siblings@[i])@ == self_chain(
            e.leaf@,
            i as nat,
        ),
    ensures
        entry_ok(e, root) <==> root == self_chain(e.leaf@, MERKLE_DEPTH as nat),
{
    let sv = e.siblings.deep_view();
    assert forall|i: int| 0 <= i < sv.len() implies #[trigger] sv[i] == self_chain(
        e.leaf@,
        i as nat,
    ) by {
        assert(sv[i] == e.siblings@[i].deep_view());
        assert(e.siblings@[i].deep_view() =~= e.siblings@[i]@);
    }
    lemma_self_path_climb(e.leaf@, e.index@, sv);
}

} // verus!
