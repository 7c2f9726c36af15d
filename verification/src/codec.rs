//! Codec for the flat job buffer: strongly-typed job descriptors, the byte
//! layout each one encodes to, and the decoder that reads a buffer back into
//! a descriptor.
//!
//! Layout (all integers little-endian): byte 0 is the opcode; bytes 1..5 are
//! the `repeat` count. The hash-chain job continues with `chunk_size` at
//! bytes 5..9 and then `repeat` raw chunks of `chunk_size` bytes each. The
//! signature job continues with the 32-byte message digest and then `repeat`
//! 96-byte (public key, signature) entries. The Merkle job continues with
//! the 32-byte root and then `repeat` 8224-byte entries, each an index, a
//! leaf, and exactly 255 sibling hashes. The decoder validates nothing
//! beyond bounds: it trusts the declared counts and reads exactly that many
//! bytes, failing only when the buffer is too short.

use vstd::prelude::*;
use vstd::arithmetic::mul::lemma_mul_inequality;
use vstd::bytes::spec_u32_from_le_bytes;
use vstd::bytes::spec_u32_to_le_bytes;
use crate::JobError;
use crate::merkle::MERKLE_DEPTH;

verus! {

/// Byte width of one (public key, signature) entry.
pub const SIG_ENTRY_BYTES: usize = 96;

/// Byte width of one Merkle proof entry: index, leaf, and 255 siblings.
pub const MERKLE_ENTRY_BYTES: usize = 8224;

/// A hash-chain job: `repeat` chunks of exactly `chunk_size` bytes each.
#[derive(Clone, Debug, PartialEq, Eq)]
pub struct HashJob {
    pub repeat: u32,
    pub chunk_size: u32,
    pub chunks: Vec<Vec<u8>>,
}

impl HashJob {
    /// The declared counts match what is present: one chunk per repetition,
    /// each of exactly the declared size.
    pub open spec fn wf(&self) -> bool {
        &&& self.chunks@.len() == self.repeat
        &&& forall|i: int|
            0 <= i < self.chunks@.len() ==> (#[trigger] self.chunks@[i])@.len()
                == self.chunk_size
    }
}

/// One (public key, signature) entry of a signature-batch job.
#[derive(Clone, Copy, Debug, PartialEq, Eq)]
pub struct SignaturePair {
    pub public_key: [u8; 32],
    pub signature: [u8; 64],
}

/// A signature-batch job: `repeat` pairs checked against one shared digest.
#[derive(Clone, Debug, PartialEq, Eq)]
pub struct SignatureJob {
    pub repeat: u32,
    pub message_digest: [u8; 32],
    pub pairs: Vec<SignaturePair>,
}

impl SignatureJob {
    /// The declared count matches what is present: one pair per repetition.
    pub open spec fn wf(&self) -> bool {
        self.pairs@.len() == self.repeat
    }
}

/// One entry of a Merkle job: a leaf, its 32-byte big-endian index, and the
/// fixed-depth sibling path.
#[derive(Clone, Debug, PartialEq, Eq)]
pub struct MerkleEntry {
    pub index: [u8; 32],
    pub leaf: [u8; 32],
    pub siblings: Vec<[u8; 32]>,
}

impl MerkleEntry {
    /// Every entry carries exactly the protocol's 255 sibling hashes.
    pub open spec fn wf(&self) -> bool {
        self.siblings@.len() == MERKLE_DEPTH
    }
}

/// A Merkle job: `repeat` proof entries checked against one shared root.
#[derive(Clone, Debug, PartialEq, Eq)]
pub struct MerkleJob {
    pub repeat: u32,
    pub root: [u8; 32],
    pub proofs: Vec<MerkleEntry>,
}

impl MerkleJob {
    /// The declared count matches what is present, and every entry carries
    /// the full sibling path.
    pub open spec fn wf(&self) -> bool {
        &&& self.proofs@.len() == self.repeat
        &&& forall|i: int| 0 <= i < self.proofs@.len() ==> (#[trigger] self.proofs@[i]).wf()
    }
}

/// One of the three job descriptors a buffer can encode.
#[derive(Clone, Debug, PartialEq, Eq)]
pub enum JobDescriptor {
    Hash(HashJob),
    Signature(SignatureJob),
    Merkle(MerkleJob),
}

/// All the byte-strings of `parts`, concatenated in order with no padding.
pub open spec fn concat_all(parts: Seq<Seq<u8>>) -> Seq<u8>
    decreases parts.len(),
{
    if parts.len() == 0 {
        Seq::empty()
    } else {
        concat_all(parts.drop_last()) + parts.last()
    }
}

/// Concatenating `parts` of a uniform width yields `parts.len() * width`
/// bytes.
pub proof fn lemma_concat_all_len_uniform(parts: Seq<Seq<u8>>, width: int)
    requires
        width >= 0,
        forall|i: int| 0 <= i < parts.len() ==> (#[trigger] parts[i]).len() == width,
    ensures
        concat_all(parts).len() == parts.len() * width,
    decreases parts.len(),
{
    if parts.len() == 0 {
    } else {
        lemma_concat_all_len_uniform(parts.drop_last(), width);
        assert((parts.len() - 1) * width + width == parts.len() * width) by (nonlinear_arith);
    }
}

/// In a concatenation of uniform-width parts, part `k` occupies bytes
/// `k * width` up to `(k + 1) * width`.
pub proof fn lemma_concat_all_index_uniform(parts: Seq<Seq<u8>>, width: int, k: int)
    requires
        width >= 0,
        forall|i: int| 0 <= i < parts.len() ==> (#[trigger] parts[i]).len() == width,
        0 <= k < parts.len(),
    ensures
        concat_all(parts).subrange(k * width, (k + 1) * width) == parts[k],
    decreases parts.len(),
{
    let n = parts.len() as int;
    let prefix = parts.drop_last();
    lemma_concat_all_len_uniform(prefix, width);
    lemma_concat_all_len_uniform(parts, width);
    if k == n - 1 {
        assert(k * width == concat_all(prefix).len()) by (nonlinear_arith)
            requires
                concat_all(prefix).len() == (n - 1) * width,
                k == n - 1,
        ;
        assert((k + 1) * width == k * width + width) by (nonlinear_arith);
        assert(concat_all(parts).subrange(k * width, (k + 1) * width) =~= parts[k]);
    } else {
        lemma_concat_all_index_uniform(prefix, width, k);
        lemma_mul_inequality(k + 1, n - 1, width);
        vstd::arithmetic::mul::lemma_mul_nonnegative(k, width);
        assert((k + 1) * width == k * width + width) by (nonlinear_arith);
        assert(concat_all(parts).subrange(k * width, (k + 1) * width) =~= concat_all(
            prefix,
        ).subrange(k * width, (k + 1) * width));
        assert(prefix[k] == parts[k]);
    }
}

/// The declared repetition count of any job buffer: bytes 1..5.
pub open spec fn repeat_field(b: Seq<u8>) -> u32
    recommends
        b.len() >= 5,
{
    spec_u32_from_le_bytes(b.subrange(1, 5))
}

/// The declared chunk size of a hash-chain buffer: bytes 5..9.
pub open spec fn chunk_size_field(b: Seq<u8>) -> u32
    recommends
        b.len() >= 9,
{
    spec_u32_from_le_bytes(b.subrange(5, 9))
}

/// A hash-chain buffer holds its 9-byte header and all the chunk bytes the
/// header declares.
pub open spec fn hash_buffer_ok(b: Seq<u8>) -> bool {
    &&& b.len() >= 9
    &&& b.len() >= 9 + repeat_field(b) * chunk_size_field(b)
}

/// Chunk `i` of a hash-chain buffer: `chunk_size` bytes starting at offset
/// `9 + i * chunk_size`.
pub open spec fn hash_chunk_at(b: Seq<u8>, i: int) -> Seq<u8> {
    let w = chunk_size_field(b) as int;
    b.subrange(9 + i * w, 9 + (i + 1) * w)
}

/// What decoding a hash-chain buffer yields: the header's two counts and one
/// chunk per repetition, read from consecutive offsets.
pub open spec fn hash_decode_ok(b: Seq<u8>, j: HashJob) -> bool {
    &&& j.repeat == repeat_field(b)
    &&& j.chunk_size == chunk_size_field(b)
    &&& j.chunks@.len() == j.repeat
    &&& forall|k: int| 0 <= k < j.repeat ==> (#[trigger] j.chunks@[k])@ == hash_chunk_at(b, k)
}

/// The encoding of a hash-chain job: opcode, repeat, chunk size, then the
/// chunks concatenated with no padding.
pub open spec fn hash_job_bytes(repeat: u32, chunk_size: u32, chunks: Seq<Seq<u8>>) -> Seq<u8> {
    seq![crate::OP_HASH_8K] + spec_u32_to_le_bytes(repeat) + spec_u32_to_le_bytes(chunk_size)
        + concat_all(chunks)
}

/// Reads the little-endian u32 at `offset`.
fn read_u32_at(input: &[u8], offset: usize) -> (r: u32)
    requires
        offset + 4 <= input@.len(),
    ensures
        r == spec_u32_from_le_bytes(input@.subrange(offset as int, offset as int + 4)),
{
    let _len = input.len();
    vstd::bytes::u32_from_le_bytes(vstd::slice::slice_subrange(input, offset, offset + 4))
}

/// Copies the 32 bytes at `offset` into a fixed array.
pub(crate) fn read_arr32(input: &[u8], offset: usize) -> (r: [u8; 32])
    requires
        offset + 32 <= input@.len(),
    ensures
        r@ == input@.subrange(offset as int, offset as int + 32),
{
    let _len = input.len();
    let mut r = [0u8; 32];
    let mut i: usize = 0;
    while i < 32
        invariant
            0 <= i <= 32,
            input@.len() <= usize::MAX,
            offset + 32 <= input@.len(),
            r@.len() == 32,
            forall|j: int| 0 <= j < i ==> r@[j] == input@[offset + j],
        decreases 32 - i,
    {
        r[i] = input[offset + i];
        i += 1;
    }
    proof {
        assert(r@ =~= input@.subrange(offset as int, offset as int + 32));
    }
    r
}

/// Copies the 64 bytes at `offset` into a fixed array.
fn read_arr64(input: &[u8], offset: usize) -> (r: [u8; 64])
    requires
        offset + 64 <= input@.len(),
    ensures
        r@ == input@.subrange(offset as int, offset as int + 64),
{
    let _len = input.len();
    let mut r = [0u8; 64];
    let mut i: usize = 0;
    while i < 64
        invariant
            0 <= i <= 64,
            input@.len() <= usize::MAX,
            offset + 64 <= input@.len(),
            r@.len() == 64,
            forall|j: int| 0 <= j < i ==> r@[j] == input@[offset + j],
        decreases 64 - i,
    {
        r[i] = input[offset + i];
        i += 1;
    }
    proof {
        assert(r@ =~= input@.subrange(offset as int, offset as int + 64));
    }
    r
}

/// Decodes a hash-chain job from a buffer whose byte 0 is the opcode. The
/// declared counts are trusted; the only check is that the buffer holds as
/// many bytes as they require.
pub fn decode_hash_job(input: &[u8]) -> (r: Result<HashJob, JobError>)
    ensures
        r is Ok <==> hash_buffer_ok(input@),
        r matches Ok(j) ==> j.wf() && hash_decode_ok(input@, j),
        r matches Err(e) ==> e == JobError::MalformedInput,
{
    if input.len() < 9 {
        return Err(JobError::MalformedInput);
    }
    let repeat = read_u32_at(input, 1);
    let chunk_size = read_u32_at(input, 5);
    proof {
        assert((repeat as u64) * (chunk_size as u64) <= 0xffff_ffff * 0xffff_ffffu64)
            by (nonlinear_arith)
            requires
                repeat <= 0xffff_ffffu32,
                chunk_size <= 0xffff_ffffu32,
        ;
    }
    let need: u64 = 9u64 + (repeat as u64) * (chunk_size as u64);
    if (input.len() as u64) < need {
        return Err(JobError::MalformedInput);
    }
    let w = chunk_size as usize;
    let n = repeat as usize;
    let mut chunks: Vec<Vec<u8>> = Vec::new();
    let mut i: usize = 0;
    while i < n
        invariant
            0 <= i <= n,
            n == repeat,
            w == chunk_size,
            repeat == repeat_field(input@),
            chunk_size == chunk_size_field(input@),
            input@.len() <= usize::MAX,
            input@.len() >= 9 + (repeat as int) * (chunk_size as int),
            chunks@.len() == i,
            forall|k: int| 0 <= k < i ==> (#[trigger] chunks@[k])@ == hash_chunk_at(input@, k),
            forall|k: int| 0 <= k < i ==> (#[trigger] chunks@[k])@.len() == chunk_size,
        decreases n - i,
    {
        proof {
            lemma_mul_inequality(i as int + 1, repeat as int, chunk_size as int);
            vstd::arithmetic::mul::lemma_mul_nonnegative(i as int, chunk_size as int);
            assert((i as int + 1) * (chunk_size as int) == i as int * (chunk_size as int)
                + chunk_size as int) by (nonlinear_arith);
        }
        let start = 9 + i * w;
        let chunk = vstd::slice::slice_to_vec(vstd::slice::slice_subrange(input, start, start + w));
        chunks.push(chunk);
        i += 1;
    }
    Ok(HashJob { repeat, chunk_size, chunks })
}

/// Encodes a hash-chain job into the flat buffer layout the decoder reads.
pub fn encode_hash_job(job: &HashJob) -> (out: Vec<u8>)
    requires
        job.wf(),
    ensures
        out@ == hash_job_bytes(job.repeat, job.chunk_size, job.chunks.deep_view()),
{
    let mut out: Vec<u8> = Vec::new();
    out.push(crate::OP_HASH_8K);
    let mut rep = vstd::bytes::u32_to_le_bytes(job.repeat);
    out.append(&mut rep);
    let mut csz = vstd::bytes::u32_to_le_bytes(job.chunk_size);
    out.append(&mut csz);
    let ghost header = out@;
    let ghost dv = job.chunks.deep_view();
    proof {
        assert(dv.take(0) =~= Seq::<Seq<u8>>::empty());
        assert(out@ =~= header + concat_all(dv.take(0)));
    }
    let n = job.chunks.len();
    let mut i: usize = 0;
    while i < n
        invariant
            0 <= i <= n,
            n == job.chunks@.len(),
            dv == job.chunks.deep_view(),
            out@ == header + concat_all(dv.take(i as int)),
        decreases n - i,
    {
        proof {
            assert(dv[i as int] == job.chunks@[i as int]@);
        }
        out.extend_from_slice(job.chunks[i].as_slice());
        proof {
            assert(dv.take(i as int + 1).drop_last() =~= dv.take(i as int));
            assert(dv.take(i as int + 1).last() == dv[i as int]);
            assert(concat_all(dv.take(i as int + 1)) == concat_all(dv.take(i as int))
                + dv[i as int]);
        }
        i += 1;
    }
    proof {
        assert(dv.take(n as int) =~= dv);
        assert(header + concat_all(dv) =~= hash_job_bytes(job.repeat, job.chunk_size, dv));
    }
    out
}

/// The 32-byte field at offset 5: the shared message digest of a signature
/// buffer, or the target root of a Merkle buffer.
pub open spec fn digest_field(b: Seq<u8>) -> Seq<u8>
    recommends
        b.len() >= 37,
{
    b.subrange(5, 37)
}

/// A signature buffer holds its 37-byte header and all the 96-byte entries
/// the header declares.
pub open spec fn sig_buffer_ok(b: Seq<u8>) -> bool {
    &&& b.len() >= 37
    &&& b.len() >= 37 + repeat_field(b) * (SIG_ENTRY_BYTES as int)
}

/// The public key of entry `i`: 32 bytes at offset `37 + i * 96`.
pub open spec fn sig_key_at(b: Seq<u8>, i: int) -> Seq<u8> {
    b.subrange(37 + i * (SIG_ENTRY_BYTES as int), 37 + i * (SIG_ENTRY_BYTES as int) + 32)
}

/// The signature of entry `i`: 64 bytes right after its public key.
pub open spec fn sig_signature_at(b: Seq<u8>, i: int) -> Seq<u8> {
    b.subrange(37 + i * (SIG_ENTRY_BYTES as int) + 32, 37 + i * (SIG_ENTRY_BYTES as int) + 96)
}

/// What decoding a signature buffer yields.
pub open spec fn sig_decode_ok(b: Seq<u8>, j: SignatureJob) -> bool {
    &&& j.repeat == repeat_field(b)
    &&& j.message_digest@ == digest_field(b)
    &&& j.pairs@.len() == j.repeat
    &&& forall|k: int|
        0 <= k < j.repeat ==> (#[trigger] j.pairs@[k]).public_key@ == sig_key_at(b, k)
            && j.pairs@[k].signature@ == sig_signature_at(b, k)
}

/// The 96 bytes of one signature entry: public key, then signature.
pub open spec fn sig_pair_bytes(p: SignaturePair) -> Seq<u8> {
    p.public_key@ + p.signature@
}

/// The encoding of a signature-batch job: opcode, repeat, message digest,
/// then the entries concatenated with no padding.
pub open spec fn signature_job_bytes(repeat: u32, digest: Seq<u8>, pairs: Seq<SignaturePair>) -> Seq<
    u8,
> {
    seq![crate::OP_SIGNATURE] + spec_u32_to_le_bytes(repeat) + digest + concat_all(
        pairs.map_values(|p: SignaturePair| sig_pair_bytes(p)),
    )
}

/// Decodes a signature-batch job from a buffer whose byte 0 is the opcode.
pub fn decode_signature_job(input: &[u8]) -> (r: Result<SignatureJob, JobError>)
    ensures
        r is Ok <==> sig_buffer_ok(input@),
        r matches Ok(j) ==> j.wf() && sig_decode_ok(input@, j),
        r matches Err(e) ==> e == JobError::MalformedInput,
{
    if input.len() < 37 {
        return Err(JobError::MalformedInput);
    }
    let repeat = read_u32_at(input, 1);
    let message_digest = read_arr32(input, 5);
    let need: u64 = 37u64 + (repeat as u64) * (SIG_ENTRY_BYTES as u64);
    if (input.len() as u64) < need {
        return Err(JobError::MalformedInput);
    }
    let n = repeat as usize;
    let mut pairs: Vec<SignaturePair> = Vec::new();
    let mut i: usize = 0;
    while i < n
        invariant
            0 <= i <= n,
            n == repeat,
            repeat == repeat_field(input@),
            message_digest@ == digest_field(input@),
            input@.len() <= usize::MAX,
            input@.len() >= 37 + (repeat as int) * (SIG_ENTRY_BYTES as int),
            pairs@.len() == i,
            forall|k: int|
                0 <= k < i ==> (#[trigger] pairs@[k]).public_key@ == sig_key_at(input@, k)
                    && pairs@[k].signature@ == sig_signature_at(input@, k),
        decreases n - i,
    {
        proof {
            lemma_mul_inequality(i as int + 1, repeat as int, SIG_ENTRY_BYTES as int);
            vstd::arithmetic::mul::lemma_mul_nonnegative(i as int, SIG_ENTRY_BYTES as int);
            assert((i as int + 1) * (SIG_ENTRY_BYTES as int) == i as int * (SIG_ENTRY_BYTES as int)
                + SIG_ENTRY_BYTES as int) by (nonlinear_arith);
        }
        let base = 37 + i * SIG_ENTRY_BYTES;
        let public_key = read_arr32(input, base);
        let signature = read_arr64(input, base + 32);
        pairs.push(SignaturePair { public_key, signature });
        i += 1;
    }
    Ok(SignatureJob { repeat, message_digest, pairs })
}

/// Encodes a signature-batch job into the flat buffer layout the decoder
/// reads.
pub fn encode_signature_job(job: &SignatureJob) -> (out: Vec<u8>)
    requires
        job.wf(),
    ensures
        out@ == signature_job_bytes(job.repeat, job.message_digest@, job.pairs@),
{
    let mut out: Vec<u8> = Vec::new();
    out.push(crate::OP_SIGNATURE);
    let mut rep = vstd::bytes::u32_to_le_bytes(job.repeat);
    out.append(&mut rep);
    out.extend_from_slice(job.message_digest.as_slice());
    let ghost header = out@;
    let ghost pv = job.pairs@.map_values(|p: SignaturePair| sig_pair_bytes(p));
    proof {
        assert(pv.take(0) =~= Seq::<Seq<u8>>::empty());
        assert(out@ =~= header + concat_all(pv.take(0)));
    }
    let n = job.pairs.len();
    let mut i: usize = 0;
    while i < n
        invariant
            0 <= i <= n,
            n == job.pairs@.len(),
            pv == job.pairs@.map_values(|p: SignaturePair| sig_pair_bytes(p)),
            out@ == header + concat_all(pv.take(i as int)),
        decreases n - i,
    {
        out.extend_from_slice(job.pairs[i].public_key.as_slice());
        out.extend_from_slice(job.pairs[i].signature.as_slice());
        proof {
            assert(pv.take(i as int + 1).drop_last() =~= pv.take(i as int));
            assert(pv.take(i as int + 1).last() == pv[i as int]);
            assert(pv[i as int] == sig_pair_bytes(job.pairs@[i as int]));
            assert(out@ =~= header + concat_all(pv.take(i as int)) + pv[i as int]);
        }
        i += 1;
    }
    proof {
        assert(pv.take(n as int) =~= pv);
        assert(header + concat_all(pv) =~= signature_job_bytes(
            job.repeat,
            job.message_digest@,
            job.pairs@,
        ));
    }
    out
}

/// A Merkle buffer holds its 37-byte header and all the 8224-byte entries
/// the header declares.
pub open spec fn merkle_buffer_ok(b: Seq<u8>) -> bool {
    &&& b.len() >= 37
    &&& b.len() >= 37 + repeat_field(b) * (MERKLE_ENTRY_BYTES as int)
}

/// What decoding one Merkle proof entry at byte offset `base` yields: the
/// index, the leaf, and the 255 sibling hashes, at consecutive offsets.
pub open spec fn merkle_entry_decode_ok(b: Seq<u8>, base: int, e: MerkleEntry) -> bool {
    &&& e.index@ == b.subrange(base, base + 32)
    &&& e.leaf@ == b.subrange(base + 32, base + 64)
    &&& e.siblings@.len() == MERKLE_DEPTH
    &&& forall|j: int|
        0 <= j < MERKLE_DEPTH ==> (#[trigger] e.siblings@[j])@ == b.subrange(
            base + 64 + j * 32,
            base + 96 + j * 32,
        )
}

/// What decoding a Merkle buffer yields.
pub open spec fn merkle_decode_ok(b: Seq<u8>, j: MerkleJob) -> bool {
    &&& j.repeat == repeat_field(b)
    &&& j.root@ == digest_field(b)
    &&& j.proofs@.len() == j.repeat
    &&& forall|i: int|
        0 <= i < j.repeat ==> merkle_entry_decode_ok(
            b,
            37 + i * (MERKLE_ENTRY_BYTES as int),
            #[trigger] j.proofs@[i],
        )
}

/// The 8224 bytes of one Merkle proof entry: index, leaf, then the siblings
/// concatenated in level order.
pub open spec fn merkle_entry_bytes(e: MerkleEntry) -> Seq<u8> {
    e.index@ + e.leaf@ + concat_all(e.siblings.deep_view())
}

/// The encoding of a Merkle job: opcode, repeat, root, then the entries
/// concatenated with no padding.
pub open spec fn merkle_job_bytes(repeat: u32, root: Seq<u8>, proofs: Seq<MerkleEntry>) -> Seq<u8> {
    seq![crate::OP_SMT_PROOF] + spec_u32_to_le_bytes(repeat) + root + concat_all(
        proofs.map_values(|e: MerkleEntry| merkle_entry_bytes(e)),
    )
}

/// Decodes a Merkle job from a buffer whose byte 0 is the opcode.
pub fn decode_merkle_job(input: &[u8]) -> (r: Result<MerkleJob, JobError>)
    ensures
        r is Ok <==> merkle_buffer_ok(input@),
        r matches Ok(j) ==> j.wf() && merkle_decode_ok(input@, j),
        r matches Err(e) ==> e == JobError::MalformedInput,
{
    if input.len() < 37 {
        return Err(JobError::MalformedInput);
    }
    let repeat = read_u32_at(input, 1);
    let root = read_arr32(input, 5);
    let need: u64 = 37u64 + (repeat as u64) * (MERKLE_ENTRY_BYTES as u64);
    if (input.len() as u64) < need {
        return Err(JobError::MalformedInput);
    }
    let n = repeat as usize;
    let mut proofs: Vec<MerkleEntry> = Vec::new();
    let mut i: usize = 0;
    while i < n
        invariant
            0 <= i <= n,
            n == repeat,
            repeat == repeat_field(input@),
            root@ == digest_field(input@),
            input@.len() <= usize::MAX,
            input@.len() >= 37 + (repeat as int) * (MERKLE_ENTRY_BYTES as int),
            proofs@.len() == i,
            forall|k: int|
                0 <= k < i ==> merkle_entry_decode_ok(
                    input@,
                    37 + k * (MERKLE_ENTRY_BYTES as int),
                    #[trigger] proofs@[k],
                ) && proofs@[k].wf(),
        decreases n - i,
    {
        proof {
            lemma_mul_inequality(i as int + 1, repeat as int, MERKLE_ENTRY_BYTES as int);
            vstd::arithmetic::mul::lemma_mul_nonnegative(i as int, MERKLE_ENTRY_BYTES as int);
            assert((i as int + 1) * (MERKLE_ENTRY_BYTES as int) == i as int * (MERKLE_ENTRY_BYTES
                as int) + MERKLE_ENTRY_BYTES as int) by (nonlinear_arith);
        }
        let base = 37 + i * MERKLE_ENTRY_BYTES;
        let index = read_arr32(input, base);
        let leaf = read_arr32(input, base + 32);
        let mut siblings: Vec<[u8; 32]> = Vec::new();
        let mut j: usize = 0;
        while j < MERKLE_DEPTH
            invariant
                0 <= j <= MERKLE_DEPTH,
                input@.len() <= usize::MAX,
                base + MERKLE_ENTRY_BYTES <= input@.len(),
                siblings@.len() == j,
                forall|m: int|
                    0 <= m < j ==> (#[trigger] siblings@[m])@ == input@.subrange(
                        base + 64 + m * 32,
                        base + 96 + m * 32,
                    ),
            decreases MERKLE_DEPTH - j,
        {
            let sib = read_arr32(input, base + 64 + j * 32);
            siblings.push(sib);
            j += 1;
        }
        proofs.push(MerkleEntry { index, leaf, siblings });
        i += 1;
    }
    Ok(MerkleJob { repeat, root, proofs })
}

/// Encodes a Merkle job into the flat buffer layout the decoder reads.
pub fn encode_merkle_job(job: &MerkleJob) -> (out: Vec<u8>)
    requires
        job.wf(),
    ensures
        out@ == merkle_job_bytes(job.repeat, job.root@, job.proofs@),
{
    let mut out: Vec<u8> = Vec::new();
    out.push(crate::OP_SMT_PROOF);
    let mut rep = vstd::bytes::u32_to_le_bytes(job.repeat);
    out.append(&mut rep);
    out.extend_from_slice(job.root.as_slice());
    let ghost header = out@;
    let ghost ev = job.proofs@.map_values(|e: MerkleEntry| merkle_entry_bytes(e));
    proof {
        assert(ev.take(0) =~= Seq::<Seq<u8>>::empty());
        assert(out@ =~= header + concat_all(ev.take(0)));
    }
    let n = job.proofs.len();
    let mut i: usize = 0;
    while i < n
        invariant
            0 <= i <= n,
            n == job.proofs@.len(),
            job.wf(),
            ev == job.proofs@.map_values(|e: MerkleEntry| merkle_entry_bytes(e)),
            out@ == header + concat_all(ev.take(i as int)),
        decreases n - i,
    {
        out.extend_from_slice(job.proofs[i].index.as_slice());
        out.extend_from_slice(job.proofs[i].leaf.as_slice());
        let ghost entry_start = out@;
        let ghost sv = job.proofs@[i as int].siblings.deep_view();
        proof {
            assert(sv.take(0) =~= Seq::<Seq<u8>>::empty());
            assert(out@ =~= entry_start + concat_all(sv.take(0)));
        }
        let m = job.proofs[i].siblings.len();
        let mut j: usize = 0;
        while j < m
            invariant
                0 <= j <= m,
                i < n,
                n == job.proofs@.len(),
                m == job.proofs@[i as int].siblings@.len(),
                sv == job.proofs@[i as int].siblings.deep_view(),
                out@ == entry_start + concat_all(sv.take(j as int)),
            decreases m - j,
        {
            out.extend_from_slice(job.proofs[i].siblings[j].as_slice());
            proof {
                assert(sv.take(j as int + 1).drop_last() =~= sv.take(j as int));
                assert(sv.take(j as int + 1).last() == sv[j as int]);
                assert(sv[j as int] == job.proofs@[i as int].siblings@[j as int]@);
                assert(out@ =~= entry_start + concat_all(sv.take(j as int)) + sv[j as int]);
            }
            j += 1;
        }
        proof {
            assert(sv.take(m as int) =~= sv);
            assert(ev.take(i as int + 1).drop_last() =~= ev.take(i as int));
            assert(ev.take(i as int + 1).last() == ev[i as int]);
            assert(ev[i as int] == merkle_entry_bytes(job.proofs@[i as int]));
            assert(out@ =~= header + concat_all(ev.take(i as int)) + ev[i as int]);
        }
        i += 1;
    }
    proof {
        assert(ev.take(n as int) =~= ev);
        assert(header + concat_all(ev) =~= merkle_job_bytes(job.repeat, job.root@, job.proofs@));
    }
    out
}

/// The encoding of a well-formed hash-chain job is a decodable buffer whose
/// fields read back as the job's.
pub proof fn lemma_hash_encoding_ok(j: HashJob)
    requires
        j.wf(),
    ensures
        ({
            let b = hash_job_bytes(j.repeat, j.chunk_size, j.chunks.deep_view());
            &&& hash_buffer_ok(b)
            &&& repeat_field(b) == j.repeat
            &&& chunk_size_field(b) == j.chunk_size
            &&& b.len() == 9 + j.repeat * j.chunk_size
            &&& forall|k: int| 0 <= k < j.repeat ==> hash_chunk_at(b, k) == j.chunks@[k]@
        }),
{
    vstd::bytes::lemma_auto_spec_u32_to_from_le_bytes();
    let cv = j.chunks.deep_view();
    let b = hash_job_bytes(j.repeat, j.chunk_size, cv);
    let w = j.chunk_size as int;
    let n = j.repeat as int;
    assert forall|k: int| 0 <= k < cv.len() implies (#[trigger] cv[k]).len() == w by {
        assert(cv[k] == j.chunks@[k].deep_view());
        assert(j.chunks@[k].deep_view() =~= j.chunks@[k]@);
    }
    lemma_concat_all_len_uniform(cv, w);
    assert(b.subrange(1, 5) =~= spec_u32_to_le_bytes(j.repeat));
    assert(b.subrange(5, 9) =~= spec_u32_to_le_bytes(j.chunk_size));
    assert forall|k: int| 0 <= k < n implies hash_chunk_at(b, k) == j.chunks@[k]@ by {
        lemma_concat_all_index_uniform(cv, w, k);
        vstd::arithmetic::mul::lemma_mul_nonnegative(k, w);
        lemma_mul_inequality(k + 1, n, w);
        assert((k + 1) * w == k * w + w) by (nonlinear_arith);
        assert(hash_chunk_at(b, k) =~= concat_all(cv).subrange(k * w, (k + 1) * w));
        assert(cv[k] =~= j.chunks@[k]@);
    }
}

/// Round trip: any descriptor decoded from the encoding of a well-formed
/// hash-chain job carries the same fields, chunk for chunk.
pub proof fn lemma_hash_round_trip(j: HashJob, d: HashJob)
    requires
        j.wf(),
        hash_decode_ok(hash_job_bytes(j.repeat, j.chunk_size, j.chunks.deep_view()), d),
    ensures
        d.repeat == j.repeat,
        d.chunk_size == j.chunk_size,
        d.chunks.deep_view() == j.chunks.deep_view(),
{
    lemma_hash_encoding_ok(j);
    let b = hash_job_bytes(j.repeat, j.chunk_size, j.chunks.deep_view());
    assert forall|k: int| 0 <= k < j.repeat implies d.chunks.deep_view()[k]
        == j.chunks.deep_view()[k] by {
        assert(d.chunks@[k]@ == hash_chunk_at(b, k));
        assert(d.chunks.deep_view()[k] == d.chunks@[k].deep_view());
        assert(d.chunks@[k].deep_view() =~= d.chunks@[k]@);
        assert(j.chunks.deep_view()[k] == j.chunks@[k].deep_view());
        assert(j.chunks@[k].deep_view() =~= j.chunks@[k]@);
    }
    assert(d.chunks.deep_view() =~= j.chunks.deep_view());
}

/// The encoding of a well-formed signature-batch job is a decodable buffer
/// whose fields read back as the job's.
pub proof fn lemma_signature_encoding_ok(j: SignatureJob)
    requires
        j.wf(),
    ensures
        ({
            let b = signature_job_bytes(j.repeat, j.message_digest@, j.pairs@);
            &&& sig_buffer_ok(b)
            &&& repeat_field(b) == j.repeat
            &&& digest_field(b) == j.message_digest@
            &&& b.len() == 37 + j.repeat * (SIG_ENTRY_BYTES as int)
            &&& forall|k: int|
                0 <= k < j.repeat ==> sig_key_at(b, k) == (#[trigger] j.pairs@[k]).public_key@
                    && sig_signature_at(b, k) == j.pairs@[k].signature@
        }),
{
    vstd::bytes::lemma_auto_spec_u32_to_from_le_bytes();
    let pv = j.pairs@.map_values(|p: SignaturePair| sig_pair_bytes(p));
    let b = signature_job_bytes(j.repeat, j.message_digest@, j.pairs@);
    let w = SIG_ENTRY_BYTES as int;
    let n = j.repeat as int;
    assert(forall|k: int|
        0 <= k < pv.len() ==> (#[trigger] pv[k]).len() == w);
    lemma_concat_all_len_uniform(pv, w);
    assert(b.subrange(1, 5) =~= spec_u32_to_le_bytes(j.repeat));
    assert(b.subrange(5, 37) =~= j.message_digest@);
    assert forall|k: int|
        0 <= k < n implies sig_key_at(b, k) == (#[trigger] j.pairs@[k]).public_key@
        && sig_signature_at(b, k) == j.pairs@[k].signature@ by {
        lemma_concat_all_index_uniform(pv, w, k);
        vstd::arithmetic::mul::lemma_mul_nonnegative(k, w);
        lemma_mul_inequality(k + 1, n, w);
        assert((k + 1) * w == k * w + w) by (nonlinear_arith);
        assert(b.subrange(37 + k * w, 37 + k * w + w) =~= concat_all(pv).subrange(
            k * w,
            (k + 1) * w,
        ));
        assert(sig_key_at(b, k) =~= pv[k].subrange(0, 32));
        assert(pv[k].subrange(0, 32) =~= j.pairs@[k].public_key@);
        assert(sig_signature_at(b, k) =~= pv[k].subrange(32, 96));
        assert(pv[k].subrange(32, 96) =~= j.pairs@[k].signature@);
    }
}

/// Round trip: any descriptor decoded from the encoding of a well-formed
/// signature-batch job equals it, field for field.
pub proof fn lemma_signature_round_trip(j: SignatureJob, d: SignatureJob)
    requires
        j.wf(),
        sig_decode_ok(signature_job_bytes(j.repeat, j.message_digest@, j.pairs@), d),
    ensures
        d.repeat == j.repeat,
        d.message_digest == j.message_digest,
        d.pairs@ == j.pairs@,
{
    lemma_signature_encoding_ok(j);
    let b = signature_job_bytes(j.repeat, j.message_digest@, j.pairs@);
    assert(d.message_digest =~= j.message_digest);
    assert forall|k: int| 0 <= k < j.repeat implies d.pairs@[k] == j.pairs@[k] by {
        assert(d.pairs@[k].public_key@ == sig_key_at(b, k));
        assert(d.pairs@[k].public_key =~= j.pairs@[k].public_key);
        assert(d.pairs@[k].signature =~= j.pairs@[k].signature);
    }
    assert(d.pairs@ =~= j.pairs@);
}

/// The encoding of a well-formed Merkle job is a decodable buffer whose
/// entries read back as the job's, byte for byte.
pub proof fn lemma_merkle_encoding_ok(j: MerkleJob)
    requires
        j.wf(),
    ensures
        ({
            let b = merkle_job_bytes(j.repeat, j.root@, j.proofs@);
            &&& merkle_buffer_ok(b)
            &&& repeat_field(b) == j.repeat
            &&& digest_field(b) == j.root@
            &&& b.len() == 37 + j.repeat * (MERKLE_ENTRY_BYTES as int)
            &&& forall|k: int|
                0 <= k < j.repeat ==> merkle_entry_decode_ok(
                    b,
                    37 + k * (MERKLE_ENTRY_BYTES as int),
                    #[trigger] j.proofs@[k],
                )
        }),
{
    vstd::bytes::lemma_auto_spec_u32_to_from_le_bytes();
    let ev = j.proofs@.map_values(|e: MerkleEntry| merkle_entry_bytes(e));
    let b = merkle_job_bytes(j.repeat, j.root@, j.proofs@);
    let w = MERKLE_ENTRY_BYTES as int;
    let n = j.repeat as int;
    assert forall|k: int| 0 <= k < ev.len() implies (#[trigger] ev[k]).len() == w by {
        let e = j.proofs@[k];
        let sv = e.siblings.deep_view();
        assert forall|m: int| 0 <= m < sv.len() implies (#[trigger] sv[m]).len() == 32 by {
            assert(sv[m] == e.siblings@[m].deep_view());
            assert(e.siblings@[m].deep_view() =~= e.siblings@[m]@);
        }
        lemma_concat_all_len_uniform(sv, 32);
        assert(ev[k] == merkle_entry_bytes(e));
    }
    lemma_concat_all_len_uniform(ev, w);
    assert(b.subrange(1, 5) =~= spec_u32_to_le_bytes(j.repeat));
    assert(b.subrange(5, 37) =~= j.root@);
    assert forall|k: int|
        0 <= k < n implies merkle_entry_decode_ok(b, 37 + k * w, #[trigger] j.proofs@[k]) by {
        let e = j.proofs@[k];
        let sv = e.siblings.deep_view();
        let base = 37 + k * w;
        assert forall|m: int| 0 <= m < sv.len() implies (#[trigger] sv[m]).len() == 32 by {
            assert(sv[m] == e.siblings@[m].deep_view());
            assert(e.siblings@[m].deep_view() =~= e.siblings@[m]@);
        }
        lemma_concat_all_len_uniform(sv, 32);
        lemma_concat_all_index_uniform(ev, w, k);
        vstd::arithmetic::mul::lemma_mul_nonnegative(k, w);
        lemma_mul_inequality(k + 1, n, w);
        assert((k + 1) * w == k * w + w) by (nonlinear_arith);
        assert(b.subrange(base, base + w) =~= concat_all(ev).subrange(k * w, (k + 1) * w));
        assert(b.subrange(base, base + 32) =~= ev[k].subrange(0, 32));
        assert(ev[k].subrange(0, 32) =~= e.index@);
        assert(b.subrange(base + 32, base + 64) =~= ev[k].subrange(32, 64));
        assert(ev[k].subrange(32, 64) =~= e.leaf@);
        assert forall|m: int| 0 <= m < MERKLE_DEPTH implies (#[trigger] e.siblings@[m])@
            == b.subrange(base + 64 + m * 32, base + 96 + m * 32) by {
            lemma_concat_all_index_uniform(sv, 32, m);
            assert(ev[k].subrange(64 + m * 32, 96 + m * 32) =~= concat_all(sv).subrange(
                m * 32,
                (m + 1) * 32,
            ));
            assert(b.subrange(base + 64 + m * 32, base + 96 + m * 32) =~= ev[k].subrange(
                64 + m * 32,
                96 + m * 32,
            ));
            assert(sv[m] =~= e.siblings@[m]@);
        }
    }
}

/// Round trip: any descriptor decoded from the encoding of a well-formed
/// Merkle job equals it, entry for entry and sibling for sibling.
pub proof fn lemma_merkle_round_trip(j: MerkleJob, d: MerkleJob)
    requires
        j.wf(),
        merkle_decode_ok(merkle_job_bytes(j.repeat, j.root@, j.proofs@), d),
    ensures
        d.repeat == j.repeat,
        d.root == j.root,
        d.proofs@.len() == j.proofs@.len(),
        forall|k: int|
            0 <= k < j.proofs@.len() ==> (#[trigger] d.proofs@[k]).index == j.proofs@[k].index
                && d.proofs@[k].leaf == j.proofs@[k].leaf
                && d.proofs@[k].siblings.deep_view() == j.proofs@[k].siblings.deep_view(),
{
    lemma_merkle_encoding_ok(j);
    let b = merkle_job_bytes(j.repeat, j.root@, j.proofs@);
    assert(d.root =~= j.root);
    assert forall|k: int|
        0 <= k < j.proofs@.len() implies (#[trigger] d.proofs@[k]).index == j.proofs@[k].index
        && d.proofs@[k].leaf == j.proofs@[k].leaf
        && d.proofs@[k].siblings.deep_view() == j.proofs@[k].siblings.deep_view() by {
        let base = 37 + k * (MERKLE_ENTRY_BYTES as int);
        assert(merkle_entry_decode_ok(b, base, d.proofs@[k]));
        assert(merkle_entry_decode_ok(b, base, j.proofs@[k]));
        assert(d.proofs@[k].index =~= j.proofs@[k].index);
        assert(d.proofs@[k].leaf =~= j.proofs@[k].leaf);
        let dv = d.proofs@[k].siblings.deep_view();
        let jv = j.proofs@[k].siblings.deep_view();
        assert forall|m: int| 0 <= m < MERKLE_DEPTH implies dv[m] == jv[m] by {
            assert(dv[m] == d.proofs@[k].siblings@[m].deep_view());
            assert(d.proofs@[k].siblings@[m].deep_view() =~= d.proofs@[k].siblings@[m]@);
            assert(jv[m] == j.proofs@[k].siblings@[m].deep_view());
            assert(j.proofs@[k].siblings@[m].deep_view() =~= j.proofs@[k].siblings@[m]@);
        }
        assert(dv =~= jv);
    }
}

/// Whether a descriptor's declared counts match what it holds.
pub open spec fn job_wf(job: JobDescriptor) -> bool {
    match job {
        JobDescriptor::Hash(j) => j.wf(),
        JobDescriptor::Signature(j) => j.wf(),
        JobDescriptor::Merkle(j) => j.wf(),
    }
}

/// The encoding of any job descriptor, opcode byte included.
pub open spec fn job_bytes(job: JobDescriptor) -> Seq<u8> {
    match job {
        JobDescriptor::Hash(j) => hash_job_bytes(j.repeat, j.chunk_size, j.chunks.deep_view()),
        JobDescriptor::Signature(j) => signature_job_bytes(j.repeat, j.message_digest@, j.pairs@),
        JobDescriptor::Merkle(j) => merkle_job_bytes(j.repeat, j.root@, j.proofs@),
    }
}

/// Decodes a buffer into whichever job descriptor its opcode byte selects.
pub fn decode_job(input: &[u8]) -> (r: Result<JobDescriptor, JobError>)
    ensures
        input@.len() == 0 ==> r == Err::<JobDescriptor, JobError>(JobError::MalformedInput),
        input@.len() > 0 && input@[0] != crate::OP_HASH_8K && input@[0] != crate::OP_SIGNATURE
            && input@[0] != crate::OP_SMT_PROOF ==> r == Err::<JobDescriptor, JobError>(
            JobError::UnrecognizedOpcode,
        ),
        input@.len() > 0 && input@[0] == crate::OP_HASH_8K ==> {
            &&& (r is Ok <==> hash_buffer_ok(input@))
            &&& (!hash_buffer_ok(input@) ==> r == Err::<JobDescriptor, JobError>(
                JobError::MalformedInput,
            ))
            &&& (r matches Ok(d) ==> d matches JobDescriptor::Hash(j) && j.wf()
                && hash_decode_ok(input@, j))
        },
        input@.len() > 0 && input@[0] == crate::OP_SIGNATURE ==> {
            &&& (r is Ok <==> sig_buffer_ok(input@))
            &&& (!sig_buffer_ok(input@) ==> r == Err::<JobDescriptor, JobError>(
                JobError::MalformedInput,
            ))
            &&& (r matches Ok(d) ==> d matches JobDescriptor::Signature(j) && j.wf()
                && sig_decode_ok(input@, j))
        },
        input@.len() > 0 && input@[0] == crate::OP_SMT_PROOF ==> {
            &&& (r is Ok <==> merkle_buffer_ok(input@))
            &&& (!merkle_buffer_ok(input@) ==> r == Err::<JobDescriptor, JobError>(
                JobError::MalformedInput,
            ))
            &&& (r matches Ok(d) ==> d matches JobDescriptor::Merkle(j) && j.wf()
                && merkle_decode_ok(input@, j))
        },
{
    if input.len() == 0 {
        return Err(JobError::MalformedInput);
    }
    let op = input[0];
    if op == crate::OP_HASH_8K {
        match decode_hash_job(input) {
            Ok(j) => Ok(JobDescriptor::Hash(j)),
            Err(e) => Err(e),
        }
    } else if op == crate::OP_SIGNATURE {
        match decode_signature_job(input) {
            Ok(j) => Ok(JobDescriptor::Signature(j)),
            Err(e) => Err(e),
        }
    } else if op == crate::OP_SMT_PROOF {
        match decode_merkle_job(input) {
            Ok(j) => Ok(JobDescriptor::Merkle(j)),
            Err(e) => Err(e),
        }
    } else {
        Err(JobError::UnrecognizedOpcode)
    }
}

/// Encodes any job descriptor into the flat buffer layout, opcode byte
/// included.
pub fn encode_job(job: &JobDescriptor) -> (out: Vec<u8>)
    requires
        job_wf(*job),
    ensures
        out@ == job_bytes(*job),
{
    match job {
        JobDescriptor::Hash(j) => encode_hash_job(j),
        JobDescriptor::Signature(j) => encode_signature_job(j),
        JobDescriptor::Merkle(j) => encode_merkle_job(j),
    }
}

/// The `n` consecutive width-`w` slices of `b` starting at `start`.
pub open spec fn slices_of(b: Seq<u8>, start: int, w: int, n: int) -> Seq<Seq<u8>> {
    Seq::new(n as nat, |k: int| b.subrange(start + k * w, start + (k + 1) * w))
}

/// A run of `n` consecutive width-`w` slices of `b`, concatenated, is the
/// one slice covering them all.
pub proof fn lemma_concat_of_slices(b: Seq<u8>, start: int, w: int, n: int)
    requires
        0 <= start,
        0 <= w,
        0 <= n,
        start + n * w <= b.len(),
    ensures
        concat_all(slices_of(b, start, w, n)) == b.subrange(start, start + n * w),
    decreases n,
{
    let parts = slices_of(b, start, w, n);
    if n == 0 {
        assert(n * w == 0) by (nonlinear_arith)
            requires
                n == 0,
        ;
        assert(concat_all(parts) =~= b.subrange(start, start));
    } else {
        vstd::arithmetic::mul::lemma_mul_nonnegative(n - 1, w);
        lemma_mul_inequality(n - 1, n, w);
        assert(n * w == (n - 1) * w + w) by (nonlinear_arith);
        lemma_concat_of_slices(b, start, w, n - 1);
        let prev = slices_of(b, start, w, n - 1);
        assert(parts.drop_last() =~= prev);
        assert(parts.last() == b.subrange(start + (n - 1) * w, start + n * w));
        assert(concat_all(parts) == concat_all(prev) + parts.last());
        assert(b.subrange(start, start + (n - 1) * w) + b.subrange(
            start + (n - 1) * w,
            start + n * w,
        ) =~= b.subrange(start, start + n * w));
        assert(concat_all(parts) == b.subrange(start, start + n * w));
    }
}

/// Round trip in the other direction: a buffer that decodes as a hash-chain
/// job, starts with the hash-chain opcode, and holds no trailing bytes is
/// byte for byte the encoding of what it decodes to.
pub proof fn lemma_hash_buffer_round_trip(b: Seq<u8>, d: HashJob)
    requires
        hash_buffer_ok(b),
        hash_decode_ok(b, d),
        b.len() == 9 + repeat_field(b) * chunk_size_field(b),
        b[0] == crate::OP_HASH_8K,
    ensures
        hash_job_bytes(d.repeat, d.chunk_size, d.chunks.deep_view()) == b,
{
    vstd::bytes::lemma_auto_spec_u32_to_from_le_bytes();
    let n = repeat_field(b) as int;
    let w = chunk_size_field(b) as int;
    let cv = d.chunks.deep_view();
    let slices = slices_of(b, 9, w, n);
    assert forall|k: int| 0 <= k < n implies cv[k] == slices[k] by {
        assert(cv[k] == d.chunks@[k].deep_view());
        assert(d.chunks@[k].deep_view() =~= d.chunks@[k]@);
        assert(d.chunks@[k]@ == hash_chunk_at(b, k));
    }
    assert(cv =~= slices);
    vstd::arithmetic::mul::lemma_mul_nonnegative(n, w);
    lemma_concat_of_slices(b, 9, w, n);
    assert(b.subrange(1, 5).len() == 4);
    assert(spec_u32_to_le_bytes(d.repeat) == b.subrange(1, 5));
    assert(spec_u32_to_le_bytes(d.chunk_size) == b.subrange(5, 9));
    assert(hash_job_bytes(d.repeat, d.chunk_size, cv) =~= b);
}

/// Round trip in the other direction for signature-batch buffers.
pub proof fn lemma_signature_buffer_round_trip(b: Seq<u8>, d: SignatureJob)
    requires
        sig_buffer_ok(b),
        sig_decode_ok(b, d),
        b.len() == 37 + repeat_field(b) * (SIG_ENTRY_BYTES as int),
        b[0] == crate::OP_SIGNATURE,
    ensures
        signature_job_bytes(d.repeat, d.message_digest@, d.pairs@) == b,
{
    vstd::bytes::lemma_auto_spec_u32_to_from_le_bytes();
    let n = repeat_field(b) as int;
    let w = SIG_ENTRY_BYTES as int;
    let pv = d.pairs@.map_values(|p: SignaturePair| sig_pair_bytes(p));
    let slices = slices_of(b, 37, w, n);
    assert forall|k: int| 0 <= k < n implies pv[k] == slices[k] by {
        vstd::arithmetic::mul::lemma_mul_nonnegative(k, w);
        lemma_mul_inequality(k + 1, n, w);
        assert((k + 1) * w == k * w + w) by (nonlinear_arith);
        assert(pv[k] == sig_pair_bytes(d.pairs@[k]));
        assert(d.pairs@[k].public_key@ == sig_key_at(b, k));
        assert(d.pairs@[k].signature@ == sig_signature_at(b, k));
        assert(sig_pair_bytes(d.pairs@[k]) =~= slices[k]);
    }
    assert(pv =~= slices);
    vstd::arithmetic::mul::lemma_mul_nonnegative(n, w);
    lemma_concat_of_slices(b, 37, w, n);
    assert(spec_u32_to_le_bytes(d.repeat) == b.subrange(1, 5));
    assert(d.message_digest@ == b.subrange(5, 37));
    assert(signature_job_bytes(d.repeat, d.message_digest@, d.pairs@) =~= b);
}

/// Round trip in the other direction for Merkle buffers.
pub proof fn lemma_merkle_buffer_round_trip(b: Seq<u8>, d: MerkleJob)
    requires
        merkle_buffer_ok(b),
        merkle_decode_ok(b, d),
        b.len() == 37 + repeat_field(b) * (MERKLE_ENTRY_BYTES as int),
        b[0] == crate::OP_SMT_PROOF,
    ensures
        merkle_job_bytes(d.repeat, d.root@, d.proofs@) == b,
{
    vstd::bytes::lemma_auto_spec_u32_to_from_le_bytes();
    let n = repeat_field(b) as int;
    let w = MERKLE_ENTRY_BYTES as int;
    let ev = d.proofs@.map_values(|e: MerkleEntry| merkle_entry_bytes(e));
    let slices = slices_of(b, 37, w, n);
    assert forall|k: int| 0 <= k < n implies ev[k] == slices[k] by {
        vstd::arithmetic::mul::lemma_mul_nonnegative(k, w);
        lemma_mul_inequality(k + 1, n, w);
        assert((k + 1) * w == k * w + w) by (nonlinear_arith);
        let e = d.proofs@[k];
        let base = 37 + k * w;
        assert(merkle_entry_decode_ok(b, base, e));
        let sv = e.siblings.deep_view();
        let sib_slices = slices_of(b, base + 64, 32, MERKLE_DEPTH as int);
        assert forall|m: int| 0 <= m < MERKLE_DEPTH implies sv[m] == sib_slices[m] by {
            assert(sv[m] == e.siblings@[m].deep_view());
            assert(e.siblings@[m].deep_view() =~= e.siblings@[m]@);
        }
        assert(sv =~= sib_slices);
        lemma_concat_of_slices(b, base + 64, 32, MERKLE_DEPTH as int);
        assert(concat_all(sv) == b.subrange(base + 64, base + w));
        assert(ev[k] == merkle_entry_bytes(e));
        assert(merkle_entry_bytes(e) =~= slices[k]);
    }
    assert(ev =~= slices);
    vstd::arithmetic::mul::lemma_mul_nonnegative(n, w);
    lemma_concat_of_slices(b, 37, w, n);
    assert(spec_u32_to_le_bytes(d.repeat) == b.subrange(1, 5));
    assert(d.root@ == b.subrange(5, 37));
    assert(merkle_job_bytes(d.repeat, d.root@, d.proofs@) =~= b);
}

} // verus!
