use ed25519_dalek::Signer;
use ed25519_dalek::SigningKey;
use sha2::Digest;
use sha2::Sha256;
use zk_benchmarks_core::JobError;
use zk_benchmarks_core::codec::HashJob;
use zk_benchmarks_core::codec::JobDescriptor;
use zk_benchmarks_core::codec::MerkleEntry;
use zk_benchmarks_core::codec::MerkleJob;
use zk_benchmarks_core::codec::SignatureJob;
use zk_benchmarks_core::codec::SignaturePair;
use zk_benchmarks_core::codec::decode_hash_job;
use zk_benchmarks_core::codec::decode_job;
use zk_benchmarks_core::codec::decode_merkle_job;
use zk_benchmarks_core::codec::decode_signature_job;
use zk_benchmarks_core::codec::encode_hash_job;
use zk_benchmarks_core::codec::encode_job;
use zk_benchmarks_core::codec::encode_merkle_job;
use zk_benchmarks_core::codec::encode_signature_job;
use zk_benchmarks_core::dispatch::execute_job;
use zk_benchmarks_core::hash_chain::execute_hash_8k;
use zk_benchmarks_core::merkle::build_self_path;
use zk_benchmarks_core::merkle::execute_smt_proof;
use zk_benchmarks_core::merkle::root_from_merkle_proof;
use zk_benchmarks_core::merkle::shr_index;
use zk_benchmarks_core::outputs::Outputs;
use zk_benchmarks_core::signature_batch::execute_signature;

fn sha256(data: &[u8]) -> [u8; 32] {
    Sha256::digest(data).into()
}

/// The deterministic signature fixture: `repeat` keys derived from a hash
/// chain, all signing the same message digest.
fn signature_fixture(repeat: u32) -> SignatureJob {
    let message_digest = sha256(b"validating block: 19634367");
    let mut pairs = Vec::new();
    let mut randomness = sha256(&[0xcd; 32]);
    for _ in 0..repeat {
        randomness = sha256(&randomness);
        let signing_key = SigningKey::from_bytes(&randomness);
        let signature = signing_key.sign(&message_digest);
        pairs.push(SignaturePair {
            public_key: signing_key.verifying_key().to_bytes(),
            signature: signature.to_bytes(),
        });
    }
    SignatureJob { repeat, message_digest, pairs }
}

/// The synthetic balanced-tree fixture: the self-pairing path over
/// `sha256([12; 64])`, with the index value written little-endian into the
/// last four bytes of the 32-byte big-endian index.
fn merkle_fixture(repeat: u32, first_index: u32) -> (MerkleJob, [u8; 32]) {
    let leaf = sha256(&[12u8; 64]);
    let (siblings, root) = build_self_path(&leaf);
    let mut proofs = Vec::new();
    for i in 0..repeat {
        let mut index = [0u8; 32];
        index[28..32].copy_from_slice(&(first_index + i).to_le_bytes());
        proofs.push(MerkleEntry { index, leaf, siblings: siblings.clone() });
    }
    (MerkleJob { repeat, root, proofs }, root)
}

#[test]
fn hash_scenario_zero_chunk() {
    let job = HashJob { repeat: 1, chunk_size: 8192, chunks: vec![vec![0u8; 8192]] };
    let buf = encode_hash_job(&job);
    assert_eq!(buf.len(), 9 + 8192);
    let out = execute_job(&buf).unwrap();
    assert_eq!(
        hex::encode(out.hash_output),
        "9f1dcbc35c350d6027f98be0f5c8b43b42ca52b7604459c0c42be3aa88913d47"
    );
    assert_eq!(out.num_iterations, 1);
}

#[test]
fn hash_digest_is_last_chunk_only() {
    let job_a = HashJob {
        repeat: 2,
        chunk_size: 4,
        chunks: vec![vec![1, 2, 3, 4], vec![9, 9, 9, 9]],
    };
    let job_b = HashJob {
        repeat: 2,
        chunk_size: 4,
        chunks: vec![vec![7, 7, 7, 7], vec![9, 9, 9, 9]],
    };
    let out_a = execute_hash_8k(&encode_hash_job(&job_a)).unwrap();
    let out_b = execute_hash_8k(&encode_hash_job(&job_b)).unwrap();
    assert_eq!(out_a.hash_output, out_b.hash_output);
    assert_eq!(out_a.hash_output, sha256(&[9, 9, 9, 9]));
    assert_eq!(out_a.num_iterations, 2);
}

#[test]
fn hash_zero_repetitions() {
    let job = HashJob { repeat: 0, chunk_size: 8192, chunks: vec![] };
    let out = execute_hash_8k(&encode_hash_job(&job)).unwrap();
    assert_eq!(out.hash_output, [0u8; 32]);
    assert_eq!(out.num_iterations, 0);
}

#[test]
fn hash_truncated_buffer_is_malformed() {
    let job = HashJob { repeat: 1, chunk_size: 8192, chunks: vec![vec![0u8; 8192]] };
    let mut buf = encode_hash_job(&job);
    buf[1] = 2;  // declare two chunks while only one is present
    assert_eq!(execute_hash_8k(&buf), Err(JobError::MalformedInput));
    assert_eq!(execute_job(&[0u8]), Err(JobError::MalformedInput));
}

#[test]
fn hash_round_trip() {
    let job = HashJob {
        repeat: 3,
        chunk_size: 2,
        chunks: vec![vec![1, 2], vec![3, 4], vec![5, 6]],
    };
    let buf = encode_hash_job(&job);
    let decoded = decode_hash_job(&buf).unwrap();
    assert_eq!(decoded, job);
    assert_eq!(encode_hash_job(&decoded), buf);
}

#[test]
fn signature_scenario_batch() {
    let job = signature_fixture(2);
    let buf = encode_signature_job(&job);
    let out = execute_signature(&buf).unwrap();
    assert_eq!(out.hash_output, job.message_digest);
    assert_eq!(
        hex::encode(out.hash_output),
        "e76dc670dc37a5c2faaf8afa748e88db247ff02e6dd2440614fe7f00bcf4503a"
    );
    assert_eq!(out.num_iterations, 2);
    assert_eq!(execute_job(&buf).unwrap(), out);
}

#[test]
fn signature_bit_flip_aborts() {
    let mut job = signature_fixture(2);
    job.pairs[1].signature[10] ^= 0x01;
    let buf = encode_signature_job(&job);
    assert_eq!(execute_signature(&buf), Err(JobError::SignatureMismatch));
}

#[test]
fn signature_invalid_public_key() {
    let mut job = signature_fixture(1);
    // y = 2 is no square's worth of x on the curve, so these bytes decode to
    // no valid point
    let mut bad_key = [0u8; 32];
    bad_key[0] = 2;
    job.pairs[0].public_key = bad_key;
    let buf = encode_signature_job(&job);
    assert_eq!(execute_signature(&buf), Err(JobError::InvalidPublicKey));
}

#[test]
fn signature_truncated_buffer_is_malformed() {
    let job = signature_fixture(1);
    let buf = encode_signature_job(&job);
    assert_eq!(execute_signature(&buf[..buf.len() - 1]), Err(JobError::MalformedInput));
    assert_eq!(execute_signature(&buf[..20]), Err(JobError::MalformedInput));
}

#[test]
fn signature_round_trip() {
    let job = signature_fixture(2);
    let buf = encode_signature_job(&job);
    let decoded = decode_signature_job(&buf).unwrap();
    assert_eq!(decoded, job);
    assert_eq!(encode_signature_job(&decoded), buf);
}

#[test]
fn merkle_scenario_self_path() {
    let (job, root) = merkle_fixture(1, 1000);
    let buf = encode_merkle_job(&job);
    assert_eq!(buf.len(), 37 + 8224);
    let out = execute_smt_proof(&buf).unwrap();
    assert_eq!(out.hash_output, root);
    assert_eq!(out.num_iterations, 1);
    assert_eq!(execute_job(&buf).unwrap(), out);
}

#[test]
fn merkle_altered_sibling_aborts() {
    let (mut job, _) = merkle_fixture(1, 1000);
    job.proofs[0].siblings[7][0] ^= 0x01;
    let buf = encode_merkle_job(&job);
    assert_eq!(execute_smt_proof(&buf), Err(JobError::RootMismatch));
}

#[test]
fn merkle_wrong_root_aborts() {
    let (mut job, _) = merkle_fixture(1, 1000);
    job.root[0] ^= 0x01;
    let buf = encode_merkle_job(&job);
    assert_eq!(execute_smt_proof(&buf), Err(JobError::RootMismatch));
}

#[test]
fn merkle_self_path_holds_for_any_index() {
    // In the self-pairing fixture the sibling equals the running hash at
    // every level, so the climb reaches the same root whatever the index
    // bits say about left and right.
    let (job, root) = merkle_fixture(2, 1000);
    let buf = encode_merkle_job(&job);
    let out = execute_smt_proof(&buf).unwrap();
    assert_eq!(out.hash_output, root);
    assert_eq!(out.num_iterations, 2);
}

#[test]
fn merkle_root_matches_manual_walk() {
    // A path of 255 distinct siblings and a dense index, walked by an
    // independent transcription of the protocol: inspect bit 0 of the last
    // index byte, concatenate left or right, hash, then shift the whole
    // 256-bit index right by one bit.
    let leaf = sha256(b"leaf");
    let index = sha256(b"index");
    let mut siblings = Vec::new();
    for i in 0..255u32 {
        siblings.push(sha256(&i.to_le_bytes()));
    }
    let mut idx = index;
    let mut current = leaf;
    for sibling in &siblings {
        let mut combined = [0u8; 64];
        if idx[31] & 1 == 0 {
            combined[..32].copy_from_slice(&current);
            combined[32..].copy_from_slice(sibling);
        } else {
            combined[..32].copy_from_slice(sibling);
            combined[32..].copy_from_slice(&current);
        }
        current = sha256(&combined);
        let mut shifted = [0u8; 32];
        shifted[0] = idx[0] >> 1;
        for i in 1..32 {
            shifted[i] = (idx[i] >> 1) | (idx[i - 1] << 7);
        }
        idx = shifted;
    }
    let root = root_from_merkle_proof(&leaf, &index, &siblings);
    assert_eq!(root, current);
}

#[test]
fn merkle_round_trip() {
    let (job, _) = merkle_fixture(2, 1000);
    let buf = encode_merkle_job(&job);
    let decoded = decode_merkle_job(&buf).unwrap();
    assert_eq!(decoded, job);
    assert_eq!(encode_merkle_job(&decoded), buf);
}

#[test]
fn merkle_truncated_buffer_is_malformed() {
    let (job, _) = merkle_fixture(1, 1000);
    let buf = encode_merkle_job(&job);
    assert_eq!(execute_smt_proof(&buf[..buf.len() - 1]), Err(JobError::MalformedInput));
}

#[test]
fn shr_index_shifts_across_bytes() {
    let mut idx = [0u8; 32];
    idx[31] = 0b1011_0101;
    idx[30] = 0b0000_0001;
    idx[0] = 0b1000_0001;
    let shifted = shr_index(&idx);
    assert_eq!(shifted[31], 0b1101_1010);  // low bit dropped, carry from byte 30
    assert_eq!(shifted[30], 0);
    assert_eq!(shifted[0], 0b0100_0000);
    assert_eq!(shifted[1], 0b1000_0000);  // carry from byte 0
}

#[test]
fn dispatch_unrecognized_opcode() {
    let buf = vec![7u8, 1, 0, 0, 0];
    assert_eq!(execute_job(&buf), Err(JobError::UnrecognizedOpcode));
    assert_eq!(execute_job(&[]), Err(JobError::MalformedInput));
}

#[test]
fn outputs_serialize_layout() {
    let out = Outputs { hash_output: [0xAB; 32], num_iterations: 0x01020304 };
    let bytes = out.serialize();
    assert_eq!(bytes.len(), 36);
    assert_eq!(&bytes[..32], &[0xAB; 32]);
    assert_eq!(&bytes[32..], &[0x04, 0x03, 0x02, 0x01]);
}

#[test]
fn job_descriptor_round_trip() {
    let hash = JobDescriptor::Hash(HashJob {
        repeat: 1,
        chunk_size: 3,
        chunks: vec![vec![1, 2, 3]],
    });
    let sig = JobDescriptor::Signature(signature_fixture(1));
    let (merkle_job, _) = merkle_fixture(1, 1000);
    let merkle = JobDescriptor::Merkle(merkle_job);
    for job in [hash, sig, merkle] {
        let buf = encode_job(&job);
        let decoded = decode_job(&buf).unwrap();
        assert_eq!(decoded, job);
        assert_eq!(encode_job(&decoded), buf);
    }
}

#[test]
fn outputs_record_round_trip() {
    let out = Outputs { hash_output: sha256(b"record"), num_iterations: 42 };
    let bytes = out.serialize();
    assert_eq!(Outputs::deserialize(&bytes), Some(out));
    assert_eq!(Outputs::deserialize(&bytes[..35]), None);
}
