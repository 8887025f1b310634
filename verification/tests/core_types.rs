use std::collections::HashMap;

use cosaci::attestation::{canonicalize, hash, Attestation, AttestationResult};
use cosaci::capabilities::{
    select_capability_aware_committee, Candidate, Capabilities, JobRequirements, Platform, Runtime,
    RuntimeSet,
};
use cosaci::confidentiality::{decrypt, encrypt, key_from_bytes, unwrap_dek, wrap_dek, AeadError};
use cosaci::gossip::{merge, Entry, NodeState};
use cosaci::merkle_log::{hash_bytes, peak_heights, verify_inclusion, MerkleLog};
use cosaci::quorum::{aggregate, Outcome, Vote, VoteResult};
use cosaci::reputation::{agreement_rate, initial_reputation, AgreementOutcome, Rate};
use cosaci::retrieval::{build_bundle, JobRecord};
use cosaci::signing::{verify, Keypair, Signature, VerifyingKey};
use cosaci::status::{Status, StatusMachine, TransitionError};
use cosaci::text::{read_signed, read_unsigned, NumberError};
use cosaci::vrf;
use cosaci::vrf::{VrfError, VrfKeypair};

fn unhex(s: &str) -> Vec<u8> {
    cosaci::text::read_hex(s.as_bytes(), false).expect("hex")
}

fn array32(s: &str) -> [u8; 32] {
    unhex(s).try_into().expect("32 bytes")
}

fn vote(runner_id: u64, pass: bool) -> Vote {
    Vote { runner_id, result: if pass { VoteResult::Pass } else { VoteResult::Fail } }
}

fn stakes(list: &[(u64, u64)]) -> HashMap<u64, u64> {
    list.iter().copied().collect()
}

#[test]
fn quorum_outcomes() {
    let s = stakes(&[(1, 100), (2, 100), (3, 100)]);
    assert_eq!(aggregate(&[vote(1, true), vote(2, true)], 200, &s), Outcome::Pass);
    assert_eq!(aggregate(&[vote(1, false), vote(2, false)], 200, &s), Outcome::Fail);
    assert_eq!(aggregate(&[vote(1, true)], 200, &s), Outcome::Retry);
    assert_eq!(aggregate(&[], 301, &s), Outcome::Escalate);
    assert_eq!(aggregate(&[vote(1, true), vote(2, false)], 250, &s), Outcome::Escalate);
}

#[test]
fn quorum_fails_fast_and_takes_the_last_vote() {
    let s = stakes(&[(1, 100), (2, 100)]);
    assert_eq!(aggregate(&[vote(1, true), vote(2, false)], 100, &s), Outcome::Fail);
    assert_eq!(aggregate(&[vote(1, false), vote(1, true)], 100, &s), Outcome::Pass);
    assert_eq!(aggregate(&[vote(9, true)], 100, &s), Outcome::Retry);
}

#[test]
fn status_goes_forward_only() {
    let mut m = StatusMachine::new();
    assert_eq!(
        m.transition(Status::Success),
        Err(TransitionError::IllegalTransition { from: Status::Pending, to: Status::Success })
    );
    assert_eq!(m.transition(Status::Running), Ok(Status::Running));
    assert_eq!(m.transition(Status::QuorumVerifying), Ok(Status::QuorumVerifying));
    assert_eq!(m.transition(Status::Failure), Ok(Status::Failure));
    assert!(m.is_terminal());
    assert_eq!(
        m.transition(Status::Running),
        Err(TransitionError::AlreadyTerminal { current: Status::Failure })
    );
    assert_eq!(m.current(), Status::Failure);
}

#[test]
fn signatures_match_the_published_vector() {
    let kp = Keypair::from_seed(array32(
        "9d61b19deffd5a60ba844af492ec2cc44449c5697b326919703bac031cae7f60",
    ));
    assert_eq!(
        kp.verifying_key().to_bytes().to_vec(),
        unhex("d75a980182b10ab7d54bfed3c964073a0ee172f3daa62325af021a68f707511a")
    );
    let sig = kp.sign(b"");
    assert_eq!(
        sig.to_bytes().to_vec(),
        unhex(
            "e5564300c360ac729086e2cc806e828a84877f1eb8e5d974d873e065224901555fb8821590a33bacc61e39701cf9b46bd25bf5f0595bbe24655141438e7a100b"
        )
    );
    assert!(verify(&kp.verifying_key(), b"", &sig).is_ok());
    assert!(verify(&kp.verifying_key(), b"x", &sig).is_err());
    let mut bent = sig.to_bytes();
    bent[0] ^= 1;
    assert!(verify(&kp.verifying_key(), b"", &Signature::from_bytes(&bent)).is_err());
}

#[test]
fn a_key_that_is_no_point_is_refused() {
    let mut bytes = [0u8; 32];
    bytes[0] = 2;
    assert!(VerifyingKey::from_bytes(&bytes).is_err());
}

#[test]
fn vrf_proves_its_output() {
    let kp = VrfKeypair::from_seed([7; 32]);
    let pk = kp.public_key_bytes();
    let (out, proof) = kp.evaluate(b"seed");
    let (again, _) = kp.evaluate(b"seed");
    assert_eq!(out, again);
    assert_ne!(out, kp.evaluate(b"other").0);
    assert_eq!(vrf::verify(&pk, b"seed", &out, &proof), Ok(()));
    assert_eq!(vrf::verify(&pk, b"other", &out, &proof), Err(VrfError::InvalidProof));
    let stranger = VrfKeypair::from_seed([8; 32]).public_key_bytes();
    assert_eq!(vrf::verify(&stranger, b"seed", &out, &proof), Err(VrfError::InvalidProof));
    assert_eq!(
        vrf::verify(&[0xff; 32], b"seed", &out, &proof),
        Err(VrfError::InvalidPublicKey)
    );
    assert_eq!(vrf::verify(&pk, b"seed", &[0xff; 32], &proof), Err(VrfError::InvalidOutput));
    assert_eq!(vrf::verify(&pk, b"seed", &out, &[0xff; 64]), Err(VrfError::InvalidProof));
}

fn attestation() -> Attestation {
    Attestation {
        version: 1,
        job_id: [1; 16],
        commit: [2; 32],
        runner_id: 3,
        result: AttestationResult::Fail,
        environment_hash: [4; 32],
        artifact_hash: [5; 32],
        timestamp_unix_ns: -6,
        signature: [0; 64],
    }
}

#[test]
fn a_signature_covers_every_other_field() {
    let kp = Keypair::from_seed([9; 32]);
    let mut a = attestation();
    let before = canonicalize(&a);
    a.sign_with(&kp);
    assert_eq!(canonicalize(&a), before);
    assert!(a.verify_signature(&kp.verifying_key()));
    let mut b = a;
    b.timestamp_unix_ns += 1;
    assert!(!b.verify_signature(&kp.verifying_key()));
    assert_ne!(hash(&a), hash(&b));
    assert_eq!(canonicalize(&a)[0], 0xa8);
}

#[test]
fn sealed_data_opens_with_its_key_only() {
    let sealed = encrypt(&[1; 32], &[2; 12], b"secret").expect("seal");
    assert_eq!(sealed.len(), 6 + 16);
    assert_eq!(decrypt(&[1; 32], &[2; 12], &sealed), Ok(b"secret".to_vec()));
    assert_eq!(decrypt(&[3; 32], &[2; 12], &sealed), Err(AeadError::Failed));
    let mut bent = sealed;
    bent[0] ^= 1;
    assert_eq!(decrypt(&[1; 32], &[2; 12], &bent), Err(AeadError::Failed));
}

#[test]
fn a_wrapped_key_unwraps() {
    let wrapped = wrap_dek(&[1; 32], &[2; 12], &[7; 32]).expect("wrap");
    assert_eq!(unwrap_dek(&[1; 32], &[2; 12], &wrapped), Ok([7; 32]));
    let short = encrypt(&[1; 32], &[2; 12], b"short").expect("seal");
    assert_eq!(unwrap_dek(&[1; 32], &[2; 12], &short), Err(AeadError::BadKeyLength));
    assert_eq!(key_from_bytes(&vec![1; 31]), Err(AeadError::BadKeyLength));
}

#[test]
fn gossip_converges_on_the_latest() {
    let mut a = NodeState::new();
    let mut b = NodeState::new();
    a.write(1, 10, 5);
    b.write(1, 20, 6);
    b.write(2, 30, 1);
    let ab = merge(&a, &b);
    let ba = merge(&b, &a);
    assert_eq!(ab, ba);
    assert_eq!(ab.get(1), Some(Entry { value: 20, timestamp: 6 }));
    assert_eq!(ab.len(), 2);
    assert_eq!(merge(&ab, &ab), ab);
}

#[test]
fn hashing_is_sha256() {
    let want = array32("ba7816bf8f01cfea414140de5dae2223b00361a396177a9cb410ff61f20015ad");
    assert_eq!(hash_bytes(b"abc"), want);
    assert_eq!(cosaci::wasm_runtime::module_hash(b"abc"), want);
    assert_eq!(cosaci::tenant::fingerprint(&[0; 32]), cosaci::enrollment::fingerprint(&[0; 32]));
}

#[test]
fn every_entry_has_a_proof_that_stays_good() {
    let mut log = MerkleLog::new();
    assert_eq!(log.root(), None);
    let mut kept = Vec::new();
    for i in 0u8..9 {
        let pos = log.append([i; 32]);
        assert_eq!(pos, i as u64);
        let root = log.root().expect("root");
        let proof = log.inclusion_proof(pos).expect("proof");
        assert!(verify_inclusion(&proof, root));
        let layers = (pos + 1).next_power_of_two().trailing_zeros() as usize;
        assert!(proof.proof_hashes.len() <= layers);
        kept.push((proof, root));
    }
    for (proof, root) in &kept {
        assert!(verify_inclusion(proof, *root));
        assert_eq!(log.root_at(proof.length_at_proof), Some(*root));
        let mut other = *root;
        other[0] ^= 1;
        assert!(!verify_inclusion(proof, other));
    }
    let mut bent = kept[3].0.clone();
    bent.entry = [0xff; 32];
    assert!(!verify_inclusion(&bent, kept[3].1));
    assert_eq!(log.inclusion_proof(9), None);
    assert_eq!(log.inclusion_proof_at(3, 3), None);
    assert_eq!(log.entry_at(4), Some([4; 32]));
}

#[test]
fn a_log_is_read_from_its_file() {
    let mut bytes = vec![1u8; 32];
    bytes.extend_from_slice(&[2u8; 32]);
    let log = MerkleLog::from_bytes(&bytes).expect("log");
    assert_eq!(log.len(), 2);
    assert_eq!(log.entry_at(0), Some([1; 32]));
    assert_eq!(log.entry_at(1), Some([2; 32]));
    assert_eq!(MerkleLog::from_bytes(&[]).expect("log").len(), 0);
    assert!(MerkleLog::from_bytes(&bytes[..40]).is_none());
}

#[test]
fn a_single_entry_is_its_own_root() {
    let mut log = MerkleLog::new();
    log.append([7; 32]);
    assert_eq!(log.root(), Some([7; 32]));
}

#[test]
fn peaks_are_the_bits_of_the_length() {
    assert_eq!(peak_heights(0), Vec::<u8>::new());
    assert_eq!(peak_heights(11), vec![3, 1, 0]);
    let mut log = MerkleLog::new();
    for i in 0u8..5 {
        log.append([i; 32]);
    }
    assert_eq!(log.peak_hashes(5).len(), 2);
    assert_eq!(log.peak_hashes(5)[0], log.root_at(4).expect("root"));
    assert_eq!(log.peak_hashes(5)[1], [4; 32]);
    assert!(log.peak_hashes(6).is_empty());
}

#[test]
fn reputation_is_the_share_of_agreement() {
    let h = [AgreementOutcome::Agree, AgreementOutcome::Disagree, AgreementOutcome::Agree];
    assert_eq!(agreement_rate(&h), Rate { agrees: 2, total: 3 });
    assert_eq!(agreement_rate(&[]), initial_reputation());
}

fn candidate(id: u64, cpu: u32, first: u8) -> Candidate<u64> {
    let mut vrf_output = [0u8; 32];
    vrf_output[0] = first;
    Candidate {
        id,
        capabilities: Capabilities {
            cpu,
            memory_mb: 1024,
            platform: Platform::LinuxX86_64,
            runtimes: RuntimeSet::of(&[Runtime::Wasm]),
        },
        vrf_output,
    }
}

#[test]
fn a_committee_is_the_smallest_outputs_of_the_able() {
    let job = JobRequirements {
        cpu: 2,
        memory_mb: 512,
        platform: Platform::LinuxX86_64,
        runtimes: RuntimeSet::of(&[Runtime::Wasm]),
    };
    let c = [candidate(1, 4, 9), candidate(2, 1, 0), candidate(3, 2, 5), candidate(4, 8, 7)];
    assert_eq!(select_capability_aware_committee(&c, &job, 2), Some(vec![3, 4]));
    assert_eq!(select_capability_aware_committee(&c, &job, 3), Some(vec![3, 4, 1]));
    assert_eq!(select_capability_aware_committee(&c, &job, 4), None);
    let mut needs_docker = job;
    needs_docker.runtimes.insert(Runtime::Docker);
    assert!(!cosaci::capabilities::matches(&c[0].capabilities, &needs_docker));
}

#[test]
fn a_bundle_is_frozen_at_its_anchor() {
    let mut log = MerkleLog::new();
    log.append([1; 32]);
    let pos = log.append([2; 32]);
    let record = JobRecord {
        job_id: 5,
        pipeline_hash: [3; 32],
        committee_attestations: vec![attestation()],
        consensus_artifact: [2; 32],
        log_position: pos,
        log_length_at_anchor: 2,
    };
    let mut records = HashMap::new();
    records.insert(5, record);
    let before = build_bundle(&records, &log, 5).expect("bundle");
    log.append([4; 32]);
    let after = build_bundle(&records, &log, 5).expect("bundle");
    assert_eq!(before, after);
    assert!(verify_inclusion(&after.merkle_proof, after.log_root));
    assert_eq!(build_bundle(&records, &log, 6), None);
}

#[test]
fn numbers_read_as_the_standard_library_reads_them() {
    let samples = [
        "", "+", "-", "0", "007", "+5", "-5", "5x", "x5", " 5", "18446744073709551615",
        "18446744073709551616", "18446744073709551616x", "1844674407370955161x",
        "9223372036854775807", "9223372036854775808", "-9223372036854775808",
        "-9223372036854775809", "-9223372036854775809x", "--1", "+-1", "é",
    ];
    for s in samples {
        let chars: Vec<char> = s.chars().collect();
        let unsigned = read_unsigned(&chars, u64::MAX).map_err(|e| e.message().to_string());
        assert_eq!(unsigned, s.parse::<u64>().map_err(|e| e.to_string()), "{s}");
        let signed = read_signed(&chars).map_err(|e| e.message().to_string());
        assert_eq!(signed, s.parse::<i64>().map_err(|e| e.to_string()), "{s}");
    }
    assert_eq!(read_unsigned(&['2', '5', '6'], 255), Err(NumberError::TooLarge));
}
