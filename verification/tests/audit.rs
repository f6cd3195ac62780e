use tig_structs::json::{JsonValue, Solution};
use tig_structs::lifecycle::{
    AuditError, Benchmark, Fraud, LifecycleState, MerkleProof, Precommit, PrecommitDetails,
    Proof, ProofDetails, ProofState,
};
use tig_structs::merkle::{audit_round_trip, branch_root, MerkleTree};
use tig_structs::output::OutputData;
use tig_structs::settings::BenchmarkSettings;

fn settings() -> BenchmarkSettings {
    BenchmarkSettings {
        player_id: String::from("player"),
        block_id: String::from("block"),
        challenge_id: String::from("challenge"),
        algorithm_id: String::from("algorithm"),
        difficulty: vec![40, 250],
    }
}

fn output_for(nonce: u64) -> OutputData {
    let mut payload = Solution::new();
    payload.insert(String::from("answer"), JsonValue::UInt(nonce * 3 + 1));
    OutputData {
        nonce,
        runtime_signature: nonce ^ 0xdead,
        fuel_consumed: 1000 + nonce,
        solution: payload,
    }
}

fn committed_pair(num_nonces: u32, sample_size: u32) -> (Benchmark, MerkleTree, Vec<OutputData>) {
    let outputs: Vec<OutputData> = (0..num_nonces as u64).map(output_for).collect();
    let leaves = outputs.iter().map(|o| o.to_leaf_hash()).collect();
    let tree = MerkleTree::build(&leaves);
    let mut precommit = Precommit::create(
        String::from("bench-1"),
        PrecommitDetails {
            block_started: 1,
            num_nonces,
            rand_hash: String::from("salt"),
            fee_paid: 10,
        },
        settings(),
    );
    precommit.confirm(2);
    let benchmark = Benchmark::create(
        &precommit,
        num_nonces,
        tree.root(),
        sample_size,
        "round-randomness",
    );
    (benchmark, tree, outputs)
}

fn proofs_for(benchmark: &Benchmark, tree: &MerkleTree) -> Vec<MerkleProof> {
    benchmark
        .details
        .sampled_nonces
        .iter()
        .map(|&nonce| MerkleProof {
            leaf: output_for(nonce),
            branch: tree.branch(nonce as usize),
        })
        .collect()
}

#[test]
fn round_trip_all_leaves_verify() {
    let outputs: Vec<OutputData> = (0..9u64).map(output_for).collect();
    let leaves = outputs.iter().map(|o| o.to_leaf_hash()).collect();
    assert!(audit_round_trip(&leaves));
}

#[test]
fn complete_valid_reveal_confirms() {
    let (benchmark, tree, _outputs) = committed_pair(1000, 50);
    assert_eq!(benchmark.details.sampled_nonces.len(), 50);
    let proofs = proofs_for(&benchmark, &tree);
    let mut proof = Proof::create(
        String::from("bench-1"),
        ProofDetails { submission_delay: 3 },
        proofs,
    );
    let verdict = proof.settle(&benchmark, 7);
    assert!(verdict.is_ok());
    assert!(matches!(proof.state, ProofState::Confirmed { round: 7 }));
}

#[test]
fn missing_nonce_is_a_sample_mismatch_without_transition() {
    let (benchmark, tree, _outputs) = committed_pair(1000, 50);
    let mut proofs = proofs_for(&benchmark, &tree);
    proofs.pop();
    assert_eq!(proofs.len(), 49);
    let mut proof = Proof::create(
        String::from("bench-1"),
        ProofDetails { submission_delay: 3 },
        proofs,
    );
    let verdict = proof.settle(&benchmark, 7);
    assert!(matches!(verdict, Err(AuditError::SampleMismatch)));
    assert!(matches!(proof.state, ProofState::Created));
}

#[test]
fn tampered_payload_flags_fraud() {
    let (benchmark, tree, _outputs) = committed_pair(100, 10);
    let mut proofs = proofs_for(&benchmark, &tree);
    // tamper with one revealed solution payload after commitment
    let victim = proofs[4].leaf.nonce;
    let mut tampered = Solution::new();
    tampered.insert(String::from("answer"), JsonValue::UInt(victim * 3 + 2));
    proofs[4].leaf.solution = tampered;
    let mut proof = Proof::create(
        String::from("bench-1"),
        ProofDetails { submission_delay: 3 },
        proofs,
    );
    let verdict = proof.settle(&benchmark, 7);
    assert!(matches!(
        verdict,
        Err(AuditError::VerificationFailure { nonce }) if nonce == victim
    ));
    assert!(matches!(proof.state, ProofState::FraudFlagged));
    let mut fraud = Fraud::create(
        String::from("bench-1"),
        Some(String::from("inclusion proof mismatch")),
    );
    fraud.confirm(8);
    assert!(matches!(fraud.state, LifecycleState::Confirmed { round: 8 }));
}

#[test]
fn corrupted_branch_flags_fraud() {
    let (benchmark, tree, _outputs) = committed_pair(1000, 50);
    let mut proofs = proofs_for(&benchmark, &tree);
    // corrupt one sibling hash in one inclusion proof
    let victim = proofs[0].leaf.nonce;
    proofs[0].branch.0[0].0[0] ^= 0x01;
    let mut proof = Proof::create(
        String::from("bench-1"),
        ProofDetails { submission_delay: 3 },
        proofs,
    );
    let verdict = proof.settle(&benchmark, 7);
    assert!(matches!(
        verdict,
        Err(AuditError::VerificationFailure { nonce }) if nonce == victim
    ));
    assert!(matches!(proof.state, ProofState::FraudFlagged));
}

#[test]
fn branch_binds_the_position() {
    let outputs: Vec<OutputData> = (0..8u64).map(output_for).collect();
    let leaves: Vec<_> = outputs.iter().map(|o| o.to_leaf_hash()).collect();
    let tree = MerkleTree::build(&leaves);
    let root = tree.root();
    let branch = tree.branch(3);
    let ok = branch_root(&leaves[3], 3, &branch);
    assert!(ok.eq_hash(&root));
    let moved = branch_root(&leaves[3], 2, &branch);
    assert!(!moved.eq_hash(&root));
}

#[test]
fn tree_nodes_are_pair_digests() {
    let l0 = output_for(0).to_leaf_hash();
    let l1 = output_for(1).to_leaf_hash();
    let tree = MerkleTree::build(&vec![l0, l1]);
    let mut buf = [0u8; 64];
    buf[..32].copy_from_slice(&l0.0);
    buf[32..].copy_from_slice(&l1.0);
    let expected: [u8; 32] = *blake3::hash(&buf).as_bytes();
    assert_eq!(tree.root().0, expected);
}

#[test]
fn benchmark_requires_confirmed_precommit_flow() {
    let mut precommit = Precommit::create(
        String::from("bench-2"),
        PrecommitDetails {
            block_started: 1,
            num_nonces: 4,
            rand_hash: String::from("salt"),
            fee_paid: 1,
        },
        settings(),
    );
    assert!(matches!(precommit.state, LifecycleState::Created));
    precommit.confirm(5);
    assert!(matches!(precommit.state, LifecycleState::Confirmed { round: 5 }));
    let outputs: Vec<OutputData> = (0..4u64).map(output_for).collect();
    let leaves = outputs.iter().map(|o| o.to_leaf_hash()).collect();
    let tree = MerkleTree::build(&leaves);
    let mut benchmark = Benchmark::create(&precommit, 4, tree.root(), 50, "rand");
    // fewer nonces than the sample size: the whole range is audited
    assert_eq!(benchmark.details.sampled_nonces.len(), 4);
    benchmark.confirm(6);
    assert!(matches!(benchmark.state, LifecycleState::Confirmed { round: 6 }));
}
