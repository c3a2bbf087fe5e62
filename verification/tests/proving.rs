use archimedes::circuit::{
    CircuitError, Constraint, ConstraintTerm, CircuitInput, TransitionCircuit,
};
use archimedes::encoding::AccountState;
use archimedes::transcript::{verify_entries, ProofTranscript, TranscriptError, TranscriptEntry};
use archimedes::witness::{TransitionOperation, TransitionWitness, WitnessError, WitnessGenerator};
use sha2::{Digest, Sha256};

fn test_account(balance: u128) -> AccountState {
    AccountState { balance, nonce: 0, code_hash: [0u8; 32], storage_root: [0u8; 32] }
}

fn sha(data: &[u8]) -> [u8; 32] {
    Sha256::digest(data).into()
}

#[test]
fn test_generate_transfer_witness() {
    let from = test_account(1000);
    let to = test_account(500);

    let witness = WitnessGenerator::generate_transfer(from, to, 100).unwrap();

    assert_eq!(witness.intermediate_values.len(), 3);
    assert_eq!(witness.post_state.balance, 900);
    assert_eq!(witness.post_state.nonce, 1);
}

#[test]
fn witness_test_insufficient_balance() {
    let from = test_account(100);
    let to = test_account(500);

    let result = WitnessGenerator::generate_transfer(from, to, 200);
    assert!(matches!(result, Err(WitnessError::InvalidTransition)));
}

#[test]
fn test_circuit_from_witness() {
    let from = test_account(1000);
    let to = test_account(500);

    let witness = WitnessGenerator::generate_transfer(from, to, 100).unwrap();
    let circuit = TransitionCircuit::from_witness(&witness).unwrap();

    assert!(!circuit.constraints.is_empty());
    assert_eq!(circuit.num_variables, 5);
}

#[test]
fn test_constraint_verification() {
    let from = test_account(1000);
    let to = test_account(500);

    let witness = WitnessGenerator::generate_transfer(from, to, 100).unwrap();
    let circuit = TransitionCircuit::from_witness(&witness).unwrap();

    let assignment = vec![2, 2, 2, 4, 4];
    let result = circuit.verify_constraints(&assignment);
    assert!(result.is_ok());
}

#[test]
fn test_transcript_append() {
    let mut transcript = ProofTranscript::new();
    transcript.append("step1", b"data1");
    transcript.append("step2", b"data2");

    assert_eq!(transcript.entries().len(), 2);
    assert_ne!(transcript.current_hash(), [0u8; 32]);
}

#[test]
fn test_transcript_verify() {
    let mut transcript = ProofTranscript::new();
    transcript.append("init", b"genesis");
    transcript.append("transition", b"state_change");

    let result = transcript.verify();
    assert!(result.is_ok());
}

#[test]
fn test_challenge_determinism() {
    let mut t1 = ProofTranscript::new();
    t1.append("data", b"same_data");

    let mut t2 = ProofTranscript::new();
    t2.append("data", b"same_data");

    assert_eq!(t1.challenge(), t2.challenge());
}

#[test]
fn test_challenge_uniqueness() {
    let mut t1 = ProofTranscript::new();
    t1.append("data", b"data1");

    let mut t2 = ProofTranscript::new();
    t2.append("data", b"data2");

    assert_ne!(t1.challenge(), t2.challenge());
}

#[test]
fn transfer_witness_digests() {
    let from = AccountState { balance: 1000, nonce: 7, code_hash: [1u8; 32], storage_root: [2u8; 32] };
    let to = test_account(500);
    let witness = WitnessGenerator::generate_transfer(from, to, 100).unwrap();
    assert_eq!(witness.pre_state, from);
    assert_eq!(
        witness.post_state,
        AccountState { balance: 900, nonce: 8, code_hash: [1u8; 32], storage_root: [2u8; 32] }
    );
    assert!(matches!(witness.operation, TransitionOperation::Transfer { amount: 100 }));
    let mut check = 1000u128.to_le_bytes().to_vec();
    check.extend_from_slice(&100u128.to_le_bytes());
    let steps = &witness.intermediate_values;
    assert_eq!((steps[0].step, steps[0].description.as_str()), (1, "balance_check"));
    assert_eq!(steps[0].value_hash, sha(&check));
    assert_eq!((steps[1].step, steps[1].description.as_str()), (2, "from_balance_update"));
    assert_eq!(steps[1].value_hash, sha(&900u128.to_le_bytes()));
    assert_eq!((steps[2].step, steps[2].description.as_str()), (3, "to_balance_update"));
    assert_eq!(steps[2].value_hash, sha(&600u128.to_le_bytes()));
    let mut both = from.hash().to_vec();
    both.extend_from_slice(&witness.post_state.hash());
    assert_eq!(witness.compute_hash(), sha(&both));
    let exact = WitnessGenerator::generate_transfer(from, to, 1000).unwrap();
    assert_eq!(exact.post_state.balance, 0);
}

#[test]
fn operation_digests() {
    let mut transfer = b"transfer".to_vec();
    transfer.extend_from_slice(&100u128.to_le_bytes());
    assert_eq!(
        TransitionCircuit::hash_operation(&TransitionOperation::Transfer { amount: 100 }),
        sha(&transfer)
    );
    assert_eq!(
        TransitionCircuit::hash_operation(&TransitionOperation::NonceIncrement),
        sha(b"nonce_inc")
    );
    let mut write = b"storage_write".to_vec();
    write.extend_from_slice(&[3u8; 32]);
    write.extend_from_slice(&[4u8; 32]);
    assert_eq!(
        TransitionCircuit::hash_operation(&TransitionOperation::StorageWrite {
            key: [3u8; 32],
            value: [4u8; 32]
        }),
        sha(&write)
    );
    let witness = TransitionWitness {
        pre_state: test_account(5),
        post_state: test_account(6),
        operation: TransitionOperation::NonceIncrement,
        intermediate_values: Vec::new(),
    };
    let circuit = TransitionCircuit::from_witness(&witness).unwrap();
    assert_eq!(circuit.input.pre_state_hash, test_account(5).hash());
    assert_eq!(circuit.input.post_state_hash, test_account(6).hash());
    assert_eq!(circuit.input.operation_hash, sha(b"nonce_inc"));
    assert_eq!(circuit.constraints.len(), 3);
}

#[test]
fn constraint_violations_are_reported() {
    let witness = WitnessGenerator::generate_transfer(test_account(1000), test_account(0), 1).unwrap();
    let circuit = TransitionCircuit::from_witness(&witness).unwrap();
    assert_eq!(circuit.verify_constraints(&[2, 2, 2, 4, 4]), Ok(true));
    assert_eq!(circuit.verify_constraints(&[2, 2, 2, 4]), Err(CircuitError::InvalidInput));
    assert_eq!(
        circuit.verify_constraints(&[2, 3, 2, 6, 5]),
        Err(CircuitError::ConstraintViolation("Constraint 0 failed: 2 * 1 != 3".to_string()))
    );
    assert_eq!(
        circuit.verify_constraints(&[2, 2, 20, 41, 4]),
        Err(CircuitError::ConstraintViolation("Constraint 1 failed: 2 * 20 != 41".to_string()))
    );
    assert_eq!(
        circuit.verify_constraints(&[2, 2, 2, 4, 0, 9]),
        Err(CircuitError::ConstraintViolation("Constraint 2 failed: 4 * 1 != 0".to_string()))
    );
}

#[test]
fn terms_are_evaluated() {
    let circuit = TransitionCircuit {
        constraints: vec![Constraint {
            left: ConstraintTerm::LinearCombination(vec![(3, 0), (5, 1), (7, 0)]),
            right: ConstraintTerm::Constant(2),
            output: ConstraintTerm::Variable(2),
        }],
        input: CircuitInput {
            pre_state_hash: [0u8; 32],
            post_state_hash: [0u8; 32],
            operation_hash: [0u8; 32],
        },
        num_variables: 3,
    };
    let assignment = [10u64, 100, 1200];
    assert_eq!(circuit.evaluate_term(&circuit.constraints[0].left, &assignment), 600);
    assert_eq!(circuit.evaluate_term(&ConstraintTerm::Constant(9), &assignment), 9);
    assert_eq!(circuit.evaluate_term(&ConstraintTerm::Variable(1), &assignment), 100);
    assert_eq!(circuit.evaluate_term(&ConstraintTerm::LinearCombination(Vec::new()), &assignment), 0);
    assert_eq!(circuit.verify_constraints(&assignment), Ok(true));
    assert_eq!(
        circuit.verify_constraints(&[10, 100, 1201]),
        Err(CircuitError::ConstraintViolation("Constraint 0 failed: 600 * 2 != 1201".to_string()))
    );
}

#[test]
fn transcript_chain() {
    let mut transcript = ProofTranscript::default();
    assert_eq!(transcript.current_hash(), [0u8; 32]);
    assert_eq!(transcript.verify(), Ok(true));
    transcript.append("one", b"first");
    transcript.append("two", b"second");
    let entries = transcript.entries();
    let mut step = vec![0u8; 32];
    step.extend_from_slice(&sha(b"first"));
    let running1 = sha(&step);
    assert_eq!(entries[0].index, 0);
    assert_eq!(entries[0].label, "one");
    assert_eq!(entries[0].data_hash, sha(b"first"));
    assert_eq!(entries[0].running_hash, running1);
    let mut step = running1.to_vec();
    step.extend_from_slice(&sha(b"second"));
    assert_eq!(entries[1].index, 1);
    assert_eq!(entries[1].running_hash, sha(&step));
    assert_eq!(transcript.current_hash(), sha(&step));
    let mut tagged = b"challenge".to_vec();
    tagged.extend_from_slice(&transcript.current_hash());
    assert_eq!(transcript.challenge(), sha(&tagged));
    assert_eq!(transcript.verify(), Ok(true));
    let copy = transcript.clone();
    assert_eq!(copy.current_hash(), transcript.current_hash());
}

#[test]
fn broken_chains_are_refused() {
    let mut transcript = ProofTranscript::new();
    transcript.append("one", b"first");
    transcript.append("two", b"second");
    let mut entries: Vec<TranscriptEntry> = transcript.entries().to_vec();
    assert_eq!(verify_entries(&entries), Ok(true));
    entries[0].data_hash[0] ^= 1;
    assert_eq!(verify_entries(&entries), Err(TranscriptError::VerificationFailed));
    entries[0].data_hash[0] ^= 1;
    entries[1].running_hash[31] ^= 1;
    assert_eq!(verify_entries(&entries), Err(TranscriptError::VerificationFailed));
    entries.swap(0, 1);
    assert_eq!(verify_entries(&entries), Err(TranscriptError::VerificationFailed));
    assert_eq!(verify_entries(&[]), Ok(true));
}
