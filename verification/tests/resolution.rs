use archimedes::commitment::{CommitmentParams, Opening, Randomness};
use archimedes::encoding::{AccountState, StateTransition};
use archimedes::errors::ArchimedesError;
use archimedes::field::ScalarField;
use archimedes::resolution::{DisputeOutcome, DisputeResolver, SingleStepProof};
use ark_std::rand::rngs::StdRng;
use ark_std::rand::SeedableRng;

fn test_rng() -> StdRng {
    let seed = [
        1, 0, 0, 0, 23, 0, 0, 0, 200, 1, 0, 0, 210, 30, 0, 0, 0, 0, 0, 0, 0, 0, 0, 0, 0, 0, 0, 0,
        0, 0, 0, 0,
    ];
    StdRng::from_seed(seed)
}

#[test]
fn test_execute_transition() {
    let mut rng = test_rng();
    let params = CommitmentParams::setup(&mut rng).unwrap();
    let resolver = DisputeResolver::new(params);

    let pre = AccountState::new(1000, 0);
    let post = resolver.execute_transition(&pre, 100).unwrap();

    assert_eq!(post.balance, 900);
    assert_eq!(post.nonce, 1);
}

#[test]
fn test_verify_transition() {
    let mut rng = test_rng();
    let params = CommitmentParams::setup(&mut rng).unwrap();
    let resolver = DisputeResolver::new(params);

    let pre = AccountState::new(1000, 0);
    let post = AccountState::new(900, 1);

    assert!(resolver.verify_transition(&pre, &post, 100).unwrap());
    assert!(!resolver.verify_transition(&pre, &post, 50).unwrap());
}

#[test]
fn resolution_test_insufficient_balance() {
    let mut rng = test_rng();
    let params = CommitmentParams::setup(&mut rng).unwrap();
    let resolver = DisputeResolver::new(params);

    let pre = AccountState::new(100, 0);
    let result = resolver.execute_transition(&pre, 200);

    assert!(result.is_err());
}

#[test]
fn test_single_step_verification() {
    let mut rng = test_rng();
    let params = CommitmentParams::setup(&mut rng).unwrap();
    let resolver = DisputeResolver::new(params.clone());

    let pre = AccountState::new(1000, 0);
    let post = AccountState::new(900, 1);
    let transition = StateTransition::new(pre.clone(), post.clone(), [0u8; 32]);
    let value = transition.to_commitment_value();

    let (commitment, randomness) = params.commit(&value, &mut rng).unwrap();
    let opening = Opening { value, randomness };

    let proof = SingleStepProof { index: 0, pre_state: pre, post_state: post, commitment, opening };

    let outcome = resolver.verify_single_step(&proof).unwrap();
    assert_eq!(outcome, DisputeOutcome::ProposerCorrect);
}

#[test]
fn single_step_verdicts() {
    let mut rng = test_rng();
    let params = CommitmentParams::setup(&mut rng).unwrap();
    let resolver = DisputeResolver::new(params);

    let pre = AccountState::new(1000, 0);
    let post = AccountState::new(900, 1);
    let value = StateTransition::new(pre, post, [0u8; 32]).to_commitment_value();
    let (commitment, randomness) = params.commit(&value, &mut rng).unwrap();
    let opening = Opening { value, randomness };
    let honest = SingleStepProof { index: 0, pre_state: pre, post_state: post, commitment, opening };
    assert_eq!(resolver.verify_single_step(&honest).unwrap(), DisputeOutcome::ProposerCorrect);

    let mut swapped = honest;
    swapped.post_state.balance = 950;
    assert_eq!(resolver.verify_single_step(&swapped).unwrap(), DisputeOutcome::ProposerFaulty);

    let mut tampered = honest;
    tampered.opening.randomness = Randomness(randomness.0.add(&ScalarField::from(1u64)));
    assert_eq!(resolver.verify_single_step(&tampered).unwrap(), DisputeOutcome::InvalidProof);

    let other_tx = StateTransition::new(pre, post, [1u8; 32]).to_commitment_value();
    let (c2, r2) = params.commit(&other_tx, &mut rng).unwrap();
    let with_tx_hash = SingleStepProof {
        index: 0,
        pre_state: pre,
        post_state: post,
        commitment: c2,
        opening: Opening { value: other_tx, randomness: r2 },
    };
    assert_eq!(resolver.verify_single_step(&with_tx_hash).unwrap(), DisputeOutcome::ProposerFaulty);
}

#[test]
fn transfer_keeps_code_and_storage() {
    let mut rng = test_rng();
    let params = CommitmentParams::setup(&mut rng).unwrap();
    let resolver = DisputeResolver::new(params);
    let pre = AccountState { balance: 1000, nonce: 41, code_hash: [9u8; 32], storage_root: [8u8; 32] };
    let post = resolver.execute_transition(&pre, 1000).unwrap();
    assert_eq!(
        post,
        AccountState { balance: 0, nonce: 42, code_hash: [9u8; 32], storage_root: [8u8; 32] }
    );
    let none = resolver.execute_transition(&pre, 0).unwrap();
    assert_eq!(none.balance, 1000);
    assert_eq!(none.nonce, 42);
    let err = resolver.execute_transition(&pre, 1001);
    match err {
        Err(ArchimedesError::DisputeError(text)) => assert_eq!(text, "Insufficient balance"),
        _ => panic!("a transfer above the balance must be refused"),
    }
    assert!(resolver.verify_transition(&pre, &post, 1001).is_err());
    let mut other_code = post;
    other_code.code_hash = [0u8; 32];
    assert!(!resolver.verify_transition(&pre, &other_code, 1000).unwrap());
    assert!(resolver.verify_transition(&pre, &post, 1000).unwrap());
}

#[test]
fn refused_transfer_at_the_last_nonce() {
    let mut rng = test_rng();
    let params = CommitmentParams::setup(&mut rng).unwrap();
    let resolver = DisputeResolver::new(params);
    let pre = AccountState { balance: 1, nonce: u64::MAX, code_hash: [0u8; 32], storage_root: [0u8; 32] };
    assert!(resolver.execute_transition(&pre, 2).is_err());
    assert!(resolver.verify_transition(&pre, &pre, 2).is_err());
}
