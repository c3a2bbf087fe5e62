use archimedes::aggregation::{AggregateCommitment, CommitmentChain};
use archimedes::commitment::{Commitment, CommitmentParams, Randomness};
use archimedes::errors::ArchimedesError;
use archimedes::field::ScalarField;
use ark_std::rand::rngs::StdRng;
use ark_std::rand::SeedableRng;

fn test_rng() -> StdRng {
    let seed = [
        1, 0, 0, 0, 23, 0, 0, 0, 200, 1, 0, 0, 210, 30, 0, 0, 0, 0, 0, 0, 0, 0, 0, 0, 0, 0, 0, 0,
        0, 0, 0, 0,
    ];
    StdRng::from_seed(seed)
}

#[test]
fn test_aggregate_empty() {
    let agg = AggregateCommitment::empty();
    assert_eq!(agg.count, 0);
}

#[test]
fn test_commitment_chain() {
    let mut rng = test_rng();
    let params = CommitmentParams::setup(&mut rng).unwrap();
    let mut chain = CommitmentChain::new(params);
    for i in 1..=5 {
        chain.push(ScalarField::from(i as u64), &mut rng).unwrap();
    }
    assert_eq!(chain.len(), 5);
    let agg = chain.aggregate();
    assert_eq!(agg.count, 5);
    assert!(chain.verify_aggregate(&agg).unwrap());
}

#[test]
fn test_aggregate_range() {
    let mut rng = test_rng();
    let params = CommitmentParams::setup(&mut rng).unwrap();
    let mut chain = CommitmentChain::new(params);
    for i in 1..=10 {
        chain.push(ScalarField::from(i as u64), &mut rng).unwrap();
    }
    let partial = chain.aggregate_range(0, 5).unwrap();
    assert_eq!(partial.count, 5);
}

#[test]
fn test_aggregate_homomorphism() {
    let mut rng = test_rng();
    let params = CommitmentParams::setup(&mut rng).unwrap();
    let mut chain = CommitmentChain::new(params);
    let values: Vec<u64> = vec![10, 20, 30, 40, 50];
    for v in &values {
        chain.push(ScalarField::from(*v), &mut rng).unwrap();
    }
    let agg = chain.aggregate();
    let expected_sum: u64 = values.iter().sum();
    assert_eq!(chain.aggregate_value(), ScalarField::from(expected_sum));
    assert_eq!(chain.aggregate_value(), ScalarField::from(150u64));
    assert!(chain.verify_aggregate(&agg).unwrap());
}

#[test]
fn aggregate_range_rejects_bad_ranges() {
    let mut rng = test_rng();
    let params = CommitmentParams::setup(&mut rng).unwrap();
    let mut chain = CommitmentChain::new(params);
    assert!(chain.is_empty());
    for i in 1..=4 {
        chain.push(ScalarField::from(i as u64), &mut rng).unwrap();
    }
    assert!(!chain.is_empty());
    assert!(matches!(chain.aggregate_range(3, 2), Err(ArchimedesError::AggregationError(_))));
    assert!(matches!(chain.aggregate_range(0, 5), Err(ArchimedesError::AggregationError(_))));
    let empty = chain.aggregate_range(2, 2).unwrap();
    assert_eq!(empty.count, 0);
    assert_eq!(empty.commitment, Commitment::zero());
    let whole = chain.aggregate_range(0, 4).unwrap();
    assert_eq!(whole.commitment, chain.aggregate().commitment);
}

#[test]
fn aggregates_add_up() {
    let mut rng = test_rng();
    let params = CommitmentParams::setup(&mut rng).unwrap();
    let mut chain = CommitmentChain::new(params);
    for i in 1..=6 {
        chain.push(ScalarField::from(i as u64), &mut rng).unwrap();
    }
    let left = chain.aggregate_range(0, 2).unwrap();
    let right = chain.aggregate_range(2, 6).unwrap();
    let merged = left.merge(&right);
    assert_eq!(merged.count, 6);
    assert_eq!(merged.commitment, chain.aggregate().commitment);
    let grown = left.add(&chain.commitments[2]);
    assert_eq!(grown.count, 3);
    assert_eq!(grown.commitment, chain.aggregate_range(0, 3).unwrap().commitment);
    let from_list = AggregateCommitment::from_commitments(&chain.commitments[1..4]);
    assert_eq!(from_list.count, 3);
    assert_eq!(from_list.commitment, chain.aggregate_range(1, 4).unwrap().commitment);
}

#[test]
fn chain_verifies_after_every_push() {
    let mut rng = test_rng();
    let params = CommitmentParams::setup(&mut rng).unwrap();
    let mut chain = CommitmentChain::new(params);
    assert!(chain.verify_aggregate(&chain.aggregate()).unwrap());
    for i in 0..5u64 {
        let c = chain.push(ScalarField::from(i * 17), &mut rng).unwrap();
        assert_eq!(*chain.commitments.last().unwrap(), c);
        assert!(chain.verify_aggregate(&chain.aggregate()).unwrap());
    }
    let other = AggregateCommitment::empty();
    assert!(!chain.verify_aggregate(&other).unwrap());
}

#[test]
fn push_with_randomness_commits_under_the_given_randomness() {
    let mut rng = test_rng();
    let params = CommitmentParams::setup(&mut rng).unwrap();
    let mut chain = CommitmentChain::new(params);
    let r = Randomness(ScalarField::from(9u64));
    let v = ScalarField::from(4u64);
    let c = chain.push_with_randomness(v, r).unwrap();
    assert_eq!(c, params.commit_with_randomness(&v, &r).unwrap());
    assert_eq!(chain.aggregate_randomness(), r);
    assert_eq!(chain.aggregate_value(), v);
    assert_eq!(chain.values.len(), 1);
    assert_eq!(chain.randomness.len(), 1);
}
