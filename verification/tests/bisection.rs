use archimedes::aggregation::{AggregateCommitment, CommitmentChain};
use archimedes::bisection::{BisectionProtocol, BisectionState, Challenge, DisputeResult, Response};
use archimedes::commitment::CommitmentParams;
use archimedes::errors::ArchimedesError;
use archimedes::field::ScalarField;
use archimedes::merkle::CommitmentMerkleTree;
use ark_std::rand::rngs::StdRng;
use ark_std::rand::SeedableRng;

fn test_rng() -> StdRng {
    let seed = [
        1, 0, 0, 0, 23, 0, 0, 0, 200, 1, 0, 0, 210, 30, 0, 0, 0, 0, 0, 0, 0, 0, 0, 0, 0, 0, 0, 0,
        0, 0, 0, 0,
    ];
    StdRng::from_seed(seed)
}

fn setup_tree(size: usize) -> CommitmentMerkleTree {
    let mut rng = test_rng();
    let params = CommitmentParams::setup(&mut rng).unwrap();
    let mut chain = CommitmentChain::new(params);
    for i in 1..=size {
        chain.push(ScalarField::from(i as u64), &mut rng).unwrap();
    }
    CommitmentMerkleTree::build(&chain.commitments).unwrap()
}

fn challenge_over(tree: &CommitmentMerkleTree, lo: usize, hi: usize) -> Challenge {
    Challenge {
        challenger_id: [1u8; 32],
        disputed_range: (lo, hi),
        claimed_aggregate: *tree.aggregate(),
        timestamp: 0,
    }
}

fn honest_response(tree: &CommitmentMerkleTree, lo: usize, mid: usize, hi: usize) -> Response {
    Response {
        proposer_id: [2u8; 32],
        mid_index: mid,
        left_aggregate: tree.range_aggregate(lo, mid).unwrap(),
        right_aggregate: tree.range_aggregate(mid, hi).unwrap(),
        timestamp: 1,
    }
}

#[test]
fn test_bisection_init() {
    let tree = setup_tree(8);
    let protocol = BisectionProtocol::new(tree);
    assert_eq!(protocol.state, BisectionState::Initial);
    assert_eq!(protocol.current_range, (0, 8));
}

#[test]
fn test_challenge_initiation() {
    let tree = setup_tree(8);
    let agg = tree.aggregate().clone();
    let mut protocol = BisectionProtocol::new(tree);
    let challenge = Challenge {
        challenger_id: [1u8; 32],
        disputed_range: (0, 8),
        claimed_aggregate: agg,
        timestamp: 0,
    };
    protocol.initiate_challenge(challenge).unwrap();
    assert_eq!(protocol.state, BisectionState::Challenged);
}

#[test]
fn max_rounds_is_ceil_log2_plus_one() {
    for (n, expected) in [(1usize, 1usize), (2, 2), (3, 3), (4, 3), (5, 4), (8, 4), (9, 5)] {
        let protocol = BisectionProtocol::new(setup_tree(n));
        assert_eq!(protocol.max_rounds, expected);
        assert_eq!(protocol.round, 0);
        assert!(protocol.responses.is_empty());
        assert!(protocol.challenge.is_none());
        assert!(!protocol.is_resolved());
        assert_eq!(protocol.disputed_index(), None);
    }
}

#[test]
fn challenge_guards() {
    let tree = setup_tree(8);
    let mut protocol = BisectionProtocol::new(tree.clone());
    for (lo, hi) in [(3usize, 3usize), (5, 2), (0, 9)] {
        let res = protocol.initiate_challenge(challenge_over(&tree, lo, hi));
        assert!(matches!(res, Err(ArchimedesError::DisputeError(_))));
        assert_eq!(protocol.state, BisectionState::Initial);
        assert_eq!(protocol.current_range, (0, 8));
    }
    protocol.initiate_challenge(challenge_over(&tree, 2, 7)).unwrap();
    assert_eq!(protocol.current_range, (2, 7));
    assert_eq!(protocol.challenge.unwrap().disputed_range, (2, 7));
    let again = protocol.initiate_challenge(challenge_over(&tree, 0, 8));
    assert!(matches!(again, Err(ArchimedesError::DisputeError(_))));
    assert_eq!(protocol.current_range, (2, 7));
}

#[test]
fn response_guards() {
    let tree = setup_tree(8);
    let mut protocol = BisectionProtocol::new(tree.clone());
    let early = protocol.respond(honest_response(&tree, 0, 4, 8));
    assert!(matches!(early, Err(ArchimedesError::DisputeError(_))));
    let no_start = protocol.select_direction(true);
    assert!(matches!(no_start, Err(ArchimedesError::DisputeError(_))));
    protocol.initiate_challenge(challenge_over(&tree, 0, 8)).unwrap();
    let no_response = protocol.select_direction(true);
    assert!(matches!(no_response, Err(ArchimedesError::DisputeError(_))));
    assert_eq!(protocol.state, BisectionState::Challenged);
    for mid in [0usize, 8, 9] {
        let mut r = honest_response(&tree, 0, 4, 8);
        r.mid_index = mid;
        assert!(matches!(protocol.respond(r), Err(ArchimedesError::DisputeError(_))));
        assert_eq!(protocol.round, 0);
    }
}

#[test]
fn honest_game_narrows_to_one_index() {
    let tree = setup_tree(8);
    let mut protocol = BisectionProtocol::new(tree.clone());
    protocol.initiate_challenge(challenge_over(&tree, 0, 8)).unwrap();

    protocol.respond(honest_response(&tree, 0, 4, 8)).unwrap();
    assert_eq!(protocol.state, BisectionState::Challenged);
    assert_eq!(protocol.round, 1);
    protocol.select_direction(false).unwrap();
    assert_eq!(protocol.state, BisectionState::BisectRight);
    assert_eq!(protocol.current_range, (4, 8));

    protocol.respond(honest_response(&tree, 4, 6, 8)).unwrap();
    assert_eq!(protocol.state, BisectionState::BisectRight);
    protocol.select_direction(true).unwrap();
    assert_eq!(protocol.state, BisectionState::BisectLeft);
    assert_eq!(protocol.current_range, (4, 6));
    assert!(!protocol.is_resolved());

    protocol.respond(honest_response(&tree, 4, 5, 6)).unwrap();
    assert_eq!(protocol.state, BisectionState::Resolve);
    assert_eq!(protocol.round, 3);
    assert!(protocol.round <= protocol.max_rounds);
    assert!(protocol.is_resolved());
    assert_eq!(protocol.disputed_index(), None);
    let late = protocol.select_direction(true);
    assert!(matches!(late, Err(ArchimedesError::DisputeError(_))));
    assert_eq!(protocol.responses.len(), 3);
}

#[test]
fn selection_down_to_one_leaf_resolves() {
    let tree = setup_tree(8);
    let mut protocol = BisectionProtocol::new(tree.clone());
    protocol.initiate_challenge(challenge_over(&tree, 0, 8)).unwrap();
    protocol.respond(honest_response(&tree, 0, 1, 8)).unwrap();
    protocol.select_direction(true).unwrap();
    assert_eq!(protocol.state, BisectionState::Resolve);
    assert_eq!(protocol.current_range, (0, 1));
    assert_eq!(protocol.disputed_index(), Some(0));

    let mut other = BisectionProtocol::new(tree.clone());
    other.initiate_challenge(challenge_over(&tree, 0, 8)).unwrap();
    other.respond(honest_response(&tree, 0, 7, 8)).unwrap();
    other.select_direction(false).unwrap();
    assert_eq!(other.state, BisectionState::Resolve);
    assert_eq!(other.disputed_index(), Some(7));
}

#[test]
fn width_two_becomes_bisect_left_on_left_selection() {
    let tree = setup_tree(8);
    let mut protocol = BisectionProtocol::new(tree.clone());
    protocol.initiate_challenge(challenge_over(&tree, 0, 8)).unwrap();
    protocol.respond(honest_response(&tree, 0, 2, 8)).unwrap();
    protocol.select_direction(true).unwrap();
    assert_eq!(protocol.state, BisectionState::BisectLeft);
    assert_eq!(protocol.current_range, (0, 2));
    let copy = protocol.clone();
    assert_eq!(copy.state, BisectionState::BisectLeft);
    assert_eq!(copy.current_range, (0, 2));
    assert_eq!(copy.responses.len(), 1);
}

#[test]
fn mismatching_response_ends_the_game_for_the_challenger() {
    let tree = setup_tree(8);
    let mut protocol = BisectionProtocol::new(tree.clone());
    protocol.initiate_challenge(challenge_over(&tree, 0, 8)).unwrap();
    let mut wrong_left = honest_response(&tree, 0, 4, 8);
    wrong_left.left_aggregate = tree.range_aggregate(0, 3).unwrap();
    protocol.respond(wrong_left).unwrap();
    assert_eq!(protocol.state, BisectionState::Complete(DisputeResult::ChallengerWins));
    assert!(protocol.is_resolved());
    assert_eq!(protocol.round, 0);
    assert!(protocol.responses.is_empty());

    let mut second = BisectionProtocol::new(tree.clone());
    second.initiate_challenge(challenge_over(&tree, 0, 8)).unwrap();
    let mut wrong_right = honest_response(&tree, 0, 4, 8);
    wrong_right.right_aggregate = AggregateCommitment::empty();
    second.respond(wrong_right).unwrap();
    assert_eq!(second.state, BisectionState::Complete(DisputeResult::ChallengerWins));
}

#[test]
fn honest_midpoint_games_settle_within_max_rounds() {
    for size in [2usize, 3, 5, 8, 13] {
        for pattern in 0..16u32 {
            let tree = setup_tree(size);
            let mut protocol = BisectionProtocol::new(tree.clone());
            protocol.initiate_challenge(challenge_over(&tree, 0, size)).unwrap();
            let mut selections = 0;
            while !protocol.is_resolved() {
                let (lo, hi) = protocol.current_range;
                let mid = lo + (hi - lo) / 2;
                protocol.respond(honest_response(&tree, lo, mid, hi)).unwrap();
                assert_ne!(
                    protocol.state,
                    BisectionState::Complete(DisputeResult::ChallengerWins)
                );
                if protocol.is_resolved() {
                    break;
                }
                protocol.select_direction((pattern >> (selections % 4)) & 1 == 1).unwrap();
                selections += 1;
                assert!(selections <= protocol.max_rounds);
            }
            assert!(protocol.is_resolved());
        }
    }
}
