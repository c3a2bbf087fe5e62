use archimedes::bond::{BondError, BondManager, ChallengerBond};
use archimedes::reward::{DisputeOutcome, RewardDistributor, RewardError};
use archimedes::stake::{StakeError, StakeInfo, StakeManager};

#[test]
fn test_bond_posting() {
    let mut manager = BondManager::new(100, 10);
    manager.post_bond("challenger1".to_string(), "challenge1".to_string(), 150, 5).unwrap();

    let bond = manager.get_bond("challenge1").unwrap();
    assert_eq!(bond.amount, 150);
    assert_eq!(bond.dispute_depth, 5);
}

#[test]
fn test_bond_scaling() {
    let manager = BondManager::new(100, 10);
    assert_eq!(manager.required_bond(0), 100);
    assert_eq!(manager.required_bond(5), 150);
    assert_eq!(manager.required_bond(10), 200);
}

#[test]
fn test_forfeit() {
    let mut manager = BondManager::new(100, 10);
    manager.post_bond("challenger1".to_string(), "challenge1".to_string(), 200, 5).unwrap();

    let forfeited = manager.forfeit("challenge1").unwrap();
    assert_eq!(forfeited, 200);

    let bond = manager.get_bond("challenge1").unwrap();
    assert!(bond.forfeited);
}

#[test]
fn test_challenger_wins() {
    let distributor = RewardDistributor::new(100, 500);

    let reward = distributor
        .calculate_reward(
            "challenger1".to_string(),
            "proposer1".to_string(),
            DisputeOutcome::ChallengerWins,
            1000,
            100,
            100,
        )
        .unwrap();

    assert_eq!(reward.outcome, DisputeOutcome::ChallengerWins);
    assert!(reward.challenger_reward > 0);
    assert_eq!(reward.proposer_reward, 0);
    assert!(reward.protocol_fee > 0);
}

#[test]
fn test_proposer_wins() {
    let distributor = RewardDistributor::new(100, 500);

    let reward = distributor
        .calculate_reward(
            "challenger1".to_string(),
            "proposer1".to_string(),
            DisputeOutcome::ProposerWins,
            1000,
            100,
            100,
        )
        .unwrap();

    assert_eq!(reward.outcome, DisputeOutcome::ProposerWins);
    assert_eq!(reward.challenger_reward, 0);
    assert!(reward.proposer_reward > 0);
}

#[test]
fn test_timeout_split() {
    let distributor = RewardDistributor::new(100, 500);

    let reward = distributor
        .calculate_reward(
            "challenger1".to_string(),
            "proposer1".to_string(),
            DisputeOutcome::Timeout,
            1000,
            100,
            100,
        )
        .unwrap();

    assert_eq!(reward.outcome, DisputeOutcome::Timeout);
    assert!(reward.challenger_reward > 0);
    assert!(reward.proposer_reward > 0);
}

#[test]
fn test_stake_deposit() {
    let mut manager = StakeManager::new(100);
    manager.deposit("proposer1".to_string(), 1000, 10000, 100).unwrap();

    let stake = manager.get_stake("proposer1").unwrap();
    assert_eq!(stake.amount, 1000);
}

#[test]
fn test_insufficient_stake() {
    let mut manager = StakeManager::new(100);
    let result = manager.deposit("proposer1".to_string(), 50, 10000, 100);
    assert!(matches!(result, Err(StakeError::InsufficientStake { .. })));
}

#[test]
fn test_slash() {
    let mut manager = StakeManager::new(100);
    manager.deposit("proposer1".to_string(), 1000, 10000, 100).unwrap();

    let slashed = manager.slash("proposer1").unwrap();
    assert_eq!(slashed, 1000);

    let stake = manager.get_stake("proposer1").unwrap();
    assert!(stake.slashed);
}

#[test]
fn challenger_reward_values() {
    let distributor = RewardDistributor::new(100, 500);
    let reward = distributor
        .calculate_reward(
            "c".to_string(),
            "p".to_string(),
            DisputeOutcome::ChallengerWins,
            1000,
            100,
            100,
        )
        .unwrap();
    assert_eq!(reward.protocol_fee, 11);
    assert_eq!(reward.challenger_reward, 1089);
    assert_eq!(reward.proposer_reward, 0);
    assert_eq!(reward.challenger_id, "c");
    assert_eq!(reward.proposer_id, "p");
}

#[test]
fn reward_formulas() {
    let distributor = RewardDistributor::new(100, 500);
    let proposer = distributor
        .calculate_reward("c".to_string(), "p".to_string(), DisputeOutcome::ProposerWins, 1000, 100, 100)
        .unwrap();
    assert_eq!(proposer.proposer_reward, 1089);
    assert_eq!(proposer.challenger_reward, 0);
    assert_eq!(proposer.protocol_fee, 11);
    let timeout = distributor
        .calculate_reward("c".to_string(), "p".to_string(), DisputeOutcome::Timeout, 1000, 100, 100)
        .unwrap();
    assert_eq!(timeout.challenger_reward, 544);
    assert_eq!(timeout.proposer_reward, 545);
    // without a fee the challenger is owed stake, interest and bond, capped by the pool
    let free = RewardDistributor::new(0, 500);
    let long = free
        .calculate_reward(
            "c".to_string(),
            "p".to_string(),
            DisputeOutcome::ChallengerWins,
            1_000_000,
            100,
            52560,
        )
        .unwrap();
    assert_eq!(long.protocol_fee, 0);
    assert_eq!(long.challenger_reward, 1_000_100);
    let interest_only = 1_000_000u128 * 500 * 52560 / (10000 * 365 * 24 * 6);
    assert_eq!(interest_only, 50_000);
}

#[test]
fn reward_overflow_is_an_error() {
    let distributor = RewardDistributor::new(100, 500);
    for outcome in [DisputeOutcome::ChallengerWins, DisputeOutcome::ProposerWins, DisputeOutcome::Timeout] {
        let sum = distributor.calculate_reward("c".to_string(), "p".to_string(), outcome, u128::MAX, 1, 0);
        assert_eq!(sum, Err(RewardError::InvalidCalculation));
        let product = distributor.calculate_reward("c".to_string(), "p".to_string(), outcome, u128::MAX / 2, 0, 0);
        assert_eq!(product, Err(RewardError::InvalidCalculation));
        let duration = RewardDistributor::new(0, 1 << 60).calculate_reward(
            "c".to_string(),
            "p".to_string(),
            outcome,
            1 << 60,
            0,
            u64::MAX,
        );
        assert_eq!(duration, Err(RewardError::InvalidCalculation));
    }
    let greedy = RewardDistributor::new(20000, 0);
    let fee_above_pool =
        greedy.calculate_reward("c".to_string(), "p".to_string(), DisputeOutcome::Timeout, 1000, 0, 0);
    assert_eq!(fee_above_pool, Err(RewardError::InvalidCalculation));
    let all_fee = RewardDistributor::new(10000, 0)
        .calculate_reward("c".to_string(), "p".to_string(), DisputeOutcome::Timeout, 1000, 0, 0)
        .unwrap();
    assert_eq!(all_fee.protocol_fee, 1000);
    assert_eq!(all_fee.challenger_reward, 0);
    assert_eq!(all_fee.proposer_reward, 0);
}

#[test]
fn deposit_rules() {
    let mut manager = StakeManager::new(100);
    assert_eq!(manager.required_stake(10000), 100);
    assert_eq!(manager.required_stake(9999), 99);
    assert_eq!(manager.required_stake(0), 0);
    manager.deposit("p".to_string(), 100, 10000, 50).unwrap();
    assert_eq!(
        *manager.get_stake("p").unwrap(),
        StakeInfo::new("p".to_string(), 100, 10000, 50)
    );
    let twice = manager.deposit("p".to_string(), 5000, 10000, 50);
    assert_eq!(twice, Err(StakeError::StakeAlreadyExists("p".to_string())));
    let low = manager.deposit("q".to_string(), 99, 10000, 50);
    assert_eq!(low, Err(StakeError::InsufficientStake { required: 100, available: 99 }));
    assert!(manager.get_stake("q").is_none());
}

#[test]
fn slash_is_idempotent() {
    let mut manager = StakeManager::new(100);
    manager.deposit("p".to_string(), 1000, 10000, 100).unwrap();
    assert_eq!(manager.slash("p"), Ok(1000));
    let after_first = manager.get_stake("p").unwrap().clone();
    assert_eq!(manager.slash("p"), Ok(0));
    assert_eq!(*manager.get_stake("p").unwrap(), after_first);
    assert_eq!(manager.slash("nobody"), Err(StakeError::ProposerNotFound("nobody".to_string())));
}

#[test]
fn withdraw_rules() {
    let mut manager = StakeManager::new(100);
    manager.deposit("p".to_string(), 1000, 10000, 100).unwrap();
    assert!(manager.get_stake("p").unwrap().is_locked(99));
    assert!(!manager.get_stake("p").unwrap().is_locked(100));
    assert_eq!(manager.withdraw("p", 99), Err(StakeError::InvalidAmount));
    assert!(manager.get_stake("p").is_some());
    assert_eq!(manager.withdraw("p", 100), Ok(1000));
    assert!(manager.get_stake("p").is_none());
    assert_eq!(manager.withdraw("p", 100), Err(StakeError::ProposerNotFound("p".to_string())));

    manager.deposit("q".to_string(), 500, 0, 100).unwrap();
    assert_eq!(manager.slash("q"), Ok(500));
    assert!(!manager.get_stake("q").unwrap().is_locked(0));
    assert_eq!(manager.withdraw("q", 0), Ok(0));
    assert!(manager.get_stake("q").unwrap().slashed);
}

#[test]
fn bond_rules() {
    let mut manager = BondManager::new(100, 10);
    let low = manager.post_bond("c".to_string(), "x".to_string(), 149, 5);
    assert_eq!(low, Err(BondError::InsufficientBond { required: 150, provided: 149 }));
    manager.post_bond("c".to_string(), "x".to_string(), 150, 5).unwrap();
    assert_eq!(
        *manager.get_bond("x").unwrap(),
        ChallengerBond::new("c".to_string(), "x".to_string(), 150, 5)
    );
    let twice = manager.post_bond("d".to_string(), "x".to_string(), 1000, 0);
    assert_eq!(twice, Err(BondError::BondAlreadyExists("x".to_string())));
    assert_eq!(manager.forfeit("x"), Ok(150));
    assert_eq!(manager.forfeit("x"), Ok(0));
    assert_eq!(manager.return_bond("x"), Ok(0));
    assert!(manager.get_bond("x").unwrap().forfeited);
    assert_eq!(manager.forfeit("y"), Err(BondError::ChallengeNotFound("y".to_string())));
    assert_eq!(manager.return_bond("y"), Err(BondError::ChallengeNotFound("y".to_string())));
    manager.post_bond("c".to_string(), "z".to_string(), 100, 0).unwrap();
    assert_eq!(manager.return_bond("z"), Ok(100));
    assert!(manager.get_bond("z").is_none());
}
