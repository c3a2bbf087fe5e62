//! The distribution of stake and bond once a dispute has ended.

use vstd::prelude::*;

verus! {

/// Why a reward could not be computed.
#[derive(Debug, Clone, Copy, PartialEq, Eq, Structural)]
pub enum RewardError {
    /// An amount does not fit in 128 bits.
    InvalidCalculation,
    /// There is nothing to distribute.
    NoFundsAvailable,
}

/// How the dispute ended, as far as the rewards go.
#[derive(Clone, Copy, Debug, PartialEq, Eq, Structural)]
pub enum DisputeOutcome {
    ChallengerWins,
    ProposerWins,
    Timeout,
}

/// Who receives what.
#[derive(Clone, Debug, PartialEq, Eq)]
pub struct DisputeReward {
    pub challenger_id: String,
    pub proposer_id: String,
    pub outcome: DisputeOutcome,
    pub challenger_reward: u128,
    pub proposer_reward: u128,
    pub protocol_fee: u128,
}

/// Computes rewards for a protocol fee and an interest rate, both in basis
/// points.
pub struct RewardDistributor {
    protocol_fee_bps: u128,
    interest_rate_bps: u128,
}

/// The blocks of a year at six blocks an hour, times the basis-point scale.
pub open spec fn interest_scale() -> int {
    10000int * 365 * 24 * 6
}

/// The stake and the bond together.
pub open spec fn total_pool(stake: int, bond: int) -> int {
    stake + bond
}

/// The protocol's share of the pool.
pub open spec fn protocol_fee(fee_bps: int, stake: int, bond: int) -> int {
    total_pool(stake, bond) * fee_bps / 10000
}

/// What is left of the pool after the fee.
pub open spec fn remaining_pool(fee_bps: int, stake: int, bond: int) -> int {
    total_pool(stake, bond) - protocol_fee(fee_bps, stake, bond)
}

/// The interest on the stake over the duration of the dispute.
pub open spec fn interest(interest_bps: int, stake: int, duration: int) -> int {
    stake * interest_bps * duration / interest_scale()
}

/// The smaller of two amounts.
pub open spec fn least(a: int, b: int) -> int {
    if a <= b {
        a
    } else {
        b
    }
}

/// What the challenger receives.
pub open spec fn challenger_share(
    fee_bps: int,
    interest_bps: int,
    outcome: DisputeOutcome,
    stake: int,
    bond: int,
    duration: int,
) -> int {
    match outcome {
        DisputeOutcome::ChallengerWins => least(
            remaining_pool(fee_bps, stake, bond),
            stake + interest(interest_bps, stake, duration) + bond,
        ),
        DisputeOutcome::ProposerWins => 0,
        DisputeOutcome::Timeout => remaining_pool(fee_bps, stake, bond) / 2,
    }
}

/// What the proposer receives.
pub open spec fn proposer_share(fee_bps: int, outcome: DisputeOutcome, stake: int, bond: int) -> int {
    match outcome {
        DisputeOutcome::ChallengerWins => 0,
        DisputeOutcome::ProposerWins => least(remaining_pool(fee_bps, stake, bond), stake + bond),
        DisputeOutcome::Timeout => remaining_pool(fee_bps, stake, bond) - remaining_pool(
            fee_bps,
            stake,
            bond,
        ) / 2,
    }
}

/// Whether every amount of the computation fits in 128 bits and the fee does
/// not exceed the pool.
pub open spec fn reward_computable(
    fee_bps: int,
    interest_bps: int,
    outcome: DisputeOutcome,
    stake: int,
    bond: int,
    duration: int,
) -> bool {
    &&& total_pool(stake, bond) <= u128::MAX
    &&& total_pool(stake, bond) * fee_bps <= u128::MAX
    &&& protocol_fee(fee_bps, stake, bond) <= total_pool(stake, bond)
    &&& stake * interest_bps <= u128::MAX
    &&& stake * interest_bps * duration <= u128::MAX
    &&& outcome is ChallengerWins ==> stake + interest(interest_bps, stake, duration) + bond
        <= u128::MAX
}

impl RewardDistributor {
    /// The protocol fee in basis points.
    pub closed spec fn spec_fee_bps(&self) -> int {
        self.protocol_fee_bps as int
    }

    /// The yearly interest rate in basis points.
    pub closed spec fn spec_interest_bps(&self) -> int {
        self.interest_rate_bps as int
    }

    /// A distributor with the given fee and interest rate.
    pub fn new(protocol_fee_bps: u128, interest_rate_bps: u128) -> (r: Self)
        ensures
            r.spec_fee_bps() == protocol_fee_bps,
            r.spec_interest_bps() == interest_rate_bps,
    {
        RewardDistributor { protocol_fee_bps, interest_rate_bps }
    }

    /// The rewards of the two parties and the protocol's fee. Fails with
    /// `InvalidCalculation` exactly when an amount does not fit in 128 bits
    /// or the fee exceeds the pool.
    pub fn calculate_reward(
        &self,
        challenger_id: String,
        proposer_id: String,
        outcome: DisputeOutcome,
        stake_amount: u128,
        bond_amount: u128,
        dispute_duration_blocks: u64,
    ) -> (res: Result<DisputeReward, RewardError>)
        ensures
            !reward_computable(
                self.spec_fee_bps(),
                self.spec_interest_bps(),
                outcome,
                stake_amount as int,
                bond_amount as int,
                dispute_duration_blocks as int,
            ) ==> res == Err::<DisputeReward, RewardError>(RewardError::InvalidCalculation),
            reward_computable(
                self.spec_fee_bps(),
                self.spec_interest_bps(),
                outcome,
                stake_amount as int,
                bond_amount as int,
                dispute_duration_blocks as int,
            ) ==> (res matches Ok(r) && r.challenger_id == challenger_id && r.proposer_id
                == proposer_id && r.outcome == outcome && r.challenger_reward == challenger_share(
                self.spec_fee_bps(),
                self.spec_interest_bps(),
                outcome,
                stake_amount as int,
                bond_amount as int,
                dispute_duration_blocks as int,
            ) && r.proposer_reward == proposer_share(
                self.spec_fee_bps(),
                outcome,
                stake_amount as int,
                bond_amount as int,
            ) && r.protocol_fee == protocol_fee(
                self.spec_fee_bps(),
                stake_amount as int,
                bond_amount as int,
            )),
    {
        let total_pool = match stake_amount.checked_add(bond_amount) {
            Some(v) => v,
            None => {
                return Err(RewardError::InvalidCalculation);
            },
        };
        let fee_product = match total_pool.checked_mul(self.protocol_fee_bps) {
            Some(v) => v,
            None => {
                return Err(RewardError::InvalidCalculation);
            },
        };
        let protocol_fee = fee_product / 10000;
        let remaining = match total_pool.checked_sub(protocol_fee) {
            Some(v) => v,
            None => {
                return Err(RewardError::InvalidCalculation);
            },
        };
        let rate_product = match stake_amount.checked_mul(self.interest_rate_bps) {
            Some(v) => v,
            None => {
                return Err(RewardError::InvalidCalculation);
            },
        };
        let interest_product = match rate_product.checked_mul(dispute_duration_blocks as u128) {
            Some(v) => v,
            None => {
                return Err(RewardError::InvalidCalculation);
            },
        };
        let interest = interest_product / (10000 * 365 * 24 * 6);
        let (challenger_reward, proposer_reward) = match outcome {
            DisputeOutcome::ChallengerWins => {
                let with_interest = match stake_amount.checked_add(interest) {
                    Some(v) => v,
                    None => {
                        return Err(RewardError::InvalidCalculation);
                    },
                };
                let owed = match with_interest.checked_add(bond_amount) {
                    Some(v) => v,
                    None => {
                        return Err(RewardError::InvalidCalculation);
                    },
                };
                let challenger_gets = if remaining <= owed {
                    remaining
                } else {
                    owed
                };
                (challenger_gets, 0)
            },
            DisputeOutcome::ProposerWins => {
                let proposer_gets = if remaining <= total_pool {
                    remaining
                } else {
                    total_pool
                };
                (0, proposer_gets)
            },
            DisputeOutcome::Timeout => {
                let half = remaining / 2;
                (half, remaining - half)
            },
        };
        Ok(
            DisputeReward {
                challenger_id,
                proposer_id,
                outcome,
                challenger_reward,
                proposer_reward,
                protocol_fee,
            },
        )
    }
}

} // verus!
