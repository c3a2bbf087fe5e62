//! The stakes that proposers deposit against their commitments.

use vstd::hash_map::StringHashMap;
use vstd::prelude::*;

verus! {

/// Why a stake operation was refused.
#[derive(Debug, Clone, PartialEq, Eq)]
pub enum StakeError {
    /// The amount is below what the commitment value requires.
    InsufficientStake { required: u128, available: u128 },
    /// No stake is held for the proposer.
    ProposerNotFound(String),
    /// A stake is already held for the proposer.
    StakeAlreadyExists(String),
    /// The stake is still locked.
    InvalidAmount,
}

/// The stake of one proposer.
#[derive(Clone, Debug, PartialEq, Eq)]
pub struct StakeInfo {
    pub proposer_id: String,
    pub amount: u128,
    pub commitment_value: u128,
    pub locked_until: u64,
    pub slashed: bool,
}

/// The stakes of all proposers, by proposer id.
pub struct StakeManager {
    stakes: StringHashMap<StakeInfo>,
    min_stake_ratio: u128,
}

/// The stake that a commitment value requires at a ratio in basis points.
pub open spec fn required_for(commitment_value: int, ratio: int) -> int {
    commitment_value * ratio / 10000
}

/// The stakes after the stake of `id` was slashed, if there is one that was
/// not slashed before.
pub open spec fn after_slash(stakes: Map<Seq<char>, StakeInfo>, id: Seq<char>) -> Map<
    Seq<char>,
    StakeInfo,
> {
    if stakes.contains_key(id) && !stakes[id].slashed {
        stakes.insert(id, stakes[id].spec_slashed())
    } else {
        stakes
    }
}

/// What slashing the stake of `id` yields.
pub open spec fn slash_yield(stakes: Map<Seq<char>, StakeInfo>, id: Seq<char>) -> u128 {
    if stakes.contains_key(id) && !stakes[id].slashed {
        stakes[id].amount
    } else {
        0
    }
}

/// Slashing is idempotent: a second slash of the same proposer yields
/// nothing and changes nothing.
pub proof fn lemma_slash_idempotent(stakes: Map<Seq<char>, StakeInfo>, id: Seq<char>)
    ensures
        after_slash(after_slash(stakes, id), id) == after_slash(stakes, id),
        slash_yield(after_slash(stakes, id), id) == 0,
{
}

impl StakeInfo {
    /// Whether the stake cannot be withdrawn at `current_time`: its lock has
    /// not run out and it was not slashed.
    pub open spec fn spec_is_locked(&self, current_time: u64) -> bool {
        current_time < self.locked_until && !self.slashed
    }

    /// The stake with its slashed flag set.
    pub open spec fn spec_slashed(self) -> StakeInfo {
        StakeInfo { slashed: true, ..self }
    }

    /// A fresh stake, locked until `lock_duration`.
    pub fn new(proposer_id: String, amount: u128, commitment_value: u128, lock_duration: u64) -> (r:
        Self)
        ensures
            r == (StakeInfo {
                proposer_id,
                amount,
                commitment_value,
                locked_until: lock_duration,
                slashed: false,
            }),
    {
        StakeInfo { proposer_id, amount, commitment_value, locked_until: lock_duration, slashed: false }
    }

    /// Whether the stake cannot be withdrawn at `current_time`.
    pub fn is_locked(&self, current_time: u64) -> (r: bool)
        ensures
            r == self.spec_is_locked(current_time),
    {
        current_time < self.locked_until && !self.slashed
    }
}

impl View for StakeManager {
    type V = Map<Seq<char>, StakeInfo>;

    closed spec fn view(&self) -> Map<Seq<char>, StakeInfo> {
        self.stakes@
    }
}

impl StakeManager {
    /// The minimum stake ratio in basis points.
    pub closed spec fn spec_ratio(&self) -> int {
        self.min_stake_ratio as int
    }

    /// The stake that `commitment_value` requires.
    pub open spec fn spec_required_stake(&self, commitment_value: u128) -> int {
        required_for(commitment_value as int, self.spec_ratio())
    }

    /// A manager without stakes.
    pub fn new(min_stake_ratio: u128) -> (r: Self)
        ensures
            r@ == Map::<Seq<char>, StakeInfo>::empty(),
            r.spec_ratio() == min_stake_ratio,
    {
        StakeManager { stakes: StringHashMap::new(), min_stake_ratio }
    }

    /// The stake that `commitment_value` requires.
    pub fn required_stake(&self, commitment_value: u128) -> (r: u128)
        requires
            commitment_value * self.spec_ratio() <= u128::MAX,
        ensures
            r == self.spec_required_stake(commitment_value),
    {
        commitment_value * self.min_stake_ratio / 10000
    }

    /// Takes a proposer's stake. Refused when a stake is already held for the
    /// proposer, and else when the amount is below the required stake.
    pub fn deposit(
        &mut self,
        proposer_id: String,
        amount: u128,
        commitment_value: u128,
        lock_duration: u64,
    ) -> (res: Result<(), StakeError>)
        requires
            old(self)@.contains_key(proposer_id@) || commitment_value * old(self).spec_ratio()
                <= u128::MAX,
        ensures
            final(self).spec_ratio() == old(self).spec_ratio(),
            ({
                let stakes = old(self)@;
                let required = old(self).spec_required_stake(commitment_value);
                if stakes.contains_key(proposer_id@) {
                    &&& res == Err::<(), StakeError>(StakeError::StakeAlreadyExists(proposer_id))
                    &&& final(self)@ == stakes
                } else if amount < required {
                    &&& res == Err::<(), StakeError>(
                        StakeError::InsufficientStake {
                            required: required as u128,
                            available: amount,
                        },
                    )
                    &&& final(self)@ == stakes
                } else {
                    &&& res is Ok
                    &&& final(self)@ == stakes.insert(
                        proposer_id@,
                        StakeInfo {
                            proposer_id,
                            amount,
                            commitment_value,
                            locked_until: lock_duration,
                            slashed: false,
                        },
                    )
                }
            }),
            res is Ok ==> {
                &&& old(self).spec_required_stake(commitment_value) <= amount
                &&& final(self)@.contains_key(proposer_id@)
                &&& final(self)@[proposer_id@].amount == amount
            },
    {
        if self.stakes.contains_key(proposer_id.as_str()) {
            return Err(StakeError::StakeAlreadyExists(proposer_id));
        }
        let required = self.required_stake(commitment_value);
        if amount < required {
            return Err(StakeError::InsufficientStake { required, available: amount });
        }
        let key = proposer_id.clone();
        let stake = StakeInfo::new(proposer_id, amount, commitment_value, lock_duration);
        self.stakes.insert(key, stake);
        Ok(())
    }

    /// Slashes a proposer's stake and returns the slashed amount: the whole
    /// stake the first time, nothing after that.
    pub fn slash(&mut self, proposer_id: &str) -> (res: Result<u128, StakeError>)
        ensures
            final(self).spec_ratio() == old(self).spec_ratio(),
            final(self)@ == after_slash(old(self)@, proposer_id@),
            ({
                let stakes = old(self)@;
                if !stakes.contains_key(proposer_id@) {
                    res matches Err(StakeError::ProposerNotFound(id)) && id@ == proposer_id@
                } else {
                    res == Ok::<u128, StakeError>(slash_yield(stakes, proposer_id@))
                }
            }),
    {
        let (amount, updated) = match self.stakes.get(proposer_id) {
            None => {
                return Err(StakeError::ProposerNotFound(proposer_id.to_owned()));
            },
            Some(stake) => {
                if stake.slashed {
                    return Ok(0);
                }
                (
                    stake.amount,
                    StakeInfo {
                        proposer_id: stake.proposer_id.clone(),
                        amount: stake.amount,
                        commitment_value: stake.commitment_value,
                        locked_until: stake.locked_until,
                        slashed: true,
                    },
                )
            },
        };
        self.stakes.insert(proposer_id.to_owned(), updated);
        Ok(amount)
    }

    /// Gives a proposer's stake back. Refused while the stake is locked. A
    /// slashed stake stays where it is and nothing is paid out; else the
    /// stake is removed and its amount returned.
    pub fn withdraw(&mut self, proposer_id: &str, current_time: u64) -> (res: Result<
        u128,
        StakeError,
    >)
        ensures
            final(self).spec_ratio() == old(self).spec_ratio(),
            ({
                let stakes = old(self)@;
                let id = proposer_id@;
                if !stakes.contains_key(id) {
                    &&& res matches Err(StakeError::ProposerNotFound(name))
                    &&& name@ == id
                    &&& final(self)@ == stakes
                } else if stakes[id].spec_is_locked(current_time) {
                    &&& res == Err::<u128, StakeError>(StakeError::InvalidAmount)
                    &&& final(self)@ == stakes
                } else if stakes[id].slashed {
                    &&& res == Ok::<u128, StakeError>(0)
                    &&& final(self)@ == stakes
                } else {
                    &&& res == Ok::<u128, StakeError>(stakes[id].amount)
                    &&& final(self)@ == stakes.remove(id)
                }
            }),
    {
        let amount = match self.stakes.get(proposer_id) {
            None => {
                return Err(StakeError::ProposerNotFound(proposer_id.to_owned()));
            },
            Some(stake) => {
                if stake.is_locked(current_time) {
                    return Err(StakeError::InvalidAmount);
                }
                if stake.slashed {
                    return Ok(0);
                }
                stake.amount
            },
        };
        self.stakes.remove(proposer_id);
        Ok(amount)
    }

    /// The stake held for a proposer, if any.
    pub fn get_stake(&self, proposer_id: &str) -> (r: Option<&StakeInfo>)
        ensures
            self@.contains_key(proposer_id@) ==> r == Some(&self@[proposer_id@]),
            !self@.contains_key(proposer_id@) ==> r is None,
    {
        self.stakes.get(proposer_id)
    }
}

} // verus!
