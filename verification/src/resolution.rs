//! The single-step check that closes a dispute, and the replay of one
//! transition.

use crate::commitment::{Commitment, CommitmentParams, Opening};
use crate::encoding::{field_of_digest, transition_digest, AccountState, StateTransition};
use crate::errors::ArchimedesError;
use vstd::prelude::*;

verus! {

/// The verdict of the single-step check.
#[derive(Clone, Copy, Debug, PartialEq, Eq, Structural)]
pub enum DisputeOutcome {
    ProposerCorrect,
    ProposerFaulty,
    InvalidProof,
    Timeout,
}

/// What the proposer shows for the disputed index: the two states, the
/// commitment and its opening.
#[derive(Clone, Copy, Debug)]
pub struct SingleStepProof {
    pub index: usize,
    pub pre_state: AccountState,
    pub post_state: AccountState,
    pub commitment: Commitment,
    pub opening: Opening,
}

/// Checks single steps under fixed commitment parameters.
pub struct DisputeResolver {
    params: CommitmentParams,
}

/// The value that the commitment of the step from `pre` to `post` has to
/// open to: the commitment value of the transition under the all-zero
/// transaction hash.
pub open spec fn replayed_value(pre: AccountState, post: AccountState) -> nat {
    field_of_digest(transition_digest(pre, post, Seq::new(32, |i: int| 0u8)))
}

/// The account after a transfer of `tx_value` out of `pre`.
pub open spec fn transferred(pre: AccountState, tx_value: u128) -> AccountState {
    AccountState {
        balance: (pre.balance - tx_value) as u128,
        nonce: (pre.nonce + 1) as u64,
        code_hash: pre.code_hash,
        storage_root: pre.storage_root,
    }
}

impl DisputeResolver {
    /// The parameters that openings are checked under.
    pub closed spec fn spec_params(&self) -> CommitmentParams {
        self.params
    }

    /// The verdict on a single-step proof.
    pub open spec fn spec_outcome(&self, proof: SingleStepProof) -> DisputeOutcome {
        if !self.spec_params().spec_verify(
            proof.commitment@,
            proof.opening.value@,
            proof.opening.randomness@,
        ) {
            DisputeOutcome::InvalidProof
        } else if proof.opening.value@ != replayed_value(proof.pre_state, proof.post_state) {
            DisputeOutcome::ProposerFaulty
        } else {
            DisputeOutcome::ProposerCorrect
        }
    }

    /// A resolver under the given parameters.
    pub fn new(params: CommitmentParams) -> (r: Self)
        ensures
            r.spec_params() == params,
    {
        DisputeResolver { params }
    }

    /// Checks the opening of the commitment, then whether the opened value is
    /// the commitment value of the transition between the two states.
    pub fn verify_single_step(&self, proof: &SingleStepProof) -> (res: Result<
        DisputeOutcome,
        ArchimedesError,
    >)
        ensures
            res matches Ok(outcome) && outcome == self.spec_outcome(*proof),
    {
        match self.params.verify(&proof.commitment, &proof.opening) {
            Ok(true) => {},
            Ok(false) => {
                return Ok(DisputeOutcome::InvalidProof);
            },
            Err(e) => {
                return Err(e);
            },
        }
        let zeros = [0u8; 32];
        proof {
            assert(zeros@ =~= Seq::new(32, |i: int| 0u8));
        }
        let transition = StateTransition::new(proof.pre_state, proof.post_state, zeros);
        let expected_value = transition.to_commitment_value();
        if proof.opening.value != expected_value {
            return Ok(DisputeOutcome::ProposerFaulty);
        }
        Ok(DisputeOutcome::ProposerCorrect)
    }

    /// The account after a transfer of `tx_value` out of `pre`. Fails exactly
    /// when the balance does not cover the value.
    pub fn execute_transition(&self, pre: &AccountState, tx_value: u128) -> (res: Result<
        AccountState,
        ArchimedesError,
    >)
        requires
            pre.balance >= tx_value ==> pre.nonce < u64::MAX,
        ensures
            pre.balance < tx_value ==> (res matches Err(ArchimedesError::DisputeError(m)) && m@
                == "Insufficient balance"@),
            pre.balance >= tx_value ==> (res matches Ok(post) && post == transferred(
                *pre,
                tx_value,
            ) && post.balance == pre.balance - tx_value && post.nonce == pre.nonce + 1),
    {
        if pre.balance < tx_value {
            return Err(ArchimedesError::DisputeError("Insufficient balance".to_string()));
        }
        Ok(
            AccountState {
                balance: pre.balance - tx_value,
                nonce: pre.nonce + 1,
                code_hash: pre.code_hash,
                storage_root: pre.storage_root,
            },
        )
    }

    /// Whether `post` is the account after a transfer of `tx_value` out of
    /// `pre`. Fails exactly when the balance does not cover the value.
    pub fn verify_transition(&self, pre: &AccountState, post: &AccountState, tx_value: u128) -> (res:
        Result<bool, ArchimedesError>)
        requires
            pre.balance >= tx_value ==> pre.nonce < u64::MAX,
        ensures
            pre.balance < tx_value ==> (res matches Err(ArchimedesError::DisputeError(m)) && m@
                == "Insufficient balance"@),
            pre.balance >= tx_value ==> (res matches Ok(b) && b == (*post == transferred(
                *pre,
                tx_value,
            ))),
    {
        match self.execute_transition(pre, tx_value) {
            Ok(expected) => Ok(expected == *post),
            Err(e) => Err(e),
        }
    }
}

} // verus!
