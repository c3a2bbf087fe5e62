//! Witnesses of state transitions: the two states, the operation between
//! them, and the digests of the intermediate values.

use crate::bytes::{append_bytes, append_le, le_bytes};
use crate::digest::{sha256, sha256_digest};
use crate::encoding::AccountState;
use vstd::prelude::*;

verus! {

/// Why a witness could not be generated.
#[derive(Debug, Clone, PartialEq, Eq)]
pub enum WitnessError {
    /// The operation cannot be applied to the state.
    InvalidTransition,
    /// The generation failed.
    GenerationFailed(String),
    /// An intermediate value is missing.
    MissingValue,
}

/// The operation that a transition performs.
#[derive(Clone, Copy, Debug)]
pub enum TransitionOperation {
    Transfer { amount: u128 },
    NonceIncrement,
    StorageWrite { key: [u8; 32], value: [u8; 32] },
}

/// The digest of a value that the transition passes through.
#[derive(Clone, Debug)]
pub struct IntermediateValue {
    pub step: u32,
    pub description: String,
    pub value_hash: [u8; 32],
}

/// The witness of one transition.
#[derive(Clone, Debug)]
pub struct TransitionWitness {
    pub pre_state: AccountState,
    pub post_state: AccountState,
    pub operation: TransitionOperation,
    pub intermediate_values: Vec<IntermediateValue>,
}

/// Generates witnesses.
pub struct WitnessGenerator;

/// The digest of the balance check: the sender's balance and the amount, 16
/// bytes each, little-endian.
pub open spec fn balance_check_hash(balance: u128, amount: u128) -> Seq<u8> {
    sha256(le_bytes(balance as nat, 16) + le_bytes(amount as nat, 16))
}

/// The digest of a balance: 16 bytes, little-endian.
pub open spec fn balance_hash(balance: u128) -> Seq<u8> {
    sha256(le_bytes(balance as nat, 16))
}

impl TransitionWitness {
    /// The digest of the witness: the digests of the two states, hashed
    /// together.
    pub open spec fn spec_hash(&self) -> Seq<u8> {
        sha256(self.pre_state.spec_hash() + self.post_state.spec_hash())
    }

    /// The digest of the witness.
    pub fn compute_hash(&self) -> (r: [u8; 32])
        ensures
            r@ == self.spec_hash(),
    {
        let pre = self.pre_state.hash();
        let post = self.post_state.hash();
        let mut buf: Vec<u8> = Vec::new();
        append_bytes(&mut buf, pre.as_slice());
        append_bytes(&mut buf, post.as_slice());
        sha256_digest(buf.as_slice())
    }
}

impl WitnessGenerator {
    /// The witness of a transfer of `amount` from `from_state` to `to_state`:
    /// the sender's account before and after, and the digests of the balance
    /// check and of the two new balances. Fails exactly when the sender's
    /// balance does not cover the amount.
    pub fn generate_transfer(from_state: AccountState, to_state: AccountState, amount: u128) -> (res:
        Result<TransitionWitness, WitnessError>)
        requires
            from_state.balance >= amount ==> to_state.balance + amount <= u128::MAX
                && from_state.nonce < u64::MAX,
        ensures
            from_state.balance < amount ==> res == Err::<TransitionWitness, WitnessError>(
                WitnessError::InvalidTransition,
            ),
            from_state.balance >= amount ==> (res matches Ok(w) && {
                &&& w.pre_state == from_state
                &&& w.post_state == (AccountState {
                    balance: (from_state.balance - amount) as u128,
                    nonce: (from_state.nonce + 1) as u64,
                    code_hash: from_state.code_hash,
                    storage_root: from_state.storage_root,
                })
                &&& w.operation == (TransitionOperation::Transfer { amount })
                &&& w.intermediate_values@.len() == 3
                &&& w.intermediate_values@[0].step == 1
                &&& w.intermediate_values@[0].description@ == "balance_check"@
                &&& w.intermediate_values@[0].value_hash@ == balance_check_hash(
                    from_state.balance,
                    amount,
                )
                &&& w.intermediate_values@[1].step == 2
                &&& w.intermediate_values@[1].description@ == "from_balance_update"@
                &&& w.intermediate_values@[1].value_hash@ == balance_hash(
                    (from_state.balance - amount) as u128,
                )
                &&& w.intermediate_values@[2].step == 3
                &&& w.intermediate_values@[2].description@ == "to_balance_update"@
                &&& w.intermediate_values@[2].value_hash@ == balance_hash(
                    (to_state.balance + amount) as u128,
                )
            }),
    {
        if from_state.balance < amount {
            return Err(WitnessError::InvalidTransition);
        }
        let mut intermediates: Vec<IntermediateValue> = Vec::new();

        let mut step1: Vec<u8> = Vec::new();
        append_le(&mut step1, from_state.balance, 16);
        append_le(&mut step1, amount, 16);
        intermediates.push(
            IntermediateValue {
                step: 1,
                description: "balance_check".to_string(),
                value_hash: sha256_digest(step1.as_slice()),
            },
        );

        let new_from_balance = from_state.balance - amount;
        let mut step2: Vec<u8> = Vec::new();
        append_le(&mut step2, new_from_balance, 16);
        intermediates.push(
            IntermediateValue {
                step: 2,
                description: "from_balance_update".to_string(),
                value_hash: sha256_digest(step2.as_slice()),
            },
        );

        let new_to_balance = to_state.balance + amount;
        let mut step3: Vec<u8> = Vec::new();
        append_le(&mut step3, new_to_balance, 16);
        intermediates.push(
            IntermediateValue {
                step: 3,
                description: "to_balance_update".to_string(),
                value_hash: sha256_digest(step3.as_slice()),
            },
        );

        let post_from = AccountState {
            balance: new_from_balance,
            nonce: from_state.nonce + 1,
            code_hash: from_state.code_hash,
            storage_root: from_state.storage_root,
        };
        Ok(
            TransitionWitness {
                pre_state: from_state,
                post_state: post_from,
                operation: TransitionOperation::Transfer { amount },
                intermediate_values: intermediates,
            },
        )
    }
}

} // verus!
