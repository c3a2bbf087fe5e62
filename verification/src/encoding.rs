//! Account states and transitions, their hash layouts, and their encoding as
//! field elements.

use crate::bytes::{
    append_be, append_bytes, be_bytes, bytes_equal, le_value, lemma_le_value_bound,
    lemma_pow256_values, pow256,
};
use crate::digest::{sha256, sha256_digest};
use crate::errors::ArchimedesError;
use crate::field::{field_modulus, ScalarField};
use vstd::arithmetic::div_mod::lemma_small_mod;
use vstd::prelude::*;
use vstd::std_specs::cmp::PartialEqSpecImpl;

verus! {

/// The state of an account.
#[derive(Clone, Copy, Debug)]
pub struct AccountState {
    pub balance: u128,
    pub nonce: u64,
    pub code_hash: [u8; 32],
    pub storage_root: [u8; 32],
}

/// A step from one account state to the next, with the hash of the
/// transaction that made it.
#[derive(Clone, Copy, Debug)]
pub struct StateTransition {
    pub pre_state: AccountState,
    pub post_state: AccountState,
    pub tx_hash: [u8; 32],
}

/// Thirty-two zero bytes: the code hash of an account without code, and the
/// storage root of one without storage.
pub open spec fn empty_digest() -> [u8; 32] {
    choose|a: [u8; 32]| a@ == Seq::new(32, |i: int| 0u8)
}

/// The field element that a 32-byte digest stands for: its first 31 bytes,
/// read little-endian.
pub open spec fn field_of_digest(bytes: Seq<u8>) -> nat {
    le_value(bytes.subrange(0, 31))
}

/// The digest of a transition between two states under a transaction hash:
/// the digests of the two states and the transaction hash, 96 bytes, hashed.
pub open spec fn transition_digest(pre: AccountState, post: AccountState, tx_hash: Seq<u8>) -> Seq<
    u8,
> {
    sha256(pre.spec_hash() + post.spec_hash() + tx_hash)
}

impl AccountState {
    /// The 88 bytes that are hashed: balance (16, big-endian), nonce (8,
    /// big-endian), code hash (32), storage root (32).
    pub open spec fn preimage(&self) -> Seq<u8> {
        be_bytes(self.balance as nat, 16) + be_bytes(self.nonce as nat, 8) + self.code_hash@
            + self.storage_root@
    }

    /// The digest of the state.
    pub open spec fn spec_hash(&self) -> Seq<u8> {
        sha256(self.preimage())
    }

    /// The value that a commitment to the state commits to.
    pub open spec fn spec_commitment_value(&self) -> nat {
        field_of_digest(self.spec_hash())
    }

    /// An account with the given balance and nonce, no code and empty storage.
    pub fn new(balance: u128, nonce: u64) -> (r: Self)
        ensures
            r == (AccountState {
                balance,
                nonce,
                code_hash: empty_digest(),
                storage_root: empty_digest(),
            }),
            r.code_hash@ == Seq::new(32, |i: int| 0u8),
            r.storage_root@ == Seq::new(32, |i: int| 0u8),
    {
        let r = AccountState { balance, nonce, code_hash: [0u8; 32], storage_root: [0u8; 32] };
        proof {
            assert(r.code_hash@ =~= Seq::new(32, |i: int| 0u8));
            assert(r.storage_root@ =~= Seq::new(32, |i: int| 0u8));
            assert(r.code_hash =~= empty_digest());
            assert(r.storage_root =~= empty_digest());
        }
        r
    }

    /// The state as four field elements: balance, nonce, and the field
    /// elements of the code hash and of the storage root.
    pub fn to_field_elements(&self) -> (r: Vec<ScalarField>)
        ensures
            r@.len() == 4,
            r@[0]@ == self.balance as nat,
            r@[1]@ == self.nonce as nat,
            r@[2]@ == field_of_digest(self.code_hash@),
            r@[3]@ == field_of_digest(self.storage_root@),
    {
        let mut elements: Vec<ScalarField> = Vec::with_capacity(4);
        elements.push(ScalarField::from_u128(self.balance));
        elements.push(ScalarField::from(self.nonce));
        elements.push(bytes_to_field(&self.code_hash));
        elements.push(bytes_to_field(&self.storage_root));
        elements
    }

    /// The SHA-256 digest of the state's 88-byte layout.
    pub fn hash(&self) -> (r: [u8; 32])
        ensures
            r@ == self.spec_hash(),
    {
        let mut buf: Vec<u8> = Vec::new();
        append_be(&mut buf, self.balance, 16);
        append_be(&mut buf, self.nonce as u128, 8);
        append_bytes(&mut buf, self.code_hash.as_slice());
        append_bytes(&mut buf, self.storage_root.as_slice());
        proof {
            assert(buf@ =~= self.preimage());
        }
        sha256_digest(buf.as_slice())
    }

    /// The field element that a commitment to the state commits to.
    pub fn to_commitment_value(&self) -> (r: ScalarField)
        ensures
            r@ == self.spec_commitment_value(),
    {
        let h = self.hash();
        bytes_to_field(&h)
    }
}

impl StateTransition {
    /// The 96 bytes that are hashed: the digests of the two states and the
    /// transaction hash.
    pub open spec fn preimage(&self) -> Seq<u8> {
        self.pre_state.spec_hash() + self.post_state.spec_hash() + self.tx_hash@
    }

    /// The digest of the transition.
    pub open spec fn spec_hash(&self) -> Seq<u8> {
        transition_digest(self.pre_state, self.post_state, self.tx_hash@)
    }

    /// The value that a commitment to the transition commits to.
    pub open spec fn spec_commitment_value(&self) -> nat {
        field_of_digest(self.spec_hash())
    }

    /// The transition from `pre_state` to `post_state` by the transaction
    /// with hash `tx_hash`.
    pub fn new(pre_state: AccountState, post_state: AccountState, tx_hash: [u8; 32]) -> (r: Self)
        ensures
            r == (StateTransition { pre_state, post_state, tx_hash }),
    {
        StateTransition { pre_state, post_state, tx_hash }
    }

    /// The SHA-256 digest of the transition's 96-byte layout.
    pub fn transition_hash(&self) -> (r: [u8; 32])
        ensures
            r@ == self.spec_hash(),
    {
        let pre = self.pre_state.hash();
        let post = self.post_state.hash();
        let mut buf: Vec<u8> = Vec::new();
        append_bytes(&mut buf, pre.as_slice());
        append_bytes(&mut buf, post.as_slice());
        append_bytes(&mut buf, self.tx_hash.as_slice());
        proof {
            assert(buf@ =~= self.preimage());
        }
        sha256_digest(buf.as_slice())
    }

    /// The field element that a commitment to the transition commits to.
    pub fn to_commitment_value(&self) -> (r: ScalarField)
        ensures
            r@ == self.spec_commitment_value(),
    {
        let h = self.transition_hash();
        bytes_to_field(&h)
    }
}

/// The field element of a 32-byte digest: the first 31 bytes, read
/// little-endian. The last byte is dropped, so the number is below the field
/// modulus and no reduction takes place.
pub fn bytes_to_field(bytes: &[u8; 32]) -> (r: ScalarField)
    ensures
        r@ == field_of_digest(bytes@),
{
    let mut truncated: Vec<u8> = Vec::with_capacity(31);
    let mut i: usize = 0;
    while i < 31
        invariant
            i <= 31,
            truncated@ == bytes@.subrange(0, i as int),
        decreases 31 - i,
    {
        truncated.push(bytes[i]);
        i = i + 1;
        proof {
            assert(truncated@ =~= bytes@.subrange(0, i as int));
        }
    }
    proof {
        lemma_le_value_bound(truncated@);
        lemma_pow256_values();
        lemma_small_mod(le_value(truncated@), field_modulus());
    }
    ScalarField::from_le_bytes_mod_order(truncated.as_slice())
}

/// The commitment values of a batch of states. Fails exactly on an empty
/// batch.
pub fn encode_state_batch(states: &[AccountState]) -> (res: Result<
    Vec<ScalarField>,
    ArchimedesError,
>)
    ensures
        states@.len() == 0 ==> (res matches Err(ArchimedesError::StateEncodingError(m)) && m@
            == "Empty state batch"@),
        states@.len() > 0 ==> (res matches Ok(v) && v@.len() == states@.len() && forall|i: int|
            0 <= i < states@.len() ==> (#[trigger] v@[i])@ == states@[i].spec_commitment_value()),
{
    if states.len() == 0 {
        return Err(ArchimedesError::StateEncodingError("Empty state batch".to_string()));
    }
    let mut out: Vec<ScalarField> = Vec::new();
    let mut i: usize = 0;
    while i < states.len()
        invariant
            i <= states@.len(),
            out@.len() == i,
            forall|j: int|
                0 <= j < i ==> (#[trigger] out@[j])@ == states@[j].spec_commitment_value(),
        decreases states@.len() - i,
    {
        out.push(states[i].to_commitment_value());
        i = i + 1;
    }
    Ok(out)
}

/// The commitment values of a batch of transitions. Fails exactly on an empty
/// batch.
pub fn encode_transitions(transitions: &[StateTransition]) -> (res: Result<
    Vec<ScalarField>,
    ArchimedesError,
>)
    ensures
        transitions@.len() == 0 ==> (res matches Err(ArchimedesError::StateEncodingError(m))
            && m@ == "Empty transitions"@),
        transitions@.len() > 0 ==> (res matches Ok(v) && v@.len() == transitions@.len()
            && forall|i: int|
            0 <= i < transitions@.len() ==> (#[trigger] v@[i])@
                == transitions@[i].spec_commitment_value()),
{
    if transitions.len() == 0 {
        return Err(ArchimedesError::StateEncodingError("Empty transitions".to_string()));
    }
    let mut out: Vec<ScalarField> = Vec::new();
    let mut i: usize = 0;
    while i < transitions.len()
        invariant
            i <= transitions@.len(),
            out@.len() == i,
            forall|j: int|
                0 <= j < i ==> (#[trigger] out@[j])@ == transitions@[j].spec_commitment_value(),
        decreases transitions@.len() - i,
    {
        out.push(transitions[i].to_commitment_value());
        i = i + 1;
    }
    Ok(out)
}

impl PartialEq for AccountState {
    fn eq(&self, other: &Self) -> (r: bool) {
        let r = self.balance == other.balance && self.nonce == other.nonce && bytes_equal(
            self.code_hash.as_slice(),
            other.code_hash.as_slice(),
        ) && bytes_equal(self.storage_root.as_slice(), other.storage_root.as_slice());
        proof {
            if r {
                assert(self.code_hash =~= other.code_hash);
                assert(self.storage_root =~= other.storage_root);
            }
        }
        r
    }
}

impl Eq for AccountState {

}

impl PartialEqSpecImpl for AccountState {
    open spec fn obeys_eq_spec() -> bool {
        true
    }

    open spec fn eq_spec(&self, other: &Self) -> bool {
        *self == *other
    }
}

impl PartialEq for StateTransition {
    fn eq(&self, other: &Self) -> (r: bool) {
        let r = self.pre_state == other.pre_state && self.post_state == other.post_state
            && bytes_equal(self.tx_hash.as_slice(), other.tx_hash.as_slice());
        proof {
            if r {
                assert(self.tx_hash =~= other.tx_hash);
            }
        }
        r
    }
}

impl Eq for StateTransition {

}

impl PartialEqSpecImpl for StateTransition {
    open spec fn obeys_eq_spec() -> bool {
        true
    }

    open spec fn eq_spec(&self, other: &Self) -> bool {
        *self == *other
    }
}

} // verus!
