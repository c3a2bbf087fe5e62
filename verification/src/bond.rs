//! The bonds that challengers post with their challenges.

use vstd::hash_map::StringHashMap;
use vstd::prelude::*;

verus! {

/// Why a bond operation was refused.
#[derive(Debug, Clone, PartialEq, Eq)]
pub enum BondError {
    /// The amount is below what the dispute depth requires.
    InsufficientBond { required: u128, provided: u128 },
    /// No bond is held for the challenge.
    ChallengeNotFound(String),
    /// A bond is already held for the challenge.
    BondAlreadyExists(String),
}

/// The bond of one challenge.
#[derive(Clone, Debug, PartialEq, Eq)]
pub struct ChallengerBond {
    pub challenger_id: String,
    pub challenge_id: String,
    pub amount: u128,
    pub dispute_depth: u32,
    pub forfeited: bool,
}

/// The bonds of all challenges, by challenge id.
pub struct BondManager {
    bonds: StringHashMap<ChallengerBond>,
    base_bond: u128,
    depth_multiplier: u128,
}

/// The bond that a dispute of the given depth requires.
pub open spec fn bond_for(base: int, multiplier: int, depth: int) -> int {
    base + depth * multiplier
}

/// The bonds after the bond of `id` was forfeited, if there is one that was
/// not forfeited before.
pub open spec fn after_forfeit(bonds: Map<Seq<char>, ChallengerBond>, id: Seq<char>) -> Map<
    Seq<char>,
    ChallengerBond,
> {
    if bonds.contains_key(id) && !bonds[id].forfeited {
        bonds.insert(id, bonds[id].spec_forfeited())
    } else {
        bonds
    }
}

/// What forfeiting the bond of `id` yields.
pub open spec fn forfeit_yield(bonds: Map<Seq<char>, ChallengerBond>, id: Seq<char>) -> u128 {
    if bonds.contains_key(id) && !bonds[id].forfeited {
        bonds[id].amount
    } else {
        0
    }
}

/// Forfeiting is idempotent: a second forfeit of the same challenge yields
/// nothing and changes nothing.
pub proof fn lemma_forfeit_idempotent(bonds: Map<Seq<char>, ChallengerBond>, id: Seq<char>)
    ensures
        after_forfeit(after_forfeit(bonds, id), id) == after_forfeit(bonds, id),
        forfeit_yield(after_forfeit(bonds, id), id) == 0,
{
}

impl ChallengerBond {
    /// The bond with its forfeited flag set.
    pub open spec fn spec_forfeited(self) -> ChallengerBond {
        ChallengerBond { forfeited: true, ..self }
    }

    /// A fresh bond.
    pub fn new(challenger_id: String, challenge_id: String, amount: u128, dispute_depth: u32) -> (r:
        Self)
        ensures
            r == (ChallengerBond {
                challenger_id,
                challenge_id,
                amount,
                dispute_depth,
                forfeited: false,
            }),
    {
        ChallengerBond { challenger_id, challenge_id, amount, dispute_depth, forfeited: false }
    }
}

impl View for BondManager {
    type V = Map<Seq<char>, ChallengerBond>;

    closed spec fn view(&self) -> Map<Seq<char>, ChallengerBond> {
        self.bonds@
    }
}

impl BondManager {
    /// The bond of a dispute of depth zero.
    pub closed spec fn spec_base(&self) -> int {
        self.base_bond as int
    }

    /// What each level of depth adds to the bond.
    pub closed spec fn spec_multiplier(&self) -> int {
        self.depth_multiplier as int
    }

    /// The bond that a dispute of the given depth requires.
    pub open spec fn spec_required_bond(&self, dispute_depth: u32) -> int {
        bond_for(self.spec_base(), self.spec_multiplier(), dispute_depth as int)
    }

    /// A manager without bonds.
    pub fn new(base_bond: u128, depth_multiplier: u128) -> (r: Self)
        ensures
            r@ == Map::<Seq<char>, ChallengerBond>::empty(),
            r.spec_base() == base_bond,
            r.spec_multiplier() == depth_multiplier,
    {
        BondManager { bonds: StringHashMap::new(), base_bond, depth_multiplier }
    }

    /// The bond that a dispute of the given depth requires.
    pub fn required_bond(&self, dispute_depth: u32) -> (r: u128)
        requires
            self.spec_required_bond(dispute_depth) <= u128::MAX,
        ensures
            r == self.spec_required_bond(dispute_depth),
    {
        let depth: u128 = dispute_depth as u128;
        assert(depth * self.depth_multiplier <= u128::MAX) by (nonlinear_arith)
            requires
                self.base_bond + depth * self.depth_multiplier <= u128::MAX,
        ;
        self.base_bond + depth * self.depth_multiplier
    }

    /// Takes a challenger's bond. Refused when a bond is already held for the
    /// challenge, and else when the amount is below the required bond.
    pub fn post_bond(
        &mut self,
        challenger_id: String,
        challenge_id: String,
        amount: u128,
        dispute_depth: u32,
    ) -> (res: Result<(), BondError>)
        requires
            old(self)@.contains_key(challenge_id@) || old(self).spec_required_bond(dispute_depth)
                <= u128::MAX,
        ensures
            final(self).spec_base() == old(self).spec_base(),
            final(self).spec_multiplier() == old(self).spec_multiplier(),
            ({
                let bonds = old(self)@;
                let required = old(self).spec_required_bond(dispute_depth);
                if bonds.contains_key(challenge_id@) {
                    &&& res == Err::<(), BondError>(BondError::BondAlreadyExists(challenge_id))
                    &&& final(self)@ == bonds
                } else if amount < required {
                    &&& res == Err::<(), BondError>(
                        BondError::InsufficientBond { required: required as u128, provided: amount },
                    )
                    &&& final(self)@ == bonds
                } else {
                    &&& res is Ok
                    &&& final(self)@ == bonds.insert(
                        challenge_id@,
                        ChallengerBond {
                            challenger_id,
                            challenge_id,
                            amount,
                            dispute_depth,
                            forfeited: false,
                        },
                    )
                }
            }),
    {
        if self.bonds.contains_key(challenge_id.as_str()) {
            return Err(BondError::BondAlreadyExists(challenge_id));
        }
        let required = self.required_bond(dispute_depth);
        if amount < required {
            return Err(BondError::InsufficientBond { required, provided: amount });
        }
        let key = challenge_id.clone();
        let bond = ChallengerBond::new(challenger_id, challenge_id, amount, dispute_depth);
        self.bonds.insert(key, bond);
        Ok(())
    }

    /// Forfeits the bond of a challenge and returns the forfeited amount: the
    /// whole bond the first time, nothing after that.
    pub fn forfeit(&mut self, challenge_id: &str) -> (res: Result<u128, BondError>)
        ensures
            final(self).spec_base() == old(self).spec_base(),
            final(self).spec_multiplier() == old(self).spec_multiplier(),
            final(self)@ == after_forfeit(old(self)@, challenge_id@),
            ({
                let bonds = old(self)@;
                if !bonds.contains_key(challenge_id@) {
                    res matches Err(BondError::ChallengeNotFound(id)) && id@ == challenge_id@
                } else {
                    res == Ok::<u128, BondError>(forfeit_yield(bonds, challenge_id@))
                }
            }),
    {
        let (amount, updated) = match self.bonds.get(challenge_id) {
            None => {
                return Err(BondError::ChallengeNotFound(challenge_id.to_owned()));
            },
            Some(bond) => {
                if bond.forfeited {
                    return Ok(0);
                }
                (
                    bond.amount,
                    ChallengerBond {
                        challenger_id: bond.challenger_id.clone(),
                        challenge_id: bond.challenge_id.clone(),
                        amount: bond.amount,
                        dispute_depth: bond.dispute_depth,
                        forfeited: true,
                    },
                )
            },
        };
        self.bonds.insert(challenge_id.to_owned(), updated);
        Ok(amount)
    }

    /// Gives the bond of a challenge back. A forfeited bond stays where it is
    /// and nothing is paid out; else the bond is removed and its amount
    /// returned.
    pub fn return_bond(&mut self, challenge_id: &str) -> (res: Result<u128, BondError>)
        ensures
            final(self).spec_base() == old(self).spec_base(),
            final(self).spec_multiplier() == old(self).spec_multiplier(),
            ({
                let bonds = old(self)@;
                let id = challenge_id@;
                if !bonds.contains_key(id) {
                    &&& res matches Err(BondError::ChallengeNotFound(name))
                    &&& name@ == id
                    &&& final(self)@ == bonds
                } else if bonds[id].forfeited {
                    &&& res == Ok::<u128, BondError>(0)
                    &&& final(self)@ == bonds
                } else {
                    &&& res == Ok::<u128, BondError>(bonds[id].amount)
                    &&& final(self)@ == bonds.remove(id)
                }
            }),
    {
        let amount = match self.bonds.get(challenge_id) {
            None => {
                return Err(BondError::ChallengeNotFound(challenge_id.to_owned()));
            },
            Some(bond) => {
                if bond.forfeited {
                    return Ok(0);
                }
                bond.amount
            },
        };
        self.bonds.remove(challenge_id);
        Ok(amount)
    }

    /// The bond held for a challenge, if any.
    pub fn get_bond(&self, challenge_id: &str) -> (r: Option<&ChallengerBond>)
        ensures
            self@.contains_key(challenge_id@) ==> r == Some(&self@[challenge_id@]),
            !self@.contains_key(challenge_id@) ==> r is None,
    {
        self.bonds.get(challenge_id)
    }
}

} // verus!
