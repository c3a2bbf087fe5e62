//! Pedersen commitments: `C = v * g + r * h` for two generators `g` and `h`.

use crate::errors::ArchimedesError;
use crate::field::ScalarField;
use crate::group::{group_order, GroupElement};
use ark_std::rand::rngs::StdRng;
use vstd::arithmetic::div_mod::*;
use vstd::arithmetic::mul::*;
use vstd::prelude::*;
use vstd::std_specs::cmp::PartialEqSpecImpl;
use vstd::std_specs::ops::AddSpecImpl;

verus! {

/// The result of a commitment operation.
pub type CommitmentResult<T> = Result<T, ArchimedesError>;

/// The sum of two group elements, or of two scalars, by their views.
pub open spec fn add_mod(a: nat, b: nat) -> nat {
    (a + b) % group_order()
}

/// The commitment to `v` under randomness `r` for generators `g` and `h`, all
/// by their views.
pub open spec fn pedersen(g: nat, h: nat, v: nat, r: nat) -> nat {
    (g * v + h * r) % group_order()
}

/// The generators of the scheme.
#[derive(Clone, Copy, Debug)]
pub struct CommitmentParams {
    pub g: GroupElement,
    pub h: GroupElement,
}

/// A commitment to a value.
#[derive(Clone, Copy, Debug)]
pub struct Commitment(pub GroupElement);

/// The randomness that hides a committed value.
#[derive(Clone, Copy, Debug)]
pub struct Randomness(pub ScalarField);

/// What opens a commitment: the value and the randomness.
#[derive(Clone, Copy, Debug)]
pub struct Opening {
    pub value: ScalarField,
    pub randomness: Randomness,
}

impl View for Commitment {
    type V = nat;

    open spec fn view(&self) -> nat {
        self.0@
    }
}

impl View for Randomness {
    type V = nat;

    open spec fn view(&self) -> nat {
        self.0@
    }
}

impl CommitmentParams {
    /// Neither generator is the identity.
    pub open spec fn wf(&self) -> bool {
        self.g@ != 0 && self.h@ != 0
    }

    /// The commitment to `v` under randomness `r`.
    pub open spec fn spec_commit(&self, v: nat, r: nat) -> nat {
        pedersen(self.g@, self.h@, v, r)
    }

    /// Whether `(v, r)` opens the commitment `c`.
    pub open spec fn spec_verify(&self, c: nat, v: nat, r: nat) -> bool {
        c == self.spec_commit(v, r)
    }

    /// Parameters with the two given generators. Fails exactly when one of
    /// them is the identity.
    pub fn from_generators(g: GroupElement, h: GroupElement) -> (res: CommitmentResult<Self>)
        ensures
            (g@ != 0 && h@ != 0) ==> res == Ok::<Self, ArchimedesError>(
                CommitmentParams { g, h },
            ),
            (g@ == 0 || h@ == 0) ==> (res matches Err(ArchimedesError::SetupError(m)) && m@
                == "Generator points cannot be identity"@),
    {
        if g.is_zero() || h.is_zero() {
            return Err(
                ArchimedesError::SetupError("Generator points cannot be identity".to_string()),
            );
        }
        Ok(CommitmentParams { g, h })
    }

    /// Draws two generators. Fails only when one of them is the identity.
    pub fn setup(rng: &mut StdRng) -> (res: CommitmentResult<Self>)
        ensures
            res matches Ok(p) ==> p.wf(),
            res matches Err(e) ==> e is SetupError,
    {
        let g = GroupElement::rand(rng);
        let h = GroupElement::rand(rng);
        Self::from_generators(g, h)
    }

    /// Commits to `value` under fresh randomness, which is returned with the
    /// commitment.
    pub fn commit(&self, value: &ScalarField, rng: &mut StdRng) -> (res: CommitmentResult<
        (Commitment, Randomness),
    >)
        ensures
            res is Ok,
            res matches Ok((c, r)) && c@ == self.spec_commit(value@, r@) && self.spec_verify(
                c@,
                value@,
                r@,
            ),
    {
        let r = Randomness(ScalarField::rand(rng));
        match self.commit_with_randomness(value, &r) {
            Ok(c) => Ok((c, r)),
            Err(e) => Err(e),
        }
    }

    /// Commits to `value` under the given randomness.
    pub fn commit_with_randomness(&self, value: &ScalarField, randomness: &Randomness) -> (res:
        CommitmentResult<Commitment>)
        ensures
            res matches Ok(c) && c@ == self.spec_commit(value@, randomness@),
    {
        let gv = self.g.mul(value);
        let hr = self.h.mul(&randomness.0);
        let c = gv.add(&hr);
        proof {
            lemma_add_mod_noop(
                (self.g@ * value@) as int,
                (self.h@ * randomness@) as int,
                group_order() as int,
            );
        }
        Ok(Commitment(c))
    }

    /// Whether the opening opens the commitment.
    pub fn verify(&self, commitment: &Commitment, opening: &Opening) -> (res: CommitmentResult<
        bool,
    >)
        ensures
            res matches Ok(b) && b == self.spec_verify(
                commitment@,
                opening.value@,
                opening.randomness@,
            ),
    {
        match self.commit_with_randomness(&opening.value, &opening.randomness) {
            Ok(expected) => Ok(commitment.0 == expected.0),
            Err(e) => Err(e),
        }
    }
}

impl Commitment {
    /// The commitment to zero under zero randomness: the identity.
    pub fn zero() -> (r: Self)
        ensures
            r@ == 0,
    {
        Commitment(GroupElement::zero())
    }

    /// The sum of two commitments. Adding the commitment zero changes
    /// nothing.
    pub fn add(&self, other: &Commitment) -> (r: Commitment)
        ensures
            r@ == add_mod(self@, other@),
            other@ == 0 ==> r@ == self@,
            self@ == 0 ==> r@ == other@,
    {
        self.0.check_range();
        other.0.check_range();
        proof {
            lemma_add_mod_zero(self@);
            lemma_add_mod_zero(other@);
        }
        Commitment(self.0.add(&other.0))
    }
}

impl Randomness {
    /// No randomness.
    pub fn zero() -> (r: Self)
        ensures
            r@ == 0,
    {
        Randomness(ScalarField::from(0u64))
    }

    /// The sum of two randomness values.
    pub fn add(&self, other: &Randomness) -> (r: Randomness)
        ensures
            r@ == add_mod(self@, other@),
    {
        Randomness(ScalarField::add(&self.0, &other.0))
    }
}

impl std::ops::Add for Commitment {
    type Output = Commitment;

    /// The sum of two commitments.
    fn add(self, other: Commitment) -> (r: Commitment)
        ensures
            r@ == add_mod(self@, other@),
    {
        Commitment(self.0.add(&other.0))
    }
}

impl AddSpecImpl for Commitment {
    open spec fn obeys_add_spec() -> bool {
        false
    }

    open spec fn add_req(self, other: Commitment) -> bool {
        true
    }

    open spec fn add_spec(self, other: Commitment) -> Commitment {
        self
    }
}

impl<'a> std::ops::Add<&'a Commitment> for &'a Commitment {
    type Output = Commitment;

    /// The sum of two commitments.
    fn add(self, other: &'a Commitment) -> (r: Commitment)
        ensures
            r@ == add_mod(self@, other@),
    {
        Commitment(self.0.add(&other.0))
    }
}

impl<'a> AddSpecImpl<&'a Commitment> for &'a Commitment {
    open spec fn obeys_add_spec() -> bool {
        false
    }

    open spec fn add_req(self, other: &'a Commitment) -> bool {
        true
    }

    open spec fn add_spec(self, other: &'a Commitment) -> Commitment {
        *self
    }
}

impl std::ops::Add for Randomness {
    type Output = Randomness;

    /// The sum of two randomness values.
    fn add(self, other: Randomness) -> (r: Randomness)
        ensures
            r@ == add_mod(self@, other@),
    {
        Randomness(ScalarField::add(&self.0, &other.0))
    }
}

impl AddSpecImpl for Randomness {
    open spec fn obeys_add_spec() -> bool {
        false
    }

    open spec fn add_req(self, other: Randomness) -> bool {
        true
    }

    open spec fn add_spec(self, other: Randomness) -> Randomness {
        self
    }
}

impl<'a> std::ops::Add<&'a Randomness> for &'a Randomness {
    type Output = Randomness;

    /// The sum of two randomness values.
    fn add(self, other: &'a Randomness) -> (r: Randomness)
        ensures
            r@ == add_mod(self@, other@),
    {
        Randomness(ScalarField::add(&self.0, &other.0))
    }
}

impl<'a> AddSpecImpl<&'a Randomness> for &'a Randomness {
    open spec fn obeys_add_spec() -> bool {
        false
    }

    open spec fn add_req(self, other: &'a Randomness) -> bool {
        true
    }

    open spec fn add_spec(self, other: &'a Randomness) -> Randomness {
        *self
    }
}

impl PartialEq for Commitment {
    fn eq(&self, other: &Self) -> (r: bool) {
        self.0 == other.0
    }
}

impl Eq for Commitment {

}

impl PartialEqSpecImpl for Commitment {
    open spec fn obeys_eq_spec() -> bool {
        true
    }

    open spec fn eq_spec(&self, other: &Self) -> bool {
        self@ == other@
    }
}

impl PartialEq for Randomness {
    fn eq(&self, other: &Self) -> (r: bool) {
        self.0 == other.0
    }
}

impl Eq for Randomness {

}

impl PartialEqSpecImpl for Randomness {
    open spec fn obeys_eq_spec() -> bool {
        true
    }

    open spec fn eq_spec(&self, other: &Self) -> bool {
        self@ == other@
    }
}

impl PartialEq for Opening {
    fn eq(&self, other: &Self) -> (r: bool) {
        self.value == other.value && self.randomness == other.randomness
    }
}

impl Eq for Opening {

}

impl PartialEqSpecImpl for Opening {
    open spec fn obeys_eq_spec() -> bool {
        true
    }

    open spec fn eq_spec(&self, other: &Self) -> bool {
        self.value@ == other.value@ && self.randomness@ == other.randomness@
    }
}

impl PartialEq for CommitmentParams {
    fn eq(&self, other: &Self) -> (r: bool) {
        self.g == other.g && self.h == other.h
    }
}

impl Eq for CommitmentParams {

}

impl PartialEqSpecImpl for CommitmentParams {
    open spec fn obeys_eq_spec() -> bool {
        true
    }

    open spec fn eq_spec(&self, other: &Self) -> bool {
        self.g@ == other.g@ && self.h@ == other.h@
    }
}

/// Zero is neutral: adding it to an element of the group, or to a scalar,
/// changes nothing.
pub proof fn lemma_add_mod_zero(a: nat)
    requires
        a < group_order(),
    ensures
        add_mod(a, 0) == a,
        add_mod(0, a) == a,
{
    lemma_small_mod(a, group_order());
}

/// An honest opening always verifies: the commitment to `v` under `r` is
/// opened by `(v, r)`.
pub proof fn lemma_commit_verifies(params: CommitmentParams, v: nat, r: nat)
    ensures
        params.spec_verify(params.spec_commit(v, r), v, r),
{
}

/// Commitments are additively homomorphic: the sum of the commitments to
/// `(v1, r1)` and to `(v2, r2)` is the commitment to the sums of the values
/// and of the randomness.
pub proof fn lemma_commit_homomorphic(
    params: CommitmentParams,
    v1: nat,
    r1: nat,
    v2: nat,
    r2: nat,
)
    ensures
        add_mod(params.spec_commit(v1, r1), params.spec_commit(v2, r2)) == params.spec_commit(
            add_mod(v1, v2),
            add_mod(r1, r2),
        ),
{
    lemma_pedersen_homomorphic(params.g@, params.h@, v1, r1, v2, r2);
}

/// The homomorphism, over the views of the generators.
pub proof fn lemma_pedersen_homomorphic(g: nat, h: nat, v1: nat, r1: nat, v2: nat, r2: nat)
    ensures
        add_mod(pedersen(g, h, v1, r1), pedersen(g, h, v2, r2)) == pedersen(
            g,
            h,
            add_mod(v1, v2),
            add_mod(r1, r2),
        ),
{
    let m = group_order() as int;
    let a = (g * v1 + h * r1) as int;
    let b = (g * v2 + h * r2) as int;
    lemma_add_mod_noop(a, b, m);
    // right-hand side: g * ((v1 + v2) % m) + h * ((r1 + r2) % m)
    let gv = (g * ((v1 + v2) % (m as nat))) as int;
    let hr = (h * ((r1 + r2) % (m as nat))) as int;
    lemma_add_mod_noop(gv, hr, m);
    lemma_mul_mod_noop_right(g as int, (v1 + v2) as int, m);
    lemma_mul_mod_noop_right(h as int, (r1 + r2) as int, m);
    lemma_add_mod_noop((g * (v1 + v2)) as int, (h * (r1 + r2)) as int, m);
    lemma_mul_is_distributive_add(g as int, v1 as int, v2 as int);
    lemma_mul_is_distributive_add(h as int, r1 as int, r2 as int);
    assert(a + b == g * (v1 + v2) + h * (r1 + r2));
}

} // verus!
