//! The scalar field of the commitment group.
//!
//! A scalar is held as its canonical 32-byte little-endian form and viewed as
//! the natural number below the field modulus that the bytes spell.

use crate::bytes::{
    append_le, bytes_equal, le_bytes, le_value, lemma_le_bytes_len, lemma_le_value_injective,
    lemma_le_value_of_le_bytes, lemma_le_value_zeros, lemma_pow256_values, pow256,
};
use ark_ed_on_bls12_381::Fr;
use ark_ff::{PrimeField, UniformRand};
use ark_serialize::CanonicalSerialize;
use ark_std::rand::rngs::StdRng;
use vstd::arithmetic::div_mod::*;
use vstd::prelude::*;
use vstd::std_specs::cmp::PartialEqSpecImpl;
use vstd::std_specs::convert::FromSpecImpl;
use vstd::std_specs::ops::AddSpecImpl;

verus! {

/// The generator of randomness that sampling draws from.
#[verifier::external_type_specification]
#[verifier::external_body]
pub struct ExStdRng(StdRng);

/// The order of the scalar field, which is also the order of the group.
pub open spec fn field_modulus() -> nat {
    6554484396890773809930967563523245729705921265872317281365359162392183254199nat
}

/// Calls `Fr::from_le_bytes_mod_order` and writes the element out with
/// `serialize_compressed`: the bytes read little-endian, reduced modulo the
/// field order, in canonical 32-byte little-endian form.
#[verifier::external_body]
fn fr_from_le_bytes_mod_order(bytes: &[u8]) -> (out: [u8; 32])
    ensures
        le_value(out@) == le_value(bytes@) % field_modulus(),
{
    let mut out = [0u8; 32];
    Fr::from_le_bytes_mod_order(bytes).serialize_compressed(&mut out[..]).unwrap();
    out
}

/// Calls `+` of `Fr` on the two scalars that the byte strings spell.
#[verifier::external_body]
fn fr_add(a: &[u8; 32], b: &[u8; 32]) -> (out: [u8; 32])
    ensures
        le_value(out@) == (le_value(a@) + le_value(b@)) % field_modulus(),
{
    let sum = Fr::from_le_bytes_mod_order(a) + Fr::from_le_bytes_mod_order(b);
    let mut out = [0u8; 32];
    sum.serialize_compressed(&mut out[..]).unwrap();
    out
}

/// Calls `Fr::rand`. Which scalar comes back depends on the generator's state;
/// it is written in canonical form.
#[verifier::external_body]
fn fr_rand(rng: &mut StdRng) -> (out: [u8; 32])
    ensures
        le_value(out@) < field_modulus(),
{
    let mut out = [0u8; 32];
    Fr::rand(rng).serialize_compressed(&mut out[..]).unwrap();
    out
}

/// An element of the scalar field.
#[derive(Clone, Copy, Debug)]
pub struct ScalarField {
    bytes: [u8; 32],
}

impl View for ScalarField {
    type V = nat;

    closed spec fn view(&self) -> nat {
        le_value(self.bytes@)
    }
}

impl ScalarField {
    /// The bytes spell a number below the field modulus.
    #[verifier::type_invariant]
    spec fn canonical(self) -> bool {
        le_value(self.bytes@) < field_modulus()
    }

    /// The canonical little-endian bytes of the scalar.
    pub closed spec fn spec_bytes(self) -> Seq<u8> {
        self.bytes@
    }

    /// Every scalar is below the field modulus.
    pub fn check_range(&self)
        ensures
            self@ < field_modulus(),
    {
        proof {
            use_type_invariant(self);
        }
    }

    /// The scalar zero.
    pub fn zero() -> (r: Self)
        ensures
            r@ == 0,
    {
        let bytes = [0u8; 32];
        proof {
            lemma_le_value_zeros(bytes@);
        }
        ScalarField { bytes }
    }

    /// The scalar that a byte string spells little-endian, reduced modulo the
    /// field order.
    pub fn from_le_bytes_mod_order(bytes: &[u8]) -> (r: Self)
        ensures
            r@ == le_value(bytes@) % field_modulus(),
    {
        let out = fr_from_le_bytes_mod_order(bytes);
        proof {
            lemma_mod_bound(le_value(bytes@) as int, field_modulus() as int);
        }
        ScalarField { bytes: out }
    }

    /// The sum of two scalars.
    pub fn add(&self, other: &ScalarField) -> (r: Self)
        ensures
            r@ == (self@ + other@) % field_modulus(),
    {
        let out = fr_add(&self.bytes, &other.bytes);
        proof {
            lemma_mod_bound((self@ + other@) as int, field_modulus() as int);
        }
        ScalarField { bytes: out }
    }

    /// A scalar drawn from the generator: whichever it is, one of the field.
    pub fn rand(rng: &mut StdRng) -> (r: Self)
        ensures
            r@ < field_modulus(),
            le_value(r.spec_bytes()) == r@,
    {
        let out = fr_rand(rng);
        ScalarField { bytes: out }
    }

    /// The canonical 32-byte little-endian form.
    pub fn to_bytes(&self) -> (out: [u8; 32])
        ensures
            out@ == self.spec_bytes(),
            le_value(out@) == self@,
    {
        self.bytes
    }
}

impl PartialEq for ScalarField {
    fn eq(&self, other: &Self) -> (r: bool) {
        let r = bytes_equal(self.bytes.as_slice(), other.bytes.as_slice());
        proof {
            if self@ == other@ {
                lemma_le_value_injective(self.bytes@, other.bytes@);
            }
        }
        r
    }
}

impl Eq for ScalarField {

}

impl PartialEqSpecImpl for ScalarField {
    open spec fn obeys_eq_spec() -> bool {
        true
    }

    open spec fn eq_spec(&self, other: &Self) -> bool {
        self@ == other@
    }
}

impl std::ops::Add for ScalarField {
    type Output = ScalarField;

    /// The sum of two scalars.
    fn add(self, other: ScalarField) -> (r: ScalarField)
        ensures
            r@ == (self@ + other@) % field_modulus(),
    {
        ScalarField::add(&self, &other)
    }
}

impl AddSpecImpl for ScalarField {
    open spec fn obeys_add_spec() -> bool {
        false
    }

    open spec fn add_req(self, other: ScalarField) -> bool {
        true
    }

    open spec fn add_spec(self, other: ScalarField) -> ScalarField {
        self
    }
}

impl From<u64> for ScalarField {
    /// The scalar whose value is `v`.
    fn from(v: u64) -> (r: Self)
        ensures
            r@ == v as nat,
    {
        let r = ScalarField::from_u128(v as u128);
        proof {
            r.lemma_of_u128_unique(v as u128);
        }
        r
    }
}

impl FromSpecImpl<u64> for ScalarField {
    open spec fn obeys_from_spec() -> bool {
        true
    }

    open spec fn from_spec(v: u64) -> Self {
        ScalarField::of_u128(v as u128)
    }
}

impl ScalarField {
    /// The scalar whose value is `v`.
    pub closed spec fn of_u128(v: u128) -> Self {
        ScalarField { bytes: choose|a: [u8; 32]| a@ == le_bytes(v as nat, 32) }
    }

    /// A scalar of value `v` is the scalar `of_u128(v)`.
    pub proof fn lemma_of_u128_unique(self, v: u128)
        requires
            self@ == v as nat,
        ensures
            self == Self::of_u128(v),
            Self::of_u128(v)@ == v as nat,
    {
        lemma_pow256_values();
        lemma_le_bytes_len(v as nat, 32);
        lemma_le_value_of_le_bytes(v as nat, 32);
        crate::bytes::lemma_pow256_add(16, 16);
        assert(pow256(32) > v as nat) by (nonlinear_arith)
            requires
                pow256(32) == pow256(16) * pow256(16),
                pow256(16) > v as nat,
                pow256(16) > 1,
        ;
        vstd::arithmetic::div_mod::lemma_small_mod(v as nat, pow256(32));
        lemma_le_value_injective(self.bytes@, le_bytes(v as nat, 32));
        let c = choose|a: [u8; 32]| a@ == le_bytes(v as nat, 32);
        assert(c@ == self.bytes@);
        assert(c =~= self.bytes);
    }

    /// The scalar whose value is `v`.
    pub fn from_u128(v: u128) -> (r: Self)
        ensures
            r@ == v as nat,
    {
        let mut buf: Vec<u8> = Vec::new();
        append_le(&mut buf, v, 16);
        let out = fr_from_le_bytes_mod_order(buf.as_slice());
        proof {
            lemma_pow256_values();
            lemma_le_value_of_le_bytes(v as nat, 16);
            assert(buf@ =~= le_bytes(v as nat, 16));
            lemma_small_mod(v as nat, pow256(16));
            lemma_small_mod(v as nat, field_modulus());
        }
        ScalarField { bytes: out }
    }
}

} // verus!
