//! The prime-order group that commitments live in.
//!
//! A group element is held as its 32-byte compressed encoding. The group is
//! cyclic of the order of the scalar field, so every element is a multiple
//! `k * B` of the fixed generator `B`, with a unique `k` below the order:
//! the element is viewed as that `k`, and the group operations become
//! arithmetic modulo the order.

use crate::bytes::le_value;
use crate::field::{field_modulus, ScalarField};
use ark_ed_on_bls12_381::{EdwardsProjective, Fr};
use ark_ff::{PrimeField, UniformRand};
use ark_serialize::{CanonicalDeserialize, CanonicalSerialize};
use ark_std::rand::rngs::StdRng;
use ark_std::Zero;
use vstd::arithmetic::div_mod::*;
use vstd::prelude::*;
use vstd::std_specs::cmp::PartialEqSpecImpl;

verus! {

/// Whether 32 bytes decode, with validation, to a point of the prime-order
/// subgroup.
pub uninterp spec fn point_decodes(bytes: Seq<u8>) -> bool;

/// The index of an encoded point: the number `k` below the order of the
/// group for which the point is `k` times the generator of the prime-order
/// subgroup. It says nothing of bytes that do not decode.
pub uninterp spec fn point_index(bytes: Seq<u8>) -> nat;

/// The order of the group.
pub open spec fn group_order() -> nat {
    field_modulus()
}

/// An encoding of a group element: it decodes, and its index is below the
/// order of the group.
pub open spec fn valid_point(bytes: Seq<u8>) -> bool {
    point_decodes(bytes) && point_index(bytes) < group_order()
}

/// Calls `EdwardsProjective::deserialize_compressed`, which validates that the
/// point is on the curve and in the prime-order subgroup, and tells whether it
/// succeeded. A point of that subgroup is a multiple of the generator below the
/// group's order.
#[verifier::external_body]
fn point_check(bytes: &[u8; 32]) -> (ok: bool)
    ensures
        ok == point_decodes(bytes@),
        ok ==> point_index(bytes@) < group_order(),
{
    EdwardsProjective::deserialize_compressed(&bytes[..]).is_ok()
}

/// Calls `EdwardsProjective::zero` and writes the point out with
/// `serialize_compressed`: the identity is the zeroth multiple of the
/// generator.
#[verifier::external_body]
fn point_identity() -> (out: [u8; 32])
    ensures
        point_decodes(out@),
        point_index(out@) == 0,
{
    let mut out = [0u8; 32];
    EdwardsProjective::zero().serialize_compressed(&mut out[..]).unwrap();
    out
}

/// Calls `+` of `EdwardsProjective` on the two decoded points: the sum of the
/// multiples `i` and `j` of the generator is the multiple `i + j`, modulo the
/// order.
#[verifier::external_body]
fn point_add(a: &[u8; 32], b: &[u8; 32]) -> (out: [u8; 32])
    requires
        point_decodes(a@),
        point_decodes(b@),
    ensures
        point_decodes(out@),
        point_index(out@) == (point_index(a@) + point_index(b@)) % group_order(),
{
    let p = EdwardsProjective::deserialize_compressed(&a[..]).unwrap();
    let q = EdwardsProjective::deserialize_compressed(&b[..]).unwrap();
    let mut out = [0u8; 32];
    (p + q).serialize_compressed(&mut out[..]).unwrap();
    out
}

/// Calls `*` of `EdwardsProjective` by a scalar read with
/// `Fr::from_le_bytes_mod_order`: `k` times the multiple `i` of the generator
/// is the multiple `i * k`, modulo the order.
#[verifier::external_body]
fn point_mul(a: &[u8; 32], k: &[u8; 32]) -> (out: [u8; 32])
    requires
        point_decodes(a@),
    ensures
        point_decodes(out@),
        point_index(out@) == (point_index(a@) * le_value(k@)) % group_order(),
{
    let p = EdwardsProjective::deserialize_compressed(&a[..]).unwrap();
    let mut out = [0u8; 32];
    (p * Fr::from_le_bytes_mod_order(k)).serialize_compressed(&mut out[..]).unwrap();
    out
}

/// Calls `==` of `EdwardsProjective` on the two decoded points: two points of
/// the group are equal exactly when they are the same multiple of the
/// generator.
#[verifier::external_body]
fn point_eq(a: &[u8; 32], b: &[u8; 32]) -> (r: bool)
    requires
        point_decodes(a@),
        point_decodes(b@),
    ensures
        r == (point_index(a@) == point_index(b@)),
{
    let p = EdwardsProjective::deserialize_compressed(&a[..]).unwrap();
    let q = EdwardsProjective::deserialize_compressed(&b[..]).unwrap();
    p == q
}

/// Calls `EdwardsProjective::rand`, which clears the cofactor of the point it
/// draws. Which point comes back depends on the generator's state.
#[verifier::external_body]
fn point_rand(rng: &mut StdRng) -> (out: [u8; 32])
    ensures
        point_decodes(out@),
        point_index(out@) < group_order(),
{
    let mut out = [0u8; 32];
    EdwardsProjective::rand(rng).serialize_compressed(&mut out[..]).unwrap();
    out
}

/// An element of the group.
#[derive(Clone, Copy, Debug)]
pub struct GroupElement {
    bytes: [u8; 32],
}

impl View for GroupElement {
    type V = nat;

    closed spec fn view(&self) -> nat {
        point_index(self.bytes@)
    }
}

impl GroupElement {
    /// The bytes are the encoding of a group element.
    #[verifier::type_invariant]
    spec fn well_formed(self) -> bool {
        valid_point(self.bytes@)
    }

    /// The compressed encoding of the element.
    pub closed spec fn spec_bytes(self) -> Seq<u8> {
        self.bytes@
    }

    /// Every element is a multiple of the generator below the group's order.
    pub fn check_range(&self)
        ensures
            self@ < group_order(),
            valid_point(self.spec_bytes()),
    {
        proof {
            use_type_invariant(self);
        }
    }

    /// The identity of the group.
    pub fn zero() -> (r: Self)
        ensures
            r@ == 0,
    {
        GroupElement { bytes: point_identity() }
    }

    /// The sum of two elements.
    pub fn add(&self, other: &GroupElement) -> (r: Self)
        ensures
            r@ == (self@ + other@) % group_order(),
    {
        proof {
            use_type_invariant(self);
            use_type_invariant(other);
            lemma_mod_bound((self@ + other@) as int, group_order() as int);
        }
        GroupElement { bytes: point_add(&self.bytes, &other.bytes) }
    }

    /// The element multiplied by a scalar.
    pub fn mul(&self, k: &ScalarField) -> (r: Self)
        ensures
            r@ == (self@ * k@) % group_order(),
    {
        let kb = k.to_bytes();
        proof {
            use_type_invariant(self);
            lemma_mod_bound((self@ * k@) as int, group_order() as int);
        }
        GroupElement { bytes: point_mul(&self.bytes, &kb) }
    }

    /// Whether the element is the identity.
    pub fn is_zero(&self) -> (r: bool)
        ensures
            r == (self@ == 0),
    {
        let z = GroupElement::zero();
        self.eq(&z)
    }

    /// An element drawn from the generator of randomness.
    pub fn rand(rng: &mut StdRng) -> (r: Self)
        ensures
            r@ < group_order(),
            valid_point(r.spec_bytes()),
            point_index(r.spec_bytes()) == r@,
    {
        GroupElement { bytes: point_rand(rng) }
    }

    /// The element that 32 bytes encode, if they encode one.
    pub fn from_bytes(bytes: [u8; 32]) -> (r: Option<Self>)
        ensures
            r is Some <==> valid_point(bytes@),
            r matches Some(e) ==> e.spec_bytes() == bytes@,
    {
        if point_check(&bytes) {
            Some(GroupElement { bytes })
        } else {
            None
        }
    }

    /// The compressed encoding of the element.
    pub fn to_bytes(&self) -> (out: [u8; 32])
        ensures
            out@ == self.spec_bytes(),
            point_index(out@) == self@,
    {
        self.bytes
    }
}

impl PartialEq for GroupElement {
    fn eq(&self, other: &Self) -> (r: bool) {
        proof {
            use_type_invariant(self);
            use_type_invariant(other);
        }
        point_eq(&self.bytes, &other.bytes)
    }
}

impl Eq for GroupElement {

}

impl PartialEqSpecImpl for GroupElement {
    open spec fn obeys_eq_spec() -> bool {
        true
    }

    open spec fn eq_spec(&self, other: &Self) -> bool {
        self@ == other@
    }
}

} // verus!
