use archimedes::commitment::{Commitment, CommitmentParams, Opening, Randomness};
use archimedes::field::ScalarField;
use archimedes::group::GroupElement;
use ark_std::rand::rngs::StdRng;
use ark_std::rand::SeedableRng;

fn test_rng() -> StdRng {
    let seed = [
        1, 0, 0, 0, 23, 0, 0, 0, 200, 1, 0, 0, 210, 30, 0, 0, 0, 0, 0, 0, 0, 0, 0, 0, 0, 0, 0, 0,
        0, 0, 0, 0,
    ];
    StdRng::from_seed(seed)
}

#[test]
fn test_commitment_setup() {
    let mut rng = test_rng();
    let params = CommitmentParams::setup(&mut rng).unwrap();
    assert_ne!(params.g, GroupElement::zero());
    assert_ne!(params.h, GroupElement::zero());
}

#[test]
fn test_commit_and_verify() {
    let mut rng = test_rng();
    let params = CommitmentParams::setup(&mut rng).unwrap();
    let value = ScalarField::from(42u64);
    let (commitment, randomness) = params.commit(&value, &mut rng).unwrap();
    let opening = Opening { value, randomness };
    assert!(params.verify(&commitment, &opening).unwrap());
}

#[test]
fn test_commitment_binding() {
    let mut rng = test_rng();
    let params = CommitmentParams::setup(&mut rng).unwrap();
    let v1 = ScalarField::from(100u64);
    let v2 = ScalarField::from(200u64);
    let (c1, r1) = params.commit(&v1, &mut rng).unwrap();
    let (c2, _) = params.commit(&v2, &mut rng).unwrap();
    assert_ne!(c1.0, c2.0);
    let wrong_opening = Opening { value: v2, randomness: r1 };
    assert!(!params.verify(&c1, &wrong_opening).unwrap());
}

#[test]
fn test_commitment_homomorphism() {
    let mut rng = test_rng();
    let params = CommitmentParams::setup(&mut rng).unwrap();
    let v1 = ScalarField::from(10u64);
    let v2 = ScalarField::from(20u64);
    let (c1, r1) = params.commit(&v1, &mut rng).unwrap();
    let (c2, r2) = params.commit(&v2, &mut rng).unwrap();
    let c_sum = &c1 + &c2;
    let r_sum = &r1 + &r2;
    let v_sum = v1 + v2;
    let opening = Opening { value: v_sum, randomness: r_sum };
    assert!(params.verify(&c_sum, &opening).unwrap());
}

#[test]
fn setup_refuses_identity_generators() {
    let mut rng = test_rng();
    let g = GroupElement::rand(&mut rng);
    let zero = GroupElement::zero();
    assert!(CommitmentParams::from_generators(g, zero).is_err());
    assert!(CommitmentParams::from_generators(zero, g).is_err());
    let h = GroupElement::rand(&mut rng);
    let params = CommitmentParams::from_generators(g, h).unwrap();
    assert_eq!(params.g, g);
    assert_eq!(params.h, h);
}

#[test]
fn commit_with_randomness_is_deterministic_and_opens() {
    let mut rng = test_rng();
    let params = CommitmentParams::setup(&mut rng).unwrap();
    let value = ScalarField::from(7u64);
    let randomness = Randomness(ScalarField::from(11u64));
    let c1 = params.commit_with_randomness(&value, &randomness).unwrap();
    let c2 = params.commit_with_randomness(&value, &randomness).unwrap();
    assert_eq!(c1, c2);
    let opening = Opening { value, randomness };
    assert!(params.verify(&c1, &opening).unwrap());
    let tampered = Opening { value, randomness: Randomness(ScalarField::from(12u64)) };
    assert!(!params.verify(&c1, &tampered).unwrap());
}

#[test]
fn commitment_is_value_times_g_plus_randomness_times_h() {
    let mut rng = test_rng();
    let params = CommitmentParams::setup(&mut rng).unwrap();
    let value = ScalarField::from(3u64);
    let randomness = Randomness(ScalarField::from(2u64));
    let c = params.commit_with_randomness(&value, &randomness).unwrap();
    let three_g = params.g.add(&params.g).add(&params.g);
    let two_h = params.h.add(&params.h);
    assert_eq!(c.0, three_g.add(&two_h));
    assert_eq!(params.g.mul(&ScalarField::from(3u64)), three_g);
    assert_ne!(three_g, params.g);
}

#[test]
fn adding_zero_changes_nothing() {
    let mut rng = test_rng();
    let params = CommitmentParams::setup(&mut rng).unwrap();
    let (c, r) = params.commit(&ScalarField::from(5u64), &mut rng).unwrap();
    assert_eq!(c.add(&Commitment::zero()), c);
    assert_eq!(Commitment::zero().add(&c), c);
    assert_eq!(r.add(&Randomness::zero()), r);
    assert_eq!(c + Commitment::zero(), c);
    assert_eq!(r + Randomness::zero(), r);
    assert!(Commitment::zero().0.is_zero());
    assert!(!c.0.is_zero());
}

#[test]
fn scalars_add_modulo_the_field_order() {
    let a = ScalarField::from(10u64);
    let b = ScalarField::from(20u64);
    assert_eq!(a.add(&b), ScalarField::from(30u64));
    assert_eq!(ScalarField::zero(), ScalarField::from(0u64));
    assert_eq!(ScalarField::from_u128(1u128 << 100).to_bytes()[12], 16);
    // the modulus itself reduces to zero, the modulus plus one to one
    let modulus: [u8; 32] = [
        0xb7, 0x2c, 0xf7, 0xd6, 0x5e, 0x0e, 0x97, 0xd0, 0x82, 0x10, 0xc8, 0xcc, 0x93, 0x20, 0x68,
        0xa6, 0x00, 0x3b, 0x34, 0x01, 0x01, 0x3b, 0x67, 0x06, 0xa9, 0xaf, 0x33, 0x65, 0xea, 0xb4,
        0x7d, 0x0e,
    ];
    assert_eq!(ScalarField::from_le_bytes_mod_order(&modulus), ScalarField::zero());
    let mut above = modulus;
    above[0] += 1;
    assert_eq!(ScalarField::from_le_bytes_mod_order(&above), ScalarField::from(1u64));
    let mut below = modulus;
    below[0] -= 1;
    let minus_one = ScalarField::from_le_bytes_mod_order(&below);
    assert_eq!(minus_one.to_bytes(), below);
    assert_eq!(minus_one.add(&ScalarField::from(1u64)), ScalarField::zero());
}

#[test]
fn group_elements_round_trip_through_their_encoding() {
    let mut rng = test_rng();
    let g = GroupElement::rand(&mut rng);
    let back = GroupElement::from_bytes(g.to_bytes()).unwrap();
    assert_eq!(back, g);
    assert!(GroupElement::from_bytes([0xffu8; 32]).is_none());
    assert_eq!(GroupElement::from_bytes(GroupElement::zero().to_bytes()).unwrap(), GroupElement::zero());
}
