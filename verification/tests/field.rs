use ark_bls12_381::Fr;
use ark_ff::{BigInt, One, PrimeField, Zero};
use ark_std::UniformRand;
use gemini::field::Scalar;

const MODULUS: [u64; 4] = [
    0xffff_ffff_0000_0001,
    0x53bd_a402_fffe_5bfe,
    0x3339_d808_09a1_d805,
    0x73ed_a753_299d_7d48,
];

fn scalar(x: Fr) -> Scalar {
    Scalar::from_limbs(x.into_bigint().0).unwrap()
}

fn fr(x: Scalar) -> Fr {
    Fr::from_bigint(BigInt::new(x.to_limbs())).unwrap()
}

#[test]
fn modulus_is_the_order_of_the_scalar_field() {
    assert_eq!(Fr::MODULUS.0, MODULUS);
}

#[test]
fn from_limbs_accepts_what_is_below_the_modulus() {
    let mut below = MODULUS;
    below[0] -= 1;
    let s = Scalar::from_limbs(below).unwrap();
    assert_eq!(s.to_limbs(), below);
    assert_eq!(fr(s), -Fr::one());
    assert_eq!(Scalar::from_limbs([0, 0, 0, 0]), Some(Scalar::zero()));
    assert_eq!(Scalar::from_limbs([5, 0, 0, MODULUS[3] - 1]).unwrap().to_limbs(), [5, 0, 0, MODULUS[3] - 1]);
}

#[test]
fn from_limbs_rejects_the_modulus_and_above() {
    assert_eq!(Scalar::from_limbs(MODULUS), None);
    let mut above = MODULUS;
    above[0] += 1;
    assert_eq!(Scalar::from_limbs(above), None);
    assert_eq!(Scalar::from_limbs([0, 0, 0, MODULUS[3] + 1]), None);
    assert_eq!(Scalar::from_limbs([0, 0, MODULUS[2] + 1, MODULUS[3]]), None);
    assert_eq!(Scalar::from_limbs([0, MODULUS[1] + 1, MODULUS[2], MODULUS[3]]), None);
    assert_eq!(Scalar::from_limbs([u64::MAX; 4]), None);
}

#[test]
fn zero_and_one_are_the_identities() {
    assert_eq!(Scalar::zero().to_limbs(), [0, 0, 0, 0]);
    assert_eq!(Scalar::one().to_limbs(), [1, 0, 0, 0]);
    assert_eq!(fr(Scalar::zero()), Fr::zero());
    assert_eq!(fr(Scalar::one()), Fr::one());
    assert_eq!(Scalar::from_u64(1), Scalar::one());
    assert_eq!(fr(Scalar::from_u64(u64::MAX)), Fr::from(u64::MAX));
}

#[test]
fn small_sums_products_and_differences() {
    let a = Scalar::from_u64(6);
    let b = Scalar::from_u64(7);
    assert_eq!(a.add(&b), Scalar::from_u64(13));
    assert_eq!(a.mul(&b), Scalar::from_u64(42));
    assert_eq!(b.sub(&a), Scalar::from_u64(1));
    let mut minus_one = MODULUS;
    minus_one[0] -= 1;
    assert_eq!(a.sub(&b).to_limbs(), minus_one);
    assert_eq!(a.sub(&b).add(&Scalar::one()), Scalar::zero());
    assert_eq!(a.sub(&b).mul(&a.sub(&b)), Scalar::one());
}

#[test]
fn addition_agrees_with_the_field() {
    let rng = &mut ark_std::test_rng();
    for _ in 0..200 {
        let x = Fr::rand(rng);
        let y = Fr::rand(rng);
        assert_eq!(scalar(x).add(&scalar(y)), scalar(x + y));
    }
}

#[test]
fn subtraction_agrees_with_the_field() {
    let rng = &mut ark_std::test_rng();
    for _ in 0..200 {
        let x = Fr::rand(rng);
        let y = Fr::rand(rng);
        assert_eq!(scalar(x).sub(&scalar(y)), scalar(x - y));
    }
}

#[test]
fn multiplication_agrees_with_the_field() {
    let rng = &mut ark_std::test_rng();
    for _ in 0..200 {
        let x = Fr::rand(rng);
        let y = Fr::rand(rng);
        assert_eq!(scalar(x).mul(&scalar(y)), scalar(x * y));
    }
}

#[test]
fn a_scalar_takes_thirty_two_bytes() {
    assert_eq!(Scalar::size_in_bytes(), 32);
}
