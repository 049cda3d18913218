//! Scalars: elements of the prime field over which every sequence is defined.
//!
//! A [`Scalar`] stores the canonical representative of a residue class as four
//! little-endian 64-bit limbs. Arithmetic is delegated to `ark-ff`; the
//! contracts of this module state it as arithmetic modulo [`modulus`].
use ark_bls12_381::Fr;
use ark_ff::{BigInt, PrimeField, Zero};
use vstd::arithmetic::div_mod::{
    lemma_div_denominator, lemma_fundamental_div_mod, lemma_fundamental_div_mod_converse,
    lemma_mod_twice, lemma_small_mod,
};
use vstd::prelude::*;

verus! {

/// The order of the scalar field of BLS12-381.
pub open spec fn modulus() -> nat {
    0x73eda753299d7d483339d80809a1d80553bda402fffe5bfeffffffff00000001nat
}

/// Sum of two residues.
pub open spec fn add_mod(a: nat, b: nat) -> nat {
    (a + b) % modulus()
}

/// Difference of two residues.
pub open spec fn sub_mod(a: nat, b: nat) -> nat {
    ((a as int - b as int) % (modulus() as int)) as nat
}

/// Product of two residues.
pub open spec fn mul_mod(a: nat, b: nat) -> nat {
    (a * b) % modulus()
}

/// Half of the modulus plus one: the number that doubles to one in the field.
pub open spec fn half_value() -> nat {
    0x39f6d3a994cebea4199cec0404d0ec02a9ded2017fff2dff7fffffff80000001nat
}

/// The natural number that four little-endian 64-bit limbs stand for.
pub open spec fn limbs_value(l0: u64, l1: u64, l2: u64, l3: u64) -> nat {
    (l0 as nat) + (l1 as nat) * 0x1_0000_0000_0000_0000nat + (l2 as nat)
        * 0x1_0000_0000_0000_0000_0000_0000_0000_0000nat + (l3 as nat)
        * 0x1_0000_0000_0000_0000_0000_0000_0000_0000_0000_0000_0000_0000nat
}

const MODULUS_L0: u64 = 0xffff_ffff_0000_0001;

const MODULUS_L1: u64 = 0x53bd_a402_fffe_5bfe;

const MODULUS_L2: u64 = 0x3339_d808_09a1_d805;

const MODULUS_L3: u64 = 0x73ed_a753_299d_7d48;

/// An element of the scalar field, held as its canonical representative.
#[derive(Clone, Copy, Debug, PartialEq, Eq, Structural)]
pub struct Scalar {
    l0: u64,
    l1: u64,
    l2: u64,
    l3: u64,
}

impl View for Scalar {
    type V = nat;

    /// The canonical representative, as a natural number.
    closed spec fn view(&self) -> nat {
        limbs_value(self.l0, self.l1, self.l2, self.l3)
    }
}

impl Scalar {
    /// A scalar is well formed when its limbs hold a number below the modulus.
    #[verifier::type_invariant]
    pub open spec fn wf(self) -> bool {
        self@ < modulus()
    }

    /// The scalar whose canonical representative is `n % modulus()`.
    pub closed spec fn from_nat(n: nat) -> Scalar {
        let v = n % modulus();
        Scalar {
            l0: (v % 0x1_0000_0000_0000_0000nat) as u64,
            l1: ((v / 0x1_0000_0000_0000_0000nat) % 0x1_0000_0000_0000_0000nat) as u64,
            l2: ((v / 0x1_0000_0000_0000_0000_0000_0000_0000_0000nat)
                % 0x1_0000_0000_0000_0000nat) as u64,
            l3: ((v / 0x1_0000_0000_0000_0000_0000_0000_0000_0000_0000_0000_0000_0000nat)
                % 0x1_0000_0000_0000_0000nat) as u64,
        }
    }

    /// The limbs of the canonical representative, least significant first.
    pub closed spec fn limbs(self) -> Seq<u64> {
        seq![self.l0, self.l1, self.l2, self.l3]
    }

    /// The sum of two scalars.
    pub open spec fn spec_add(self, rhs: Scalar) -> Scalar {
        Scalar::from_nat(add_mod(self@, rhs@))
    }

    /// The difference of two scalars.
    pub open spec fn spec_sub(self, rhs: Scalar) -> Scalar {
        Scalar::from_nat(sub_mod(self@, rhs@))
    }

    /// The product of two scalars.
    pub open spec fn spec_mul(self, rhs: Scalar) -> Scalar {
        Scalar::from_nat(mul_mod(self@, rhs@))
    }

    /// The additive identity.
    pub fn zero() -> (r: Scalar)
        ensures
            r == Scalar::from_nat(0),
            r@ == 0,
    {
        Scalar { l0: 0, l1: 0, l2: 0, l3: 0 }
    }

    /// The multiplicative identity.
    pub fn one() -> (r: Scalar)
        ensures
            r == Scalar::from_nat(1),
            r@ == 1,
    {
        Scalar { l0: 1, l1: 0, l2: 0, l3: 0 }
    }

    /// The inverse of two.
    pub fn inverse_of_two() -> (r: Scalar)
        ensures
            r == Scalar::from_nat(half_value()),
            r@ == half_value(),
    {
        Scalar {
            l0: 0x7fff_ffff_8000_0001,
            l1: 0xa9de_d201_7fff_2dff,
            l2: 0x199c_ec04_04d0_ec02,
            l3: 0x39f6_d3a9_94ce_bea4,
        }
    }

    /// The scalar that stands for the integer `x`.
    pub fn from_u64(x: u64) -> (r: Scalar)
        ensures
            r == Scalar::from_nat(x as nat),
            r@ == x,
    {
        Scalar { l0: x, l1: 0, l2: 0, l3: 0 }
    }

    /// The scalar with the given canonical limbs, least significant first, or
    /// `None` when they hold a number that is not below the modulus.
    pub fn from_limbs(limbs: [u64; 4]) -> (r: Option<Scalar>)
        ensures
            r is Some <==> limbs_value(limbs[0], limbs[1], limbs[2], limbs[3]) < modulus(),
            r is Some ==> r->0.limbs() == limbs@ && r->0@ == limbs_value(
                limbs[0],
                limbs[1],
                limbs[2],
                limbs[3],
            ),
    {
        let l0 = limbs[0];
        let l1 = limbs[1];
        let l2 = limbs[2];
        let l3 = limbs[3];
        let below = l3 < MODULUS_L3 || (l3 == MODULUS_L3 && (l2 < MODULUS_L2 || (l2 == MODULUS_L2
            && (l1 < MODULUS_L1 || (l1 == MODULUS_L1 && l0 < MODULUS_L0)))));
        if below {
            let r = Scalar { l0, l1, l2, l3 };
            assert(r.limbs() =~= limbs@);
            Some(r)
        } else {
            None
        }
    }

    /// The canonical limbs, least significant first.
    pub fn to_limbs(&self) -> (r: [u64; 4])
        ensures
            r@ == self.limbs(),
            limbs_value(r[0], r[1], r[2], r[3]) == self@,
    {
        let r = [self.l0, self.l1, self.l2, self.l3];
        assert(r@ =~= self.limbs());
        r
    }

    /// The number of bytes that the internal representation of a scalar
    /// takes: eight for each of its limbs.
    pub fn size_in_bytes() -> (n: usize)
        ensures
            n == 32,
    {
        fr_limb_count() * 8
    }

    /// Field addition.
    pub fn add(&self, rhs: &Scalar) -> (r: Scalar)
        ensures
            r == self.spec_add(*rhs),
    {
        proof {
            use_type_invariant(self);
            use_type_invariant(rhs);
        }
        let r = fr_add(*self, *rhs);
        proof {
            Scalar::lemma_canonical(r);
        }
        r
    }

    /// Field subtraction.
    pub fn sub(&self, rhs: &Scalar) -> (r: Scalar)
        ensures
            r == self.spec_sub(*rhs),
    {
        proof {
            use_type_invariant(self);
            use_type_invariant(rhs);
        }
        let r = fr_sub(*self, *rhs);
        proof {
            Scalar::lemma_canonical(r);
        }
        r
    }

    /// Field multiplication.
    pub fn mul(&self, rhs: &Scalar) -> (r: Scalar)
        ensures
            r == self.spec_mul(*rhs),
    {
        proof {
            use_type_invariant(self);
            use_type_invariant(rhs);
        }
        let r = fr_mul(*self, *rhs);
        proof {
            Scalar::lemma_canonical(r);
        }
        r
    }

    /// `from_nat` yields a well-formed scalar with the reduced value.
    pub proof fn lemma_from_nat(n: nat)
        ensures
            Scalar::from_nat(n).wf(),
            Scalar::from_nat(n)@ == n % modulus(),
    {
        let b: int = 0x1_0000_0000_0000_0000int;
        let v: int = (n % modulus()) as int;
        let q1: int = v / b;
        let q2: int = q1 / b;
        let q3: int = q2 / b;
        lemma_fundamental_div_mod(v, b);
        lemma_fundamental_div_mod(q1, b);
        lemma_fundamental_div_mod(q2, b);
        lemma_div_denominator(v, b, b);
        lemma_div_denominator(v, b * b, b);
        assert(b * b == 0x1_0000_0000_0000_0000_0000_0000_0000_0000int);
        assert(b * b * b == 0x1_0000_0000_0000_0000_0000_0000_0000_0000_0000_0000_0000_0000int);
        assert(0 <= q3 < b);
        lemma_small_mod(q3 as nat, b as nat);
        let s = Scalar::from_nat(n);
        assert(s.l0 as int == v % b);
        assert(s.l1 as int == q1 % b);
        assert(s.l2 as int == q2 % b);
        assert(s.l3 as int == q3);
        assert(v == (v % b) + (q1 % b) * b + (q2 % b) * (b * b) + q3 * (b * b * b))
            by (nonlinear_arith)
            requires
                v == b * q1 + (v % b),
                q1 == b * q2 + (q1 % b),
                q2 == b * q3 + (q2 % b),
        ;
    }

    /// The value of a sum is the sum of the values, reduced.
    pub proof fn lemma_add_value(a: Scalar, b: Scalar)
        ensures
            a.spec_add(b).wf(),
            a.spec_add(b)@ == add_mod(a@, b@),
    {
        Scalar::lemma_from_nat(add_mod(a@, b@));
        lemma_mod_twice((a@ + b@) as int, modulus() as int);
    }

    /// The value of a difference is the difference of the values, reduced.
    pub proof fn lemma_sub_value(a: Scalar, b: Scalar)
        ensures
            a.spec_sub(b).wf(),
            a.spec_sub(b)@ == sub_mod(a@, b@),
    {
        Scalar::lemma_from_nat(sub_mod(a@, b@));
        lemma_mod_twice(a@ as int - b@ as int, modulus() as int);
    }

    /// The value of a product is the product of the values, reduced.
    pub proof fn lemma_mul_value(a: Scalar, b: Scalar)
        ensures
            a.spec_mul(b).wf(),
            a.spec_mul(b)@ == mul_mod(a@, b@),
    {
        Scalar::lemma_from_nat(mul_mod(a@, b@));
        lemma_mod_twice((a@ * b@) as int, modulus() as int);
    }

    /// Two well-formed scalars of the same value are the same scalar.
    pub proof fn lemma_equal_by_value(a: Scalar, b: Scalar)
        requires
            a.wf(),
            b.wf(),
            a@ == b@,
        ensures
            a == b,
    {
        Scalar::lemma_canonical(a);
        Scalar::lemma_canonical(b);
    }

    /// A well-formed scalar is determined by its value.
    pub proof fn lemma_canonical(s: Scalar)
        requires
            s.wf(),
        ensures
            Scalar::from_nat(s@) == s,
    {
        let b: int = 0x1_0000_0000_0000_0000int;
        let v: int = s@ as int;
        let hi1: int = s.l1 as int + b * (s.l2 as int + b * (s.l3 as int));
        let hi2: int = s.l2 as int + b * (s.l3 as int);
        assert(v == hi1 * b + s.l0 as int) by (nonlinear_arith)
            requires
                b == 0x1_0000_0000_0000_0000int,
                hi1 == s.l1 as int + b * (s.l2 as int + b * (s.l3 as int)),
                v == (s.l0 as int) + (s.l1 as int) * 0x1_0000_0000_0000_0000int + (s.l2 as int)
                    * 0x1_0000_0000_0000_0000_0000_0000_0000_0000int + (s.l3 as int)
                    * 0x1_0000_0000_0000_0000_0000_0000_0000_0000_0000_0000_0000_0000int,
        ;
        lemma_fundamental_div_mod_converse(v, b, hi1, s.l0 as int);
        assert(hi1 == hi2 * b + s.l1 as int) by (nonlinear_arith)
            requires
                hi1 == s.l1 as int + b * (s.l2 as int + b * (s.l3 as int)),
                hi2 == s.l2 as int + b * (s.l3 as int),
        ;
        lemma_fundamental_div_mod_converse(hi1, b, hi2, s.l1 as int);
        assert(hi2 == (s.l3 as int) * b + s.l2 as int) by (nonlinear_arith)
            requires
                hi2 == s.l2 as int + b * (s.l3 as int),
        ;
        lemma_fundamental_div_mod_converse(hi2, b, s.l3 as int, s.l2 as int);
        lemma_div_denominator(v, b, b);
        lemma_div_denominator(v, b * b, b);
        assert(b * b == 0x1_0000_0000_0000_0000_0000_0000_0000_0000int);
        assert(b * b * b == 0x1_0000_0000_0000_0000_0000_0000_0000_0000_0000_0000_0000_0000int);
        lemma_small_mod(s.l3 as nat, b as nat);
        lemma_small_mod(s@, modulus());
    }
}

/// Asks `ark-ff` for the number of 64-bit limbs in the big integer that
/// `PrimeField::into_bigint` returns for an `Fr`. The contract claims that
/// there are four, which is the `N` of `Fr = Fp256<..> = Fp<.., 4>`.
#[verifier::external_body]
fn fr_limb_count() -> (n: usize)
    ensures
        n == 4,
{
    Fr::zero().into_bigint().as_ref().len()
}

/// Adds two scalars with `ark-ff`: each operand is turned into an `Fr` by
/// `PrimeField::from_bigint`, the two are added with `Fr`'s `+`, and the sum is
/// read back by `PrimeField::into_bigint`. The contract claims that the limbs
/// read back are the canonical representative of the sum modulo the field order.
#[verifier::external_body]
fn fr_add(a: Scalar, b: Scalar) -> (r: Scalar)
    requires
        a.wf(),
        b.wf(),
    ensures
        r.wf(),
        r@ == add_mod(a@, b@),
{
    let x = Fr::from_bigint(BigInt::new([a.l0, a.l1, a.l2, a.l3])).unwrap();
    let y = Fr::from_bigint(BigInt::new([b.l0, b.l1, b.l2, b.l3])).unwrap();
    let [l0, l1, l2, l3] = (x + y).into_bigint().0;
    Scalar { l0, l1, l2, l3 }
}

/// Subtracts two scalars with `ark-ff`: each operand is turned into an `Fr`
/// by `PrimeField::from_bigint`, the second is subtracted from the first with
/// `Fr`'s `-`, and the difference is read back by `PrimeField::into_bigint`.
/// The contract claims that the limbs read back are the canonical
/// representative of the difference modulo the field order.
#[verifier::external_body]
fn fr_sub(a: Scalar, b: Scalar) -> (r: Scalar)
    requires
        a.wf(),
        b.wf(),
    ensures
        r.wf(),
        r@ == sub_mod(a@, b@),
{
    let x = Fr::from_bigint(BigInt::new([a.l0, a.l1, a.l2, a.l3])).unwrap();
    let y = Fr::from_bigint(BigInt::new([b.l0, b.l1, b.l2, b.l3])).unwrap();
    let [l0, l1, l2, l3] = (x - y).into_bigint().0;
    Scalar { l0, l1, l2, l3 }
}

/// Multiplies two scalars with `ark-ff`: each operand is turned into an `Fr`
/// by `PrimeField::from_bigint`, the two are multiplied with `Fr`'s `*`, and the
/// product is read back by `PrimeField::into_bigint`. The contract claims that
/// the limbs read back are the canonical representative of the product modulo
/// the field order.
#[verifier::external_body]
fn fr_mul(a: Scalar, b: Scalar) -> (r: Scalar)
    requires
        a.wf(),
        b.wf(),
    ensures
        r.wf(),
        r@ == mul_mod(a@, b@),
{
    let x = Fr::from_bigint(BigInt::new([a.l0, a.l1, a.l2, a.l3])).unwrap();
    let y = Fr::from_bigint(BigInt::new([b.l0, b.l1, b.l2, b.l3])).unwrap();
    let [l0, l1, l2, l3] = (x * y).into_bigint().0;
    Scalar { l0, l1, l2, l3 }
}

} // verus!
