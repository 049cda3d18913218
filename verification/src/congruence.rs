//! From field arithmetic to integer arithmetic: a scalar stands for every
//! integer that is congruent to its value modulo the order of the field, and
//! sums, differences and products of scalars stand for the sums, differences
//! and products of what they stand for.
use crate::field::{modulus, Scalar};
use vstd::arithmetic::div_mod::{
    lemma_add_mod_noop, lemma_mod_twice, lemma_mul_mod_noop, lemma_small_mod, lemma_sub_mod_noop,
};
use vstd::prelude::*;

verus! {

/// The scalar `s` stands for the integer `x`: its value is congruent to `x`.
pub open spec fn denotes(s: Scalar, x: int) -> bool {
    (s@ as int) % (modulus() as int) == x % (modulus() as int)
}

/// A scalar stands for its own value.
pub proof fn lemma_denotes_value(s: Scalar)
    ensures
        denotes(s, s@ as int),
{
}

/// The scalar made from a natural number stands for it.
pub proof fn lemma_denotes_nat(n: nat)
    ensures
        denotes(Scalar::from_nat(n), n as int),
{
    Scalar::lemma_from_nat(n);
    lemma_mod_twice(n as int, modulus() as int);
}

/// A sum stands for the sum.
pub proof fn lemma_denotes_add(a: Scalar, x: int, b: Scalar, y: int)
    requires
        denotes(a, x),
        denotes(b, y),
    ensures
        denotes(a.spec_add(b), x + y),
{
    let m = modulus() as int;
    Scalar::lemma_add_value(a, b);
    lemma_mod_twice((a@ + b@) as int, m);
    lemma_add_mod_noop(a@ as int, b@ as int, m);
    lemma_add_mod_noop(x, y, m);
}

/// A difference stands for the difference.
pub proof fn lemma_denotes_sub(a: Scalar, x: int, b: Scalar, y: int)
    requires
        denotes(a, x),
        denotes(b, y),
    ensures
        denotes(a.spec_sub(b), x - y),
{
    let m = modulus() as int;
    Scalar::lemma_sub_value(a, b);
    lemma_mod_twice(a@ - b@, m);
    lemma_sub_mod_noop(a@ as int, b@ as int, m);
    lemma_sub_mod_noop(x, y, m);
}

/// A product stands for the product.
pub proof fn lemma_denotes_mul(a: Scalar, x: int, b: Scalar, y: int)
    requires
        denotes(a, x),
        denotes(b, y),
    ensures
        denotes(a.spec_mul(b), x * y),
{
    let m = modulus() as int;
    Scalar::lemma_mul_value(a, b);
    lemma_mod_twice((a@ * b@) as int, m);
    lemma_mul_mod_noop(a@ as int, b@ as int, m);
    lemma_mul_mod_noop(x, y, m);
}

/// Two well-formed scalars that stand for the same integer are the same.
pub proof fn lemma_denote_same(a: Scalar, b: Scalar, x: int)
    requires
        a.wf(),
        b.wf(),
        denotes(a, x),
        denotes(b, x),
    ensures
        a == b,
{
    lemma_small_mod(a@, modulus());
    lemma_small_mod(b@, modulus());
    Scalar::lemma_equal_by_value(a, b);
}

} // verus!
