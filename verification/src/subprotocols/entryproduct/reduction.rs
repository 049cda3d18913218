//! Why the reduction is right: for the true product, the scalar product of
//! the two sequences of the sumcheck claim is the claimed value.
use super::{accumulated, claimed_sumcheck, evaluate, power, product_from, shifted, twisted};
use crate::congruence::{
    denotes, lemma_denote_same, lemma_denotes_add, lemma_denotes_mul, lemma_denotes_nat,
    lemma_denotes_sub, lemma_denotes_value,
};
use crate::field::Scalar;
use crate::subprotocols::sumcheck::completeness::{lemma_honest_run_is_accepted, verifier_accepts};
use crate::subprotocols::sumcheck::prover::{entry, partial_product, rounds_for, scalar_product};
use crate::subprotocols::sumcheck::Sumcheck;
use vstd::prelude::*;

verus! {

/// The product of the values of the entries of `v` from the `i`-th on.
pub open spec fn product_value(v: Seq<Scalar>, i: int) -> int
    decreases v.len() - i,
{
    if 0 <= i < v.len() {
        v[i]@ * product_value(v, i + 1)
    } else {
        1
    }
}

/// The `n`-th power of the integer `x`.
pub open spec fn power_value(x: int, n: nat) -> int
    decreases n,
{
    if n == 0 {
        1
    } else {
        x * power_value(x, (n - 1) as nat)
    }
}

/// The value at `x` of the polynomial whose coefficients are the
/// accumulated products of `v` from the `i`-th on, by Horner's rule.
pub open spec fn horner_value(v: Seq<Scalar>, x: int, i: int) -> int
    decreases v.len() - i,
{
    if 0 <= i < v.len() {
        product_value(v, i) + x * horner_value(v, x, i + 1)
    } else {
        0
    }
}

/// The sum of the first `n` accumulated products of `v`, each times the
/// power of `x` of its index.
pub open spec fn power_sum(v: Seq<Scalar>, x: int, n: nat) -> int
    decreases n,
{
    if n == 0 {
        0
    } else {
        power_sum(v, x, (n - 1) as nat) + product_value(v, n - 1) * power_value(x, (n - 1) as nat)
    }
}

/// An accumulated product stands for the product of the values.
pub proof fn lemma_product_denotes(v: Seq<Scalar>, i: int)
    requires
        0 <= i <= v.len(),
    ensures
        denotes(product_from(v, i), product_value(v, i)),
    decreases v.len() - i,
{
    if i < v.len() {
        lemma_product_denotes(v, i + 1);
        lemma_denotes_value(v[i]);
        lemma_denotes_mul(v[i], v[i]@ as int, product_from(v, i + 1), product_value(v, i + 1));
    } else {
        lemma_denotes_nat(1);
    }
}

/// A power stands for the power of the value.
pub proof fn lemma_power_denotes(x: Scalar, n: nat)
    ensures
        denotes(power(x, n), power_value(x@ as int, n)),
    decreases n,
{
    if n > 0 {
        lemma_power_denotes(x, (n - 1) as nat);
        lemma_denotes_value(x);
        lemma_denotes_mul(
            x,
            x@ as int,
            power(x, (n - 1) as nat),
            power_value(x@ as int, (n - 1) as nat),
        );
    } else {
        lemma_denotes_nat(1);
    }
}

/// The value of the accumulated vector as a polynomial stands for Horner's
/// rule on the values.
pub proof fn lemma_evaluate_denotes(v: Seq<Scalar>, x: Scalar, i: int)
    requires
        0 <= i <= v.len(),
    ensures
        denotes(evaluate(accumulated(v).skip(i), x), horner_value(v, x@ as int, i)),
    decreases v.len() - i,
{
    let c = accumulated(v).skip(i);
    if i < v.len() {
        assert(c.drop_first() =~= accumulated(v).skip(i + 1));
        lemma_evaluate_denotes(v, x, i + 1);
        lemma_product_denotes(v, i);
        lemma_denotes_value(x);
        let rest = evaluate(c.drop_first(), x);
        lemma_denotes_mul(x, x@ as int, rest, horner_value(v, x@ as int, i + 1));
        lemma_denotes_add(
            c[0],
            product_value(v, i),
            x.spec_mul(rest),
            x@ * horner_value(v, x@ as int, i + 1),
        );
    } else {
        lemma_denotes_nat(0);
    }
}

/// Horner's rule gives the sum of the coefficients times the powers.
pub proof fn lemma_horner_is_power_sum(v: Seq<Scalar>, x: int, i: int)
    requires
        0 <= i <= v.len(),
    ensures
        power_sum(v, x, i as nat) + power_value(x, i as nat) * horner_value(v, x, i) == power_sum(
            v,
            x,
            v.len(),
        ),
    decreases v.len() - i,
{
    if i < v.len() {
        lemma_horner_is_power_sum(v, x, i + 1);
        let p = product_value(v, i);
        let xi = power_value(x, i as nat);
        let h = horner_value(v, x, i + 1);
        assert(power_value(x, (i + 1) as nat) == x * xi);
        assert(power_sum(v, x, (i + 1) as nat) == power_sum(v, x, i as nat) + p * xi);
        assert(xi * (p + x * h) == p * xi + (x * xi) * h) by (nonlinear_arith);
    } else {
        assert(power_value(x, i as nat) * 0 == 0);
    }
}

/// All but the last term of the scalar product of the two sequences: the
/// first `n + 1` terms stand for the full product plus `x` times the first `n`
/// terms of the power sum.
pub proof fn lemma_leading_terms_denote(v: Seq<Scalar>, chal: Scalar, n: nat)
    requires
        n < v.len(),
    ensures
        denotes(
            partial_product(twisted(accumulated(v), chal), shifted(v), n + 1),
            product_value(v, 0) + chal@ * power_sum(v, chal@ as int, n),
        ),
    decreases n,
{
    let x = chal@ as int;
    let left = twisted(accumulated(v), chal);
    let right = shifted(v);
    let before = partial_product(left, right, n);
    lemma_product_denotes(v, n as int);
    lemma_power_denotes(chal, n);
    lemma_denotes_mul(
        accumulated(v)[n as int],
        product_value(v, n as int),
        power(chal, n),
        power_value(x, n),
    );
    assert(entry(left, n as int) == accumulated(v)[n as int].spec_mul(power(chal, n)));
    if n == 0 {
        lemma_denotes_nat(0);
        lemma_denotes_nat(1);
        lemma_denotes_mul(
            entry(left, 0),
            product_value(v, 0) * power_value(x, 0),
            entry(right, 0),
            1,
        );
        lemma_denotes_add(
            before,
            0,
            entry(left, 0).spec_mul(entry(right, 0)),
            product_value(v, 0) * power_value(x, 0) * 1,
        );
        assert(product_value(v, 0) * power_value(x, 0) * 1 == product_value(v, 0)) by (nonlinear_arith)
            requires
                power_value(x, 0) == 1,
        ;
        assert(x * power_sum(v, x, 0) == 0) by (nonlinear_arith)
            requires
                power_sum(v, x, 0) == 0,
        ;
    } else {
        lemma_leading_terms_denote(v, chal, (n - 1) as nat);
        let p = product_value(v, n as int);
        let xn = power_value(x, n);
        let xm = power_value(x, (n - 1) as nat);
        let w = v[n - 1]@ as int;
        let s = power_sum(v, x, (n - 1) as nat);
        lemma_denotes_value(v[n - 1]);
        assert(entry(right, n as int) == v[n - 1]);
        lemma_denotes_mul(entry(left, n as int), p * xn, entry(right, n as int), w);
        lemma_denotes_add(
            before,
            product_value(v, 0) + x * s,
            entry(left, n as int).spec_mul(entry(right, n as int)),
            p * xn * w,
        );
        assert(product_value(v, n - 1) == w * p);
        assert(xn == x * xm);
        assert(power_sum(v, x, n) == s + product_value(v, n - 1) * xm);
        assert(product_value(v, 0) + x * s + p * xn * w == product_value(v, 0) + x * (s + (w * p)
            * xm)) by (nonlinear_arith)
            requires
                xn == x * xm,
        ;
    }
}

/// The entry product reduction: for a vector `v` that is not empty and the
/// challenge `chal`, the scalar product of the two sequences of the sumcheck
/// claim is `chal * g(chal) + t - chal^N`, where `g` is the accumulated vector
/// of `v` and `t` is the product of all entries of `v`.
pub proof fn lemma_reduction(v: Seq<Scalar>, chal: Scalar)
    requires
        v.len() >= 1,
    ensures
        scalar_product(twisted(accumulated(v), chal), shifted(v)) == claimed_sumcheck(
            accumulated(v),
            product_from(v, 0),
            chal,
        ),
{
    let n = v.len();
    let x = chal@ as int;
    let acc_v = accumulated(v);
    let left = twisted(acc_v, chal);
    let right = shifted(v);
    let t = product_value(v, 0);
    let last = v[n - 1]@ as int;
    let xn = power_value(x, n);
    let xm = power_value(x, (n - 1) as nat);

    // the scalar product, term by term
    let before = partial_product(left, right, n);
    lemma_leading_terms_denote(v, chal, (n - 1) as nat);
    lemma_power_denotes(chal, n);
    lemma_denotes_nat(1);
    lemma_denotes_mul(Scalar::from_nat(1), 1, power(chal, n), xn);
    lemma_denotes_value(v[n - 1]);
    lemma_denotes_sub(v[n - 1], last, Scalar::from_nat(1), 1);
    assert(entry(left, n as int) == Scalar::from_nat(1).spec_mul(power(chal, n)));
    assert(entry(right, n as int) == v[n - 1].spec_sub(Scalar::from_nat(1)));
    lemma_denotes_mul(entry(left, n as int), 1 * xn, entry(right, n as int), last - 1);
    let s = power_sum(v, x, (n - 1) as nat);
    lemma_denotes_add(
        before,
        t + x * s,
        entry(left, n as int).spec_mul(entry(right, n as int)),
        1 * xn * (last - 1),
    );
    let sum = scalar_product(left, right);
    assert(denotes(sum, t + x * s + 1 * xn * (last - 1)));

    // the claimed value
    assert(acc_v.skip(0) =~= acc_v);
    lemma_evaluate_denotes(v, chal, 0);
    lemma_horner_is_power_sum(v, x, 0);
    lemma_product_denotes(v, 0);
    lemma_denotes_value(chal);
    let h = horner_value(v, x, 0);
    lemma_denotes_mul(chal, x, evaluate(acc_v, chal), h);
    lemma_denotes_add(chal.spec_mul(evaluate(acc_v, chal)), x * h, product_from(v, 0), t);
    lemma_denotes_sub(
        chal.spec_mul(evaluate(acc_v, chal)).spec_add(product_from(v, 0)),
        x * h + t,
        power(chal, n),
        xn,
    );
    let claim = claimed_sumcheck(acc_v, product_from(v, 0), chal);
    assert(denotes(claim, x * h + t - xn));

    // both stand for the same integer
    assert(product_value(v, n - 1) == last * product_value(v, n as int));
    assert(product_value(v, n as int) == 1);
    assert(power_sum(v, x, n) == s + product_value(v, n - 1) * xm);
    assert(power_value(x, 0) * h == h) by (nonlinear_arith)
        requires
            power_value(x, 0) == 1,
    ;
    assert(h == power_sum(v, x, n));
    assert(t + x * s + 1 * xn * (last - 1) == x * (s + (last * 1) * xm) + t - xn)
        by (nonlinear_arith)
        requires
            xn == x * xm,
    ;
    Scalar::lemma_add_value(
        partial_product(left, right, n),
        entry(left, n as int).spec_mul(entry(right, n as int)),
    );
    Scalar::lemma_sub_value(
        chal.spec_mul(evaluate(acc_v, chal)).spec_add(product_from(v, 0)),
        power(chal, n),
    );
    lemma_denote_same(sum, claim, x * h + t - xn);
}

/// The argument is complete: for a vector `v` that is not empty and any
/// challenges, the verifier that holds the claimed value of the sumcheck for
/// the true product of `v` accepts the run of an honest prover on the two
/// sequences of the claim.
pub proof fn lemma_true_product_is_accepted(
    v: Seq<Scalar>,
    chal: Scalar,
    challenges: Seq<Scalar>,
    run: Sumcheck,
)
    requires
        v.len() >= 1,
        challenges.len() == rounds_for(v.len() + 1),
        run.is_run_of(twisted(accumulated(v), chal), shifted(v), challenges),
    ensures
        verifier_accepts(
            run.messages@,
            run.challenges@,
            claimed_sumcheck(accumulated(v), product_from(v, 0), chal),
            run.spec_terminal_evaluation(),
        ),
{
    lemma_reduction(v, chal);
    lemma_honest_run_is_accepted(run, twisted(accumulated(v), chal), shifted(v), challenges);
}

} // verus!
