//! What an honest run adds up to. The two first values of a round message add
//! up to the scalar product of the sequences; the value of the round
//! polynomial at the challenge is the scalar product of the folded sequences;
//! and the last foldings multiply to the scalar product of what is left. So a
//! verifier that starts from the true scalar product accepts the run.
use super::prover::{
    add_pair, entry, extrapolate, fold, folded, half, interpolate, lemma_folded_len,
    lemma_rounds_left, partial_message, partial_product, round_message, rounds_for,
    scalar_product, RoundMsg,
};
use super::{round_messages, Sumcheck};
use crate::congruence::{
    denotes, lemma_denote_same, lemma_denotes_add, lemma_denotes_mul, lemma_denotes_nat,
    lemma_denotes_sub, lemma_denotes_value,
};
use crate::field::{half_value, modulus, Scalar};
use vstd::arithmetic::div_mod::lemma_mod_multiples_vanish;
use vstd::prelude::*;

verus! {

/// The value at `r` of the quadratic polynomial that takes the three values
/// of `msg` at 0, 1 and 2:
/// `s0 (r - 1)(r - 2) / 2 - s1 r (r - 2) + s2 r (r - 1) / 2`.
pub open spec fn round_polynomial(msg: RoundMsg, r: Scalar) -> Scalar {
    let one = Scalar::from_nat(1);
    let two = Scalar::from_nat(2);
    Scalar::from_nat(half_value()).spec_mul(
        msg.0.spec_mul(r.spec_sub(one).spec_mul(r.spec_sub(two))).spec_sub(
            two.spec_mul(msg.1.spec_mul(r.spec_mul(r.spec_sub(two)))),
        ).spec_add(msg.2.spec_mul(r.spec_mul(r.spec_sub(one)))),
    )
}

/// What the verifier checks: in each round, that the two first values of the
/// message add up to the claim, after which the claim becomes the value of
/// the round polynomial at the challenge; and in the end, that the terminal
/// evaluation is the claim.
pub open spec fn verifier_accepts(
    messages: Seq<RoundMsg>,
    challenges: Seq<Scalar>,
    claim: Scalar,
    terminal: Scalar,
) -> bool
    decreases messages.len(),
{
    if messages.len() == 0 {
        terminal == claim
    } else {
        &&& messages[0].0.spec_add(messages[0].1) == claim
        &&& verifier_accepts(
            messages.drop_first(),
            challenges.drop_first(),
            round_polynomial(messages[0], challenges[0]),
            terminal,
        )
    }
}

/// The value at `r` of the quadratic polynomial that takes the three values
/// of `msg` at 0, 1 and 2.
pub fn round_polynomial_at(msg: &RoundMsg, r: &Scalar) -> (y: Scalar)
    ensures
        y == round_polynomial(*msg, *r),
{
    let one = Scalar::one();
    let two = Scalar::from_u64(2);
    let less_one = r.sub(&one);
    let less_two = r.sub(&two);
    let at_zero = msg.0.mul(&less_one.mul(&less_two));
    let at_one = two.mul(&msg.1.mul(&r.mul(&less_two)));
    let at_two = msg.2.mul(&r.mul(&less_one));
    Scalar::inverse_of_two().mul(&at_zero.sub(&at_one).add(&at_two))
}

impl Sumcheck {
    /// Whether the verifier that holds `claim` as the sum accepts the run.
    pub fn is_accepted_for(&self, claim: &Scalar) -> (accepted: bool)
        requires
            self.messages@.len() == self.challenges@.len(),
        ensures
            accepted == verifier_accepts(
                self.messages@,
                self.challenges@,
                *claim,
                self.spec_terminal_evaluation(),
            ),
    {
        let ghost terminal = self.spec_terminal_evaluation();
        let rounds = self.messages.len();
        let mut current = *claim;
        let mut i: usize = 0;
        proof {
            assert(self.messages@.skip(0) =~= self.messages@);
            assert(self.challenges@.skip(0) =~= self.challenges@);
        }
        while i < rounds
            invariant
                rounds == self.messages@.len(),
                rounds == self.challenges@.len(),
                i <= rounds,
                terminal == self.spec_terminal_evaluation(),
                verifier_accepts(
                    self.messages@.skip(i as int),
                    self.challenges@.skip(i as int),
                    current,
                    terminal,
                ) == verifier_accepts(self.messages@, self.challenges@, *claim, terminal),
            decreases rounds - i,
        {
            let msg = self.messages[i];
            proof {
                assert(self.messages@.skip(i as int)[0] == msg);
                assert(self.challenges@.skip(i as int)[0] == self.challenges@[i as int]);
                assert(self.messages@.skip(i as int).drop_first() =~= self.messages@.skip(i + 1));
                assert(self.challenges@.skip(i as int).drop_first() =~= self.challenges@.skip(
                    i + 1,
                ));
            }
            if msg.0.add(&msg.1) != current {
                return false;
            }
            current = round_polynomial_at(&msg, &self.challenges[i]);
            i = i + 1;
        }
        self.terminal_evaluation() == current
    }
}

/// The value of the entry of `v` at `i`, zero past the end.
pub open spec fn value_at(v: Seq<Scalar>, i: int) -> int {
    entry(v, i)@ as int
}

/// The sum of the products of the values of the first `n` entries.
pub open spec fn product_sum(f: Seq<Scalar>, g: Seq<Scalar>, n: nat) -> int
    decreases n,
{
    if n == 0 {
        0
    } else {
        product_sum(f, g, (n - 1) as nat) + value_at(f, n - 1) * value_at(g, n - 1)
    }
}

/// The sum over the first `pairs` pairs of the products of the even entries.
pub open spec fn even_sum(f: Seq<Scalar>, g: Seq<Scalar>, pairs: nat) -> int
    decreases pairs,
{
    if pairs == 0 {
        0
    } else {
        let j = pairs - 1;
        even_sum(f, g, j as nat) + value_at(f, 2 * j) * value_at(g, 2 * j)
    }
}

/// The sum over the first `pairs` pairs of the products of the odd entries.
pub open spec fn odd_sum(f: Seq<Scalar>, g: Seq<Scalar>, pairs: nat) -> int
    decreases pairs,
{
    if pairs == 0 {
        0
    } else {
        let j = pairs - 1;
        odd_sum(f, g, j as nat) + value_at(f, 2 * j + 1) * value_at(g, 2 * j + 1)
    }
}

/// The sum over the first `pairs` pairs of the products of the values at 2
/// of the lines through the pairs.
pub open spec fn outer_sum(f: Seq<Scalar>, g: Seq<Scalar>, pairs: nat) -> int
    decreases pairs,
{
    if pairs == 0 {
        0
    } else {
        let j = pairs - 1;
        outer_sum(f, g, j as nat) + (2 * value_at(f, 2 * j + 1) - value_at(f, 2 * j)) * (2
            * value_at(g, 2 * j + 1) - value_at(g, 2 * j))
    }
}

/// The sum over the first `pairs` pairs of the products of the values at `x`
/// of the lines through the pairs.
pub open spec fn folded_sum(f: Seq<Scalar>, g: Seq<Scalar>, x: int, pairs: nat) -> int
    decreases pairs,
{
    if pairs == 0 {
        0
    } else {
        let j = pairs - 1;
        folded_sum(f, g, x, j as nat) + (value_at(f, 2 * j) + x * (value_at(f, 2 * j + 1)
            - value_at(f, 2 * j))) * (value_at(g, 2 * j) + x * (value_at(g, 2 * j + 1) - value_at(
            g,
            2 * j,
        )))
    }
}

/// A partial scalar product stands for the sum of the products of the values.
pub proof fn lemma_partial_product_denotes(f: Seq<Scalar>, g: Seq<Scalar>, n: nat)
    ensures
        denotes(partial_product(f, g, n), product_sum(f, g, n)),
        partial_product(f, g, n).wf(),
    decreases n,
{
    if n == 0 {
        lemma_denotes_nat(0);
        Scalar::lemma_from_nat(0);
    } else {
        lemma_partial_product_denotes(f, g, (n - 1) as nat);
        let a = entry(f, n - 1);
        let b = entry(g, n - 1);
        lemma_denotes_value(a);
        lemma_denotes_value(b);
        lemma_denotes_mul(a, a@ as int, b, b@ as int);
        lemma_denotes_add(
            partial_product(f, g, (n - 1) as nat),
            product_sum(f, g, (n - 1) as nat),
            a.spec_mul(b),
            (a@ * b@) as int,
        );
        Scalar::lemma_add_value(partial_product(f, g, (n - 1) as nat), a.spec_mul(b));
    }
}

/// The three values of a partial message stand for the three sums.
pub proof fn lemma_partial_message_denotes(f: Seq<Scalar>, g: Seq<Scalar>, pairs: nat)
    ensures
        denotes(partial_message(f, g, pairs).0, even_sum(f, g, pairs)),
        denotes(partial_message(f, g, pairs).1, odd_sum(f, g, pairs)),
        denotes(partial_message(f, g, pairs).2, outer_sum(f, g, pairs)),
    decreases pairs,
{
    if pairs == 0 {
        lemma_denotes_nat(0);
    } else {
        let j = pairs - 1;
        lemma_partial_message_denotes(f, g, j as nat);
        let acc = partial_message(f, g, j as nat);
        let a = entry(f, 2 * j);
        let b = entry(f, 2 * j + 1);
        let c = entry(g, 2 * j);
        let d = entry(g, 2 * j + 1);
        lemma_denotes_value(a);
        lemma_denotes_value(b);
        lemma_denotes_value(c);
        lemma_denotes_value(d);
        lemma_denotes_mul(a, a@ as int, c, c@ as int);
        lemma_denotes_add(acc.0, even_sum(f, g, j as nat), a.spec_mul(c), (a@ * c@) as int);
        lemma_denotes_mul(b, b@ as int, d, d@ as int);
        lemma_denotes_add(acc.1, odd_sum(f, g, j as nat), b.spec_mul(d), (b@ * d@) as int);
        lemma_denotes_add(b, b@ as int, b, b@ as int);
        lemma_denotes_sub(b.spec_add(b), (b@ + b@) as int, a, a@ as int);
        lemma_denotes_add(d, d@ as int, d, d@ as int);
        lemma_denotes_sub(d.spec_add(d), (d@ + d@) as int, c, c@ as int);
        lemma_denotes_mul(extrapolate(a, b), b@ + b@ - a@, extrapolate(c, d), d@ + d@ - c@);
        lemma_denotes_add(
            acc.2,
            outer_sum(f, g, j as nat),
            extrapolate(a, b).spec_mul(extrapolate(c, d)),
            (b@ + b@ - a@) * (d@ + d@ - c@),
        );
        assert(partial_message(f, g, pairs) == add_pair(acc, a, b, c, d));
    }
}

/// A partial scalar product of the folded sequences stands for the sum of
/// the products of the values of the lines at the challenge.
pub proof fn lemma_folded_product_denotes(f: Seq<Scalar>, g: Seq<Scalar>, r: Scalar, pairs: nat)
    requires
        f.len() == g.len(),
        pairs <= half(f.len()),
    ensures
        denotes(
            partial_product(fold(f, r), fold(g, r), pairs),
            folded_sum(f, g, r@ as int, pairs),
        ),
    decreases pairs,
{
    if pairs == 0 {
        lemma_denotes_nat(0);
    } else {
        let j = pairs - 1;
        let x = r@ as int;
        lemma_folded_product_denotes(f, g, r, j as nat);
        let a = entry(f, 2 * j);
        let b = entry(f, 2 * j + 1);
        let c = entry(g, 2 * j);
        let d = entry(g, 2 * j + 1);
        assert(entry(fold(f, r), j) == interpolate(a, b, r));
        assert(entry(fold(g, r), j) == interpolate(c, d, r));
        lemma_denotes_value(a);
        lemma_denotes_value(b);
        lemma_denotes_value(c);
        lemma_denotes_value(d);
        lemma_denotes_value(r);
        lemma_denotes_sub(b, b@ as int, a, a@ as int);
        lemma_denotes_mul(r, x, b.spec_sub(a), b@ - a@);
        lemma_denotes_add(a, a@ as int, r.spec_mul(b.spec_sub(a)), x * (b@ - a@));
        lemma_denotes_sub(d, d@ as int, c, c@ as int);
        lemma_denotes_mul(r, x, d.spec_sub(c), d@ - c@);
        lemma_denotes_add(c, c@ as int, r.spec_mul(d.spec_sub(c)), x * (d@ - c@));
        lemma_denotes_mul(
            interpolate(a, b, r),
            a@ + x * (b@ - a@),
            interpolate(c, d, r),
            c@ + x * (d@ - c@),
        );
        lemma_denotes_add(
            partial_product(fold(f, r), fold(g, r), j as nat),
            folded_sum(f, g, x, j as nat),
            interpolate(a, b, r).spec_mul(interpolate(c, d, r)),
            (a@ + x * (b@ - a@)) * (c@ + x * (d@ - c@)),
        );
    }
}

/// The products of the even entries and those of the odd entries of the
/// first pairs are the products of the entries of the pairs.
pub proof fn lemma_even_and_odd(f: Seq<Scalar>, g: Seq<Scalar>, pairs: nat)
    ensures
        even_sum(f, g, pairs) + odd_sum(f, g, pairs) == product_sum(f, g, 2 * pairs),
    decreases pairs,
{
    if pairs > 0 {
        let j = (pairs - 1) as nat;
        lemma_even_and_odd(f, g, j);
        assert(product_sum(f, g, 2 * pairs) == product_sum(f, g, (2 * pairs - 1) as nat) + value_at(
            f,
            2 * pairs - 1,
        ) * value_at(g, 2 * pairs - 1));
        assert(product_sum(f, g, (2 * pairs - 1) as nat) == product_sum(f, g, 2 * j) + value_at(
            f,
            2 * j as int,
        ) * value_at(g, 2 * j as int));
    }
}

/// The quadratic polynomial through the values at 0, 1 and 2 of a product of
/// two lines is that product: twice its value at `x` is
/// `q0 (x - 1)(x - 2) - 2 q1 x (x - 2) + q2 x (x - 1)`.
pub proof fn lemma_interpolation(a: int, b: int, c: int, d: int, x: int)
    ensures
        2 * ((a + x * (b - a)) * (c + x * (d - c))) == (a * c) * ((x - 1) * (x - 2)) - 2 * ((b
            * d) * (x * (x - 2))) + ((2 * b - a) * (2 * d - c)) * (x * (x - 1)),
{
    let p = b - a;
    let q = d - c;
    let xx = x * x;
    let q0 = a * c;
    let q1 = b * d;
    let q2 = (2 * b - a) * (2 * d - c);
    let slope = a * q + p * c;
    let top = p * q;
    // the product of the two lines, by powers of x
    let u = x * p;
    let v = x * q;
    assert((a + u) * (c + v) == a * c + a * v + u * c + u * v) by (nonlinear_arith);
    assert(a * v == x * (a * q)) by (nonlinear_arith)
        requires
            v == x * q,
    ;
    assert(u * c == x * (p * c)) by (nonlinear_arith)
        requires
            u == x * p,
    ;
    assert(u * v == xx * top) by (nonlinear_arith)
        requires
            u == x * p,
            v == x * q,
            xx == x * x,
            top == p * q,
    ;
    assert(x * (a * q) + x * (p * c) == x * slope) by (nonlinear_arith)
        requires
            slope == a * q + p * c,
    ;
    assert((a + x * p) * (c + x * q) == q0 + x * slope + xx * top);
    // its values at 1 and 2, by the same coefficients
    assert(q1 == q0 + slope + top) by (nonlinear_arith)
        requires
            p == b - a,
            q == d - c,
            q0 == a * c,
            q1 == b * d,
            slope == a * q + p * c,
            top == p * q,
    ;
    assert(q2 == q0 + 2 * slope + 4 * top) by (nonlinear_arith)
        requires
            p == b - a,
            q == d - c,
            q0 == a * c,
            q2 == (2 * b - a) * (2 * d - c),
            slope == a * q + p * c,
            top == p * q,
    ;
    // the three basis polynomials, by powers of x
    assert((x - 1) * (x - 2) == xx - 3 * x + 2) by (nonlinear_arith)
        requires
            xx == x * x,
    ;
    assert(x * (x - 2) == xx - 2 * x) by (nonlinear_arith)
        requires
            xx == x * x,
    ;
    assert(x * (x - 1) == xx - x) by (nonlinear_arith)
        requires
            xx == x * x,
    ;
    assert(q0 * (xx - 3 * x + 2) - 2 * (q1 * (xx - 2 * x)) + q2 * (xx - x) == 2 * (q0 + x * slope
        + xx * top)) by (nonlinear_arith)
        requires
            q1 == q0 + slope + top,
            q2 == q0 + 2 * slope + 4 * top,
    ;
}

/// Twice the sum of the products of the lines at `x` is what interpolation
/// makes of the three sums.
pub proof fn lemma_sums_interpolate(f: Seq<Scalar>, g: Seq<Scalar>, x: int, pairs: nat)
    ensures
        2 * folded_sum(f, g, x, pairs) == even_sum(f, g, pairs) * ((x - 1) * (x - 2)) - 2 * (
        odd_sum(f, g, pairs) * (x * (x - 2))) + outer_sum(f, g, pairs) * (x * (x - 1)),
    decreases pairs,
{
    if pairs > 0 {
        let j = pairs - 1;
        lemma_sums_interpolate(f, g, x, j as nat);
        let a = value_at(f, 2 * j);
        let b = value_at(f, 2 * j + 1);
        let c = value_at(g, 2 * j);
        let d = value_at(g, 2 * j + 1);
        lemma_interpolation(a, b, c, d, x);
        let e = even_sum(f, g, j as nat);
        let o = odd_sum(f, g, j as nat);
        let u = outer_sum(f, g, j as nat);
        let q = folded_sum(f, g, x, j as nat);
        let k0 = (x - 1) * (x - 2);
        let k1 = x * (x - 2);
        let k2 = x * (x - 1);
        assert((e + a * c) * k0 == e * k0 + (a * c) * k0) by (nonlinear_arith);
        assert((o + b * d) * k1 == o * k1 + (b * d) * k1) by (nonlinear_arith);
        assert((u + (2 * b - a) * (2 * d - c)) * k2 == u * k2 + ((2 * b - a) * (2 * d - c)) * k2)
            by (nonlinear_arith);
    }
}

/// The two first values of the round message add up to the scalar product.
pub proof fn lemma_message_sums(f: Seq<Scalar>, g: Seq<Scalar>)
    requires
        f.len() == g.len(),
    ensures
        round_message(f, g).0.spec_add(round_message(f, g).1) == scalar_product(f, g),
{
    let n = f.len();
    let pairs = half(n);
    let msg = round_message(f, g);
    lemma_partial_message_denotes(f, g, pairs);
    lemma_denotes_add(msg.0, even_sum(f, g, pairs), msg.1, odd_sum(f, g, pairs));
    lemma_even_and_odd(f, g, pairs);
    lemma_partial_product_denotes(f, g, n);
    if 2 * pairs != n {
        Scalar::lemma_from_nat(0);
        assert(value_at(f, n as int) == 0);
        assert(product_sum(f, g, 2 * pairs) == product_sum(f, g, n) + value_at(f, n as int)
            * value_at(g, n as int));
    }
    Scalar::lemma_add_value(msg.0, msg.1);
    lemma_denote_same(msg.0.spec_add(msg.1), scalar_product(f, g), product_sum(f, g, n));
}

/// The value of the round polynomial at the challenge is the scalar product
/// of the sequences folded at the challenge: the claim of the next round.
pub proof fn lemma_round_polynomial(f: Seq<Scalar>, g: Seq<Scalar>, r: Scalar)
    requires
        f.len() == g.len(),
    ensures
        round_polynomial(round_message(f, g), r) == scalar_product(fold(f, r), fold(g, r)),
{
    let m = modulus() as int;
    let pairs = half(f.len());
    let msg = round_message(f, g);
    let x = r@ as int;
    let one = Scalar::from_nat(1);
    let two = Scalar::from_nat(2);
    let inv = Scalar::from_nat(half_value());
    let e = even_sum(f, g, pairs);
    let o = odd_sum(f, g, pairs);
    let u = outer_sum(f, g, pairs);
    let q = folded_sum(f, g, x, pairs);
    lemma_partial_message_denotes(f, g, pairs);
    lemma_denotes_value(r);
    lemma_denotes_nat(1);
    lemma_denotes_nat(2);
    lemma_denotes_nat(half_value());
    lemma_denotes_sub(r, x, one, 1);
    lemma_denotes_sub(r, x, two, 2);
    // s0 (r - 1)(r - 2)
    lemma_denotes_mul(r.spec_sub(one), x - 1, r.spec_sub(two), x - 2);
    let t0 = msg.0.spec_mul(r.spec_sub(one).spec_mul(r.spec_sub(two)));
    lemma_denotes_mul(msg.0, e, r.spec_sub(one).spec_mul(r.spec_sub(two)), (x - 1) * (x - 2));
    // 2 s1 r (r - 2)
    lemma_denotes_mul(r, x, r.spec_sub(two), x - 2);
    lemma_denotes_mul(msg.1, o, r.spec_mul(r.spec_sub(two)), x * (x - 2));
    let t1 = two.spec_mul(msg.1.spec_mul(r.spec_mul(r.spec_sub(two))));
    lemma_denotes_mul(two, 2, msg.1.spec_mul(r.spec_mul(r.spec_sub(two))), o * (x * (x - 2)));
    // s2 r (r - 1)
    lemma_denotes_mul(r, x, r.spec_sub(one), x - 1);
    let t2 = msg.2.spec_mul(r.spec_mul(r.spec_sub(one)));
    lemma_denotes_mul(msg.2, u, r.spec_mul(r.spec_sub(one)), x * (x - 1));
    lemma_denotes_sub(t0, e * ((x - 1) * (x - 2)), t1, 2 * (o * (x * (x - 2))));
    lemma_denotes_add(
        t0.spec_sub(t1),
        e * ((x - 1) * (x - 2)) - 2 * (o * (x * (x - 2))),
        t2,
        u * (x * (x - 1)),
    );
    let twice = e * ((x - 1) * (x - 2)) - 2 * (o * (x * (x - 2))) + u * (x * (x - 1));
    lemma_denotes_mul(inv, half_value() as int, t0.spec_sub(t1).spec_add(t2), twice);
    lemma_sums_interpolate(f, g, x, pairs);
    assert(half_value() * twice == m * q + q) by (nonlinear_arith)
        requires
            twice == 2 * q,
            2 * half_value() == m + 1,
    ;
    lemma_mod_multiples_vanish(q, q, m);
    let lhs = round_polynomial(msg, r);
    assert(denotes(lhs, q));
    lemma_folded_product_denotes(f, g, r, pairs);
    lemma_partial_product_denotes(fold(f, r), fold(g, r), pairs);
    Scalar::lemma_mul_value(inv, t0.spec_sub(t1).spec_add(t2));
    lemma_denote_same(lhs, scalar_product(fold(f, r), fold(g, r)), q);
}

/// The scalar product of two sequences of a single entry is the product of
/// the entries.
pub proof fn lemma_single_entry(f: Seq<Scalar>, g: Seq<Scalar>)
    requires
        f.len() == 1,
        g.len() == 1,
    ensures
        scalar_product(f, g) == f[0].spec_mul(g[0]),
{
    lemma_partial_product_denotes(f, g, 1);
    lemma_denotes_value(f[0]);
    lemma_denotes_value(g[0]);
    lemma_denotes_mul(f[0], f[0]@ as int, g[0], g[0]@ as int);
    Scalar::lemma_mul_value(f[0], g[0]);
    assert(product_sum(f, g, 1) == product_sum(f, g, 0) + value_at(f, 0) * value_at(g, 0));
    lemma_denote_same(scalar_product(f, g), f[0].spec_mul(g[0]), product_sum(f, g, 1));
}

/// From round `i` on, the verifier accepts the rest of an honest run if it
/// holds the scalar product of the sequences folded `i` times as the claim.
pub proof fn lemma_accepted_from(
    f: Seq<Scalar>,
    g: Seq<Scalar>,
    challenges: Seq<Scalar>,
    terminal: Scalar,
    i: nat,
)
    requires
        f.len() == g.len(),
        f.len() >= 1,
        challenges.len() == rounds_for(f.len()),
        i <= challenges.len(),
        terminal == folded(f, challenges)[0].spec_mul(folded(g, challenges)[0]),
    ensures
        verifier_accepts(
            round_messages(f, g, challenges).skip(i as int),
            challenges.skip(i as int),
            scalar_product(
                folded(f, challenges.take(i as int)),
                folded(g, challenges.take(i as int)),
            ),
            terminal,
        ),
    decreases challenges.len() - i,
{
    let messages = round_messages(f, g, challenges);
    let before = challenges.take(i as int);
    let fi = folded(f, before);
    let gi = folded(g, before);
    lemma_folded_len(f, before);
    lemma_folded_len(g, before);
    if i == challenges.len() {
        assert(before =~= challenges);
        lemma_rounds_left(f.len(), challenges.len());
        lemma_single_entry(fi, gi);
    } else {
        let r = challenges[i as int];
        let next = challenges.take(i as int + 1);
        assert(next.drop_last() =~= before);
        assert(next.last() == r);
        assert(folded(f, next) == fold(fi, r));
        assert(folded(g, next) == fold(gi, r));
        lemma_message_sums(fi, gi);
        lemma_round_polynomial(fi, gi, r);
        lemma_accepted_from(f, g, challenges, terminal, i + 1);
        let rest = messages.skip(i as int);
        assert(rest[0] == round_message(fi, gi));
        assert(rest.drop_first() =~= messages.skip(i as int + 1));
        assert(challenges.skip(i as int).drop_first() =~= challenges.skip(i as int + 1));
        assert(challenges.skip(i as int)[0] == r);
    }
}

/// Completeness: the verifier that holds the scalar product of the two
/// sequences as the claim accepts the run of an honest prover, whatever the
/// challenges are.
pub proof fn lemma_honest_run_is_accepted(
    run: Sumcheck,
    f: Seq<Scalar>,
    g: Seq<Scalar>,
    challenges: Seq<Scalar>,
)
    requires
        f.len() == g.len(),
        f.len() >= 1,
        challenges.len() == rounds_for(f.len()),
        run.is_run_of(f, g, challenges),
    ensures
        verifier_accepts(
            run.messages@,
            run.challenges@,
            scalar_product(f, g),
            run.spec_terminal_evaluation(),
        ),
{
    lemma_accepted_from(f, g, challenges, run.spec_terminal_evaluation(), 0);
    assert(challenges.take(0) =~= Seq::<Scalar>::empty());
    assert(round_messages(f, g, challenges).skip(0) =~= run.messages@);
    assert(challenges.skip(0) =~= run.challenges@);
}

} // verus!
