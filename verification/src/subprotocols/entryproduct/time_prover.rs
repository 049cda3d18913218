//! The entry product argument with provers that hold their sequences in
//! memory, and the computations on vectors that the reduction is made of.
use super::reduction::lemma_reduction;
use super::streams::{
    lemma_running_products_of_reversed, ProductStreamer, ShiftedStreamer, TwistedStreamer,
};
use super::{
    accumulated, claimed_sumcheck, evaluate, power, product_from, shifted, twisted, EntryProduct,
    ProverMsgs,
};
use crate::field::Scalar;
use crate::iterable::slice::Reversed;
use crate::iterable::{collect, Iterable, Pass};
use crate::kzg::Commitment;
use crate::stream::Streamer;
use crate::subprotocols::sumcheck::prover::{scalar_product, Prover};
use crate::subprotocols::sumcheck::time_prover::TimeProver;
use vstd::prelude::*;

verus! {

/// The accumulated vector of `v`. It is built from the back: the running
/// products of the vector read in reverse are put back in order.
pub fn accumulated_product(v: &[Scalar]) -> (acc_v: Vec<Scalar>)
    ensures
        acc_v@ == accumulated(v@),
{
    let backwards = collect(ProductStreamer::new(Reversed::new(v)).stream());
    let acc_v = collect(Reversed::new(backwards.as_slice()).iter());
    proof {
        lemma_running_products_of_reversed(v@);
        assert(accumulated(v@).reverse().reverse() =~= accumulated(v@));
    }
    acc_v
}

/// The value at `x` of the polynomial with the given coefficients, the
/// constant one first. The coefficients are read in reverse, by Horner's rule.
pub fn evaluate_le(coefficients: &[Scalar], x: &Scalar) -> (y: Scalar)
    ensures
        y == evaluate(coefficients@, *x),
{
    let ghost n = coefficients@.len() as int;
    let mut pass = Reversed::new(coefficients).iter();
    let mut y = Scalar::zero();
    let ghost mut k: int = 0;
    loop
        invariant
            n == coefficients@.len(),
            pass.inv(),
            0 <= k <= n,
            pass.rest() == coefficients@.reverse().skip(k),
            y == evaluate(coefficients@.skip(n - k), *x),
        ensures
            y == evaluate(coefficients@, *x),
        decreases n - k,
    {
        match pass.next() {
            Some(c) => {
                proof {
                    assert(coefficients@.skip(n - k - 1).drop_first() =~= coefficients@.skip(n - k));
                    assert(pass.rest() =~= coefficients@.reverse().skip(k + 1));
                    k = k + 1;
                }
                y = c.add(&x.mul(&y));
            },
            None => {
                assert(coefficients@.skip(0) =~= coefficients@);
                break ;
            },
        }
    }
    y
}

/// The `n`-th power of `x`, by `n` multiplications.
pub fn pow(x: &Scalar, n: usize) -> (y: Scalar)
    ensures
        y == power(*x, n as nat),
{
    let mut y = Scalar::one();
    let mut i: usize = 0;
    while i < n
        invariant
            i <= n,
            y == power(*x, i as nat),
        decreases n - i,
    {
        y = x.mul(&y);
        i = i + 1;
    }
    y
}

/// The claimed value of the sumcheck: `chal * acc_v(chal) + t - chal^N`.
pub fn claimed_sumcheck_of(acc_v: &[Scalar], t: &Scalar, chal: &Scalar) -> (claim: Scalar)
    ensures
        claim == claimed_sumcheck(acc_v@, *t, *chal),
{
    chal.mul(&evaluate_le(acc_v, chal)).add(t).sub(&pow(chal, acc_v.len()))
}

/// The first sequence of the sumcheck claim for the accumulated vector
/// `acc_v` and the challenge `chal`.
pub fn twist(acc_v: &[Scalar], chal: &Scalar) -> (left: Vec<Scalar>)
    requires
        acc_v@.len() < usize::MAX,
    ensures
        left@ == twisted(acc_v@, *chal),
{
    collect(TwistedStreamer::new(acc_v, *chal).stream())
}

/// The second sequence of the sumcheck claim for the vector `v`, which must
/// not be empty.
pub fn shift(v: &[Scalar]) -> (right: Vec<Scalar>)
    requires
        1 <= v@.len() < usize::MAX,
    ensures
        right@ == shifted(v@),
{
    collect(ShiftedStreamer::new(v).stream())
}

impl EntryProduct<TimeProver> {
    /// The argument for the vectors `vs` and their claimed products, with
    /// provers that hold their sequences in memory. The commitments to the
    /// accumulated vectors and the challenge of the verifier are handed in;
    /// there must be one vector, one claimed product and one commitment for
    /// each level, and no vector may be empty.
    pub fn new_time(
        vs: &[Vec<Scalar>],
        claimed_products: &[Scalar],
        acc_v_commitments: Vec<Commitment>,
        chal: Scalar,
    ) -> (r: Self)
        requires
            vs@.len() >= 1,
            vs@.len() == claimed_products@.len(),
            vs@.len() == acc_v_commitments@.len(),
            forall|i: int| 0 <= i < vs@.len() ==> 1 <= (#[trigger] vs@[i])@.len() < usize::MAX,
        ensures
            r.wf(),
            r.chal == chal,
            r.msgs.acc_v_commitments@ == acc_v_commitments@,
            r.provers@.len() == vs@.len(),
            forall|i: int|
                0 <= i < vs@.len() ==> {
                    &&& #[trigger] r.msgs.claimed_sumchecks@[i] == claimed_sumcheck(
                        accumulated(vs@[i]@),
                        claimed_products@[i],
                        chal,
                    )
                    &&& r.provers@[i].f() == twisted(accumulated(vs@[i]@), chal)
                    &&& r.provers@[i].g() == shifted(vs@[i]@)
                    &&& claimed_products@[i] == product_from(vs@[i]@, 0) ==> scalar_product(
                        r.provers@[i].f(),
                        r.provers@[i].g(),
                    ) == r.msgs.claimed_sumchecks@[i]
                },
    {
        let levels = vs.len();
        let mut claimed_sumchecks: Vec<Scalar> = Vec::new();
        let mut provers: Vec<TimeProver> = Vec::new();
        let mut i: usize = 0;
        while i < levels
            invariant
                levels == vs@.len(),
                levels == claimed_products@.len(),
                forall|k: int| 0 <= k < vs@.len() ==> 1 <= (#[trigger] vs@[k])@.len() < usize::MAX,
                i <= levels,
                claimed_sumchecks@.len() == i,
                provers@.len() == i,
                forall|k: int|
                    0 <= k < i ==> {
                        &&& #[trigger] claimed_sumchecks@[k] == claimed_sumcheck(
                            accumulated(vs@[k]@),
                            claimed_products@[k],
                            chal,
                        )
                    },
                forall|k: int|
                    0 <= k < i ==> {
                        &&& (#[trigger] provers@[k]).inv()
                        &&& !provers@[k].started()
                        &&& provers@[k].f() == twisted(accumulated(vs@[k]@), chal)
                        &&& provers@[k].g() == shifted(vs@[k]@)
                    },
            decreases levels - i,
        {
            let v = vs[i].as_slice();
            let acc_v = accumulated_product(v);
            let claim = claimed_sumcheck_of(acc_v.as_slice(), &claimed_products[i], &chal);
            let prover = TimeProver::new(twist(acc_v.as_slice(), &chal), shift(v));
            claimed_sumchecks.push(claim);
            provers.push(prover);
            i = i + 1;
        }
        proof {
            assert forall|k: int| 0 <= k < vs@.len() implies scalar_product(
                twisted(accumulated(#[trigger] vs@[k]@), chal),
                shifted(vs@[k]@),
            ) == claimed_sumcheck(accumulated(vs@[k]@), product_from(vs@[k]@, 0), chal) by {
                lemma_reduction(vs@[k]@, chal);
            }
        }
        EntryProduct { msgs: ProverMsgs { acc_v_commitments, claimed_sumchecks }, chal, provers }
    }
}

} // verus!
