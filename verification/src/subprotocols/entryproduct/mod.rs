//! The entry product argument.
//!
//! The entry product argument (also called grand product argument) proves
//! that the product of all entries of a vector `f` of `N` scalars equals some
//! scalar `t`. With the accumulated vector
//! `g = (f_0 f_1 .. f_{N-1}, f_1 .. f_{N-1}, .., f_{N-2} f_{N-1}, f_{N-1})`,
//! to which the prover commits, and a challenge `psi` of the verifier, the
//! claim is reduced to a sumcheck claim: the scalar product of
//! `(g_0, g_1 psi, .., g_{N-1} psi^{N-1}, psi^N)` and
//! `(1, f_0, .., f_{N-2}, f_{N-1} - 1)` is `psi g(psi) + t - psi^N`, where
//! `g(psi)` is the value at `psi` of the polynomial with the coefficients `g`.
//!
//! Several vectors, each with its claimed product, are handled side by side;
//! each is a level of its own, with its own commitment and sumcheck claim.
use crate::field::Scalar;
use crate::kzg::{commitment_size, Commitment};
use crate::subprotocols::sumcheck::prover::{rounds_for, Prover};
use crate::subprotocols::sumcheck::Sumcheck;
use vstd::prelude::*;

pub mod elastic_prover;
pub mod reduction;
pub mod streams;
pub mod time_prover;

verus! {

/// The messages sent by the prover during the protocol execution.
///
/// The verifier may already know the product `t`, so it is never part of the
/// messages: the layer above takes care of it.
#[derive(Debug, PartialEq, Eq)]
pub struct ProverMsgs {
    /// The commitments to the accumulated vectors, one for each level.
    pub acc_v_commitments: Vec<Commitment>,
    /// The claimed values of the sumchecks, one for each level.
    pub claimed_sumchecks: Vec<Scalar>,
}

impl ProverMsgs {
    /// The bundle holds one commitment and one claimed sumcheck for each of
    /// at least one level.
    pub open spec fn wf(self) -> bool {
        &&& self.acc_v_commitments@.len() == self.claimed_sumchecks@.len()
        &&& self.acc_v_commitments@.len() >= 1
    }

    /// The number of bytes that the messages take: the size of one commitment
    /// for each commitment, and the size of one scalar for each claimed
    /// sumcheck.
    pub open spec fn spec_size_in_bytes(self) -> nat {
        self.acc_v_commitments@.len() * commitment_size() + self.claimed_sumchecks@.len() * 32
    }

    /// The number of bytes that the messages take.
    pub fn size_in_bytes(&self) -> (n: usize)
        requires
            self.acc_v_commitments@.len() >= 1,
            self.spec_size_in_bytes() <= usize::MAX,
        ensures
            n == self.spec_size_in_bytes(),
    {
        let size_of_fe_in_bytes = Scalar::size_in_bytes();
        let size_of_gp_in_bytes = self.acc_v_commitments[0].size_in_bytes();
        self.acc_v_commitments.len() * size_of_gp_in_bytes + self.claimed_sumchecks.len()
            * size_of_fe_in_bytes
    }
}

/// The product of the entries of `v` from the `i`-th on.
pub open spec fn product_from(v: Seq<Scalar>, i: int) -> Scalar
    decreases v.len() - i,
{
    if 0 <= i < v.len() {
        v[i].spec_mul(product_from(v, i + 1))
    } else {
        Scalar::from_nat(1)
    }
}

/// The accumulated vector of `v`: its `i`-th entry is the product of the
/// entries of `v` from the `i`-th on.
pub open spec fn accumulated(v: Seq<Scalar>) -> Seq<Scalar> {
    Seq::new(v.len(), |i: int| product_from(v, i))
}

/// The `n`-th power of `x`.
pub open spec fn power(x: Scalar, n: nat) -> Scalar
    decreases n,
{
    if n == 0 {
        Scalar::from_nat(1)
    } else {
        x.spec_mul(power(x, (n - 1) as nat))
    }
}

/// The value at `x` of the polynomial with the given coefficients, the
/// constant one first.
pub open spec fn evaluate(coefficients: Seq<Scalar>, x: Scalar) -> Scalar
    decreases coefficients.len(),
{
    if coefficients.len() == 0 {
        Scalar::from_nat(0)
    } else {
        coefficients[0].spec_add(x.spec_mul(evaluate(coefficients.drop_first(), x)))
    }
}

/// The claimed value of the sumcheck for the accumulated vector `acc_v`, the
/// claimed product `t` and the challenge `chal`:
/// `chal * acc_v(chal) + t - chal^N`.
pub open spec fn claimed_sumcheck(acc_v: Seq<Scalar>, t: Scalar, chal: Scalar) -> Scalar {
    chal.spec_mul(evaluate(acc_v, chal)).spec_add(t).spec_sub(power(chal, acc_v.len()))
}

/// The first sequence of the sumcheck claim: the accumulated vector with a
/// one appended, each entry multiplied by the power of `chal` of its index.
pub open spec fn twisted(acc_v: Seq<Scalar>, chal: Scalar) -> Seq<Scalar> {
    Seq::new(
        acc_v.len() + 1,
        |j: int|
            (if j < acc_v.len() {
                acc_v[j]
            } else {
                Scalar::from_nat(1)
            }).spec_mul(power(chal, j as nat)),
    )
}

/// The second sequence of the sumcheck claim: a one, then the entries of `v`
/// but for the last, then the last entry less one.
pub open spec fn shifted(v: Seq<Scalar>) -> Seq<Scalar> {
    Seq::new(
        v.len() + 1,
        |j: int|
            if j == 0 {
                Scalar::from_nat(1)
            } else if j < v.len() {
                v[j - 1]
            } else {
                v[j - 1].spec_sub(Scalar::from_nat(1))
            },
    )
}

/// The entry product transcript and subclaims.
pub struct EntryProduct<P> {
    /// The messages sent by the prover.
    pub msgs: ProverMsgs,
    /// The challenge sent by the verifier.
    pub chal: Scalar,
    /// The sumcheck subclaims, one prover for each level.
    pub provers: Vec<P>,
}

impl<P: Prover> EntryProduct<P> {
    /// The argument holds one commitment, one claimed sumcheck and one
    /// prover that has not yet started for each of at least one level.
    pub open spec fn wf(self) -> bool {
        &&& self.msgs.wf()
        &&& self.provers@.len() == self.msgs.claimed_sumchecks@.len()
        &&& forall|i: int|
            0 <= i < self.provers@.len() ==> {
                &&& (#[trigger] self.provers@[i]).inv()
                &&& !self.provers@[i].started()
            }
    }

    /// Runs the provers of all levels through all their rounds, each with
    /// the challenges of its own level, which must be as many as the level
    /// has rounds. The runs come out in the order of the levels.
    pub fn prove(self, challenges: &[Vec<Scalar>]) -> (runs: Vec<Sumcheck>)
        requires
            self.wf(),
            challenges@.len() == self.provers@.len(),
            forall|i: int|
                0 <= i < self.provers@.len() ==> (#[trigger] challenges@[i])@.len() == rounds_for(
                    self.provers@[i].f().len(),
                ),
        ensures
            runs@.len() == self.provers@.len(),
            forall|i: int|
                0 <= i < self.provers@.len() ==> (#[trigger] runs@[i]).is_run_of(
                    self.provers@[i].f(),
                    self.provers@[i].g(),
                    challenges@[i]@,
                ),
    {
        let ghost all = self.provers@;
        let mut provers = self.provers;
        let mut runs: Vec<Sumcheck> = Vec::new();
        let levels = provers.len();
        let mut left = levels;
        while left > 0
            invariant
                all == self.provers@,
                levels == all.len(),
                levels == challenges@.len(),
                left <= levels,
                provers@ == all.take(left as int),
                runs@.len() == levels - left,
                forall|i: int|
                    0 <= i < all.len() ==> {
                        &&& (#[trigger] all[i]).inv()
                        &&& !all[i].started()
                        &&& challenges@[i]@.len() == rounds_for(all[i].f().len())
                    },
                forall|i: int|
                    left <= i < levels ==> (#[trigger] runs@[i - left]).is_run_of(
                        all[i].f(),
                        all[i].g(),
                        challenges@[i]@,
                    ),
            decreases left,
        {
            let ghost before = runs@;
            match provers.pop() {
                Some(prover) => {
                    left = left - 1;
                    proof {
                        prover.lemma_inv();
                        assert(prover == all[left as int]);
                        assert(provers@ =~= all.take(left as int));
                    }
                    let run = Sumcheck::prove(prover, challenges[left].as_slice());
                    runs.insert(0, run);
                    proof {
                        assert forall|i: int| left <= i < levels implies (#[trigger] runs@[i
                            - left]).is_run_of(all[i].f(), all[i].g(), challenges@[i]@) by {
                            if i > left {
                                assert(runs@[i - left] == before[i - (left + 1)]);
                            }
                        }
                    }
                },
                None => {},
            }
        }
        proof {
            assert forall|i: int| 0 <= i < all.len() implies (#[trigger] runs@[i]).is_run_of(
                all[i].f(),
                all[i].g(),
                challenges@[i]@,
            ) by {
                assert(runs@[i] == runs@[i - left]);
            }
        }
        runs
    }
}

} // verus!
