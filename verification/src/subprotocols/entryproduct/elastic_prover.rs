//! The entry product argument with provers that hold streams.
use super::streams::{ShiftedStreamer, TwistedStreamer};
use super::time_prover::claimed_sumcheck_of;
use super::reduction::lemma_reduction;
use super::{
    accumulated, claimed_sumcheck, product_from, shifted, twisted, EntryProduct, ProverMsgs,
};
use crate::field::Scalar;
use crate::kzg::Commitment;
use crate::subprotocols::sumcheck::elastic_prover::ElasticProver;
use crate::subprotocols::sumcheck::prover::{scalar_product, Prover};
use vstd::prelude::*;

verus! {

impl<'a> EntryProduct<
    ElasticProver<TwistedStreamer<&'a [Scalar]>, ShiftedStreamer<&'a [Scalar]>>,
> {
    /// The argument for the vectors `vs`, their accumulated vectors `acc_vs`
    /// and their claimed products, with provers that stream the vectors again
    /// in every round. The commitments to the accumulated vectors and the
    /// challenge of the verifier are handed in; there must be one accumulated
    /// vector, one claimed product and one commitment for each vector, each
    /// accumulated vector must be as long as its vector, and no vector may be
    /// empty.
    pub fn new_elastic(
        vs: &'a [Vec<Scalar>],
        acc_vs: &'a [Vec<Scalar>],
        claimed_products: &[Scalar],
        acc_v_commitments: Vec<Commitment>,
        chal: Scalar,
    ) -> (r: Self)
        requires
            vs@.len() >= 1,
            vs@.len() == acc_vs@.len(),
            vs@.len() == claimed_products@.len(),
            vs@.len() == acc_v_commitments@.len(),
            forall|i: int|
                0 <= i < vs@.len() ==> {
                    &&& 1 <= (#[trigger] vs@[i])@.len() < usize::MAX
                    &&& acc_vs@[i]@.len() == vs@[i]@.len()
                },
        ensures
            r.wf(),
            r.chal == chal,
            r.msgs.acc_v_commitments@ == acc_v_commitments@,
            r.provers@.len() == vs@.len(),
            forall|i: int|
                0 <= i < vs@.len() ==> {
                    &&& #[trigger] r.msgs.claimed_sumchecks@[i] == claimed_sumcheck(
                        acc_vs@[i]@,
                        claimed_products@[i],
                        chal,
                    )
                    &&& r.provers@[i].f() == twisted(acc_vs@[i]@, chal)
                    &&& r.provers@[i].g() == shifted(vs@[i]@)
                    &&& (acc_vs@[i]@ == accumulated(vs@[i]@) && claimed_products@[i] == product_from(
                        vs@[i]@,
                        0,
                    )) ==> scalar_product(r.provers@[i].f(), r.provers@[i].g())
                        == r.msgs.claimed_sumchecks@[i]
                },
    {
        let levels = vs.len();
        let mut claimed_sumchecks: Vec<Scalar> = Vec::new();
        let mut provers: Vec<
            ElasticProver<TwistedStreamer<&'a [Scalar]>, ShiftedStreamer<&'a [Scalar]>>,
        > = Vec::new();
        let mut i: usize = 0;
        while i < levels
            invariant
                levels == vs@.len(),
                levels == acc_vs@.len(),
                levels == claimed_products@.len(),
                forall|k: int|
                    0 <= k < vs@.len() ==> {
                        &&& 1 <= (#[trigger] vs@[k])@.len() < usize::MAX
                        &&& acc_vs@[k]@.len() == vs@[k]@.len()
                    },
                i <= levels,
                claimed_sumchecks@.len() == i,
                provers@.len() == i,
                forall|k: int|
                    0 <= k < i ==> #[trigger] claimed_sumchecks@[k] == claimed_sumcheck(
                        acc_vs@[k]@,
                        claimed_products@[k],
                        chal,
                    ),
                forall|k: int|
                    0 <= k < i ==> {
                        &&& (#[trigger] provers@[k]).inv()
                        &&& !provers@[k].started()
                        &&& provers@[k].f() == twisted(acc_vs@[k]@, chal)
                        &&& provers@[k].g() == shifted(vs@[k]@)
                    },
            decreases levels - i,
        {
            let v: &'a [Scalar] = vs[i].as_slice();
            let acc_v: &'a [Scalar] = acc_vs[i].as_slice();
            let claim = claimed_sumcheck_of(acc_v, &claimed_products[i], &chal);
            let prover = ElasticProver::new(TwistedStreamer::new(acc_v, chal), ShiftedStreamer::new(v));
            claimed_sumchecks.push(claim);
            provers.push(prover);
            i = i + 1;
        }
        proof {
            assert forall|k: int| 0 <= k < vs@.len() implies scalar_product(
                twisted(accumulated(#[trigger] vs@[k]@), chal),
                shifted(vs@[k]@),
            ) == claimed_sumcheck(accumulated(vs@[k]@), product_from(vs@[k]@, 0), chal) by {
                lemma_reduction(vs@[k]@, chal);
            }
        }
        EntryProduct { msgs: ProverMsgs { acc_v_commitments, claimed_sumchecks }, chal, provers }
    }
}

} // verus!
