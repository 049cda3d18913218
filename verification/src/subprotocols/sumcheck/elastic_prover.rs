//! The prover that trades time for memory: it holds two streams and the
//! challenges, and in every round streams both again, folding them on the
//! fly.
use super::prover::{
    entry, folded, half, lemma_folded_len, lemma_rounds_left, partial_message, round_message,
    rounds_for, Prover, RoundMsg,
};
use super::streams::FoldedIter;
use super::time_prover::{add_pair_to, required_rounds};
use crate::field::Scalar;
use crate::iterable::{skipped, Pass};
use crate::stream::Streamer;
use vstd::prelude::*;

verus! {

/// The round message for the sequences that two passes yield, which must be
/// equally long.
pub fn message_of_passes<I0: Pass<Item = Scalar>, I1: Pass<Item = Scalar>>(f: I0, g: I1) -> (msg:
    RoundMsg)
    requires
        f.inv(),
        g.inv(),
        f.rest().len() == g.rest().len(),
    ensures
        msg == round_message(f.rest(), g.rest()),
{
    let mut f = f;
    let mut g = g;
    let ghost all_f = f.rest();
    let ghost all_g = g.rest();
    let zero = Scalar::zero();
    let mut msg = RoundMsg(zero, zero, zero);
    let ghost mut j: nat = 0;
    loop
        invariant
            f.inv(),
            g.inv(),
            all_f.len() == all_g.len(),
            zero == Scalar::from_nat(0),
            j <= half(all_f.len()),
            f.rest() == skipped(all_f, 2 * j),
            g.rest() == skipped(all_g, 2 * j),
            msg == partial_message(all_f, all_g, j),
        ensures
            msg == round_message(all_f, all_g),
        decreases half(all_f.len()) - j,
    {
        let f_even = match f.next() {
            Some(x) => x,
            None => { break ; },
        };
        let g_even = match g.next() {
            Some(x) => x,
            None => zero,
        };
        let f_odd = match f.next() {
            Some(x) => x,
            None => zero,
        };
        let g_odd = match g.next() {
            Some(x) => x,
            None => zero,
        };
        proof {
            assert(f_even == entry(all_f, 2 * j as int));
            assert(g_even == entry(all_g, 2 * j as int));
            assert(f_odd == entry(all_f, 2 * j as int + 1));
            assert(g_odd == entry(all_g, 2 * j as int + 1));
            assert(f.rest() =~= skipped(all_f, 2 * (j + 1)));
            assert(g.rest() =~= skipped(all_g, 2 * (j + 1)));
            j = j + 1;
        }
        msg = add_pair_to(msg, f_even, f_odd, g_even, g_odd);
    }
    msg
}

/// The prover that holds streams and folds them again in every round.
pub struct ElasticProver<S0, S1> {
    f: S0,
    g: S1,
    challenges: Vec<Scalar>,
    tot_rounds: usize,
    started: bool,
}

impl<S0: Streamer, S1: Streamer> ElasticProver<S0, S1> {
    /// A prover for the scalar product of the streams `f` and `g`, which must
    /// be equally long and not empty.
    pub fn new(f: S0, g: S1) -> (p: Self)
        requires
            f.inv(),
            g.inv(),
            f.items().len() == g.items().len(),
            f.items().len() >= 1,
        ensures
            p.inv(),
            p.f() == f.items(),
            p.g() == g.items(),
            !p.started(),
            p.challenges() == Seq::<Scalar>::empty(),
    {
        let tot_rounds = required_rounds(f.len());
        ElasticProver { f, g, challenges: Vec::new(), tot_rounds, started: false }
    }
}

impl<S0: Streamer, S1: Streamer> Prover for ElasticProver<S0, S1> {
    closed spec fn inv(&self) -> bool {
        &&& self.f.inv()
        &&& self.g.inv()
        &&& self.f.items().len() == self.g.items().len()
        &&& self.f.items().len() >= 1
        &&& self.tot_rounds == rounds_for(self.f.items().len())
        &&& self.challenges@.len() <= self.tot_rounds
        &&& !self.started ==> self.challenges@.len() == 0
    }

    closed spec fn f(&self) -> Seq<Scalar> {
        self.f.items()
    }

    closed spec fn g(&self) -> Seq<Scalar> {
        self.g.items()
    }

    closed spec fn started(&self) -> bool {
        self.started
    }

    closed spec fn challenges(&self) -> Seq<Scalar> {
        self.challenges@
    }

    proof fn lemma_inv(&self) {
    }

    fn next_message(&mut self, verifier_message: Option<Scalar>) -> (msg: Option<RoundMsg>) {
        if let Some(r) = verifier_message {
            self.challenges.push(r);
        }
        self.started = true;
        if self.challenges.len() == self.tot_rounds {
            return None;
        }
        proof {
            lemma_folded_len(self.f.items(), self.challenges@);
            lemma_folded_len(self.g.items(), self.challenges@);
        }
        let f = FoldedIter::new(self.f.stream(), self.challenges.as_slice());
        let g = FoldedIter::new(self.g.stream(), self.challenges.as_slice());
        Some(message_of_passes(f, g))
    }

    fn rounds(&self) -> (n: usize) {
        self.tot_rounds
    }

    fn round(&self) -> (n: usize) {
        if !self.started {
            0
        } else if self.challenges.len() < self.tot_rounds {
            self.challenges.len() + 1
        } else {
            self.tot_rounds
        }
    }

    fn final_foldings(&self) -> (r: Option<[Scalar; 2]>) {
        if self.started && self.challenges.len() == self.tot_rounds {
            proof {
                lemma_folded_len(self.f.items(), self.challenges@);
                lemma_folded_len(self.g.items(), self.challenges@);
                lemma_rounds_left(self.f.items().len(), self.challenges@.len());
            }
            let mut f = FoldedIter::new(self.f.stream(), self.challenges.as_slice());
            let mut g = FoldedIter::new(self.g.stream(), self.challenges.as_slice());
            let zero = Scalar::zero();
            let f_last = match f.next() {
                Some(x) => x,
                None => zero,
            };
            let g_last = match g.next() {
                Some(x) => x,
                None => zero,
            };
            let r = [f_last, g_last];
            assert(r@ =~= seq![
                folded(self.f(), self.challenges())[0],
                folded(self.g(), self.challenges())[0],
            ]);
            Some(r)
        } else {
            None
        }
    }
}

} // verus!
