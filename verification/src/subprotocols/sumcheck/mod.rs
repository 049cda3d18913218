//! The sumcheck protocol for the scalar product of two sequences.
//!
//! The prover holds two sequences `f` and `g` of the same length, read as the
//! values of two multilinear polynomials on the points of a hypercube, and
//! convinces the verifier of the sum of their entry-wise products. In each
//! round the prover sends the values at 0, 1 and 2 of the quadratic polynomial
//! obtained by leaving the current variable free; the verifier answers with a
//! challenge, at which both sequences are folded to half their length.
//!
//! Two provers implement the protocol: one that holds the folded sequences in
//! memory, and one that holds streams and folds them again in every round.
use crate::field::Scalar;
use prover::{folded, message_after, round_message, rounds_for, stage, Prover, RoundMsg};
use vstd::prelude::*;

pub mod completeness;
pub mod elastic_prover;
pub mod prover;
pub mod streams;
pub mod time_prover;

verus! {

/// The messages of all rounds for the claim `f`, `g` and the given
/// challenges: the message of round `i` is the round message of the sequences
/// folded at the first `i` challenges.
pub open spec fn round_messages(f: Seq<Scalar>, g: Seq<Scalar>, challenges: Seq<Scalar>) -> Seq<
    RoundMsg,
> {
    Seq::new(
        challenges.len(),
        |i: int| round_message(folded(f, challenges.take(i)), folded(g, challenges.take(i))),
    )
}

/// The record of one run of the protocol.
#[derive(Debug, PartialEq, Eq)]
pub struct Sumcheck {
    /// The messages sent by the prover, one for each round.
    pub messages: Vec<RoundMsg>,
    /// The challenges sent by the verifier, one for each round.
    pub challenges: Vec<Scalar>,
    /// The number of rounds.
    pub rounds: usize,
    /// The single entries that the two sequences were folded to.
    pub final_foldings: [Scalar; 2],
}

impl Sumcheck {
    /// The record is that of the run for the claim `f`, `g` in which the
    /// verifier sent `challenges`.
    pub open spec fn is_run_of(self, f: Seq<Scalar>, g: Seq<Scalar>, challenges: Seq<Scalar>) -> bool {
        &&& self.messages@ == round_messages(f, g, challenges)
        &&& self.challenges@ == challenges
        &&& self.rounds == challenges.len()
        &&& self.final_foldings@ == seq![folded(f, challenges)[0], folded(g, challenges)[0]]
    }

    /// The value that the run ends on: the product of the final foldings.
    pub open spec fn spec_terminal_evaluation(self) -> Scalar {
        self.final_foldings@[0].spec_mul(self.final_foldings@[1])
    }

    /// Runs a prover that has not yet started through all rounds, with
    /// challenges that are fixed beforehand: one for each round.
    pub fn prove<P: Prover>(prover: P, challenges: &[Scalar]) -> (run: Sumcheck)
        requires
            prover.inv(),
            stage(&prover) is Initialized,
            challenges@.len() == rounds_for(prover.f().len()),
        ensures
            run.is_run_of(prover.f(), prover.g(), challenges@),
    {
        let ghost f = prover.f();
        let ghost g = prover.g();
        let mut prover = prover;
        let rounds = challenges.len();
        let mut messages: Vec<RoundMsg> = Vec::new();
        let mut sent: Vec<Scalar> = Vec::new();
        proof {
            prover.lemma_inv();
        }
        let mut msg = prover.next_message(None);
        proof {
            assert(challenges@.take(0) =~= prover.challenges());
        }
        let mut i: usize = 0;
        while i < rounds
            invariant
                prover.inv(),
                prover.f() == f,
                prover.g() == g,
                prover.started(),
                rounds == challenges@.len(),
                rounds == rounds_for(f.len()),
                i <= rounds,
                prover.challenges() == challenges@.take(i as int),
                msg == message_after(f, g, challenges@.take(i as int)),
                messages@ == round_messages(f, g, challenges@).take(i as int),
                sent@ == challenges@.take(i as int),
            decreases rounds - i,
        {
            let r = challenges[i];
            messages.push(msg.unwrap());
            sent.push(r);
            msg = prover.next_message(Some(r));
            i = i + 1;
            proof {
                assert(challenges@.take(i as int) =~= challenges@.take(i - 1).push(r));
                assert(messages@ =~= round_messages(f, g, challenges@).take(i as int));
            }
        }
        proof {
            assert(challenges@.take(i as int) =~= challenges@);
            assert(round_messages(f, g, challenges@).take(i as int) =~= round_messages(
                f,
                g,
                challenges@,
            ));
        }
        let final_foldings = prover.final_foldings().unwrap();
        Sumcheck { messages, challenges: sent, rounds, final_foldings }
    }

    /// The value that the run ends on, which the verifier holds against its
    /// own evaluation of the claim at the challenges.
    pub fn terminal_evaluation(&self) -> (v: Scalar)
        ensures
            v == self.spec_terminal_evaluation(),
    {
        self.final_foldings[0].mul(&self.final_foldings[1])
    }
}

/// The two strategies are interchangeable: runs of any two provers for the
/// same claim and the same challenges hold the same messages, round by round,
/// and end on the same final foldings and the same terminal evaluation.
pub proof fn lemma_strategy_equivalence(
    one: Sumcheck,
    other: Sumcheck,
    f: Seq<Scalar>,
    g: Seq<Scalar>,
    challenges: Seq<Scalar>,
)
    requires
        one.is_run_of(f, g, challenges),
        other.is_run_of(f, g, challenges),
    ensures
        one.messages@ == other.messages@,
        one.challenges@ == other.challenges@,
        one.rounds == other.rounds,
        one.final_foldings@ == other.final_foldings@,
        one.spec_terminal_evaluation() == other.spec_terminal_evaluation(),
{
}

} // verus!
