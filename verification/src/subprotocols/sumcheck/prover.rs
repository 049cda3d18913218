//! What every sumcheck prover does, whatever its strategy.
use crate::field::Scalar;
use vstd::prelude::*;

verus! {

/// The message of one round: the values at 0, 1 and 2 of the round polynomial.
#[derive(Clone, Copy, Debug, PartialEq, Eq, Structural)]
pub struct RoundMsg(pub Scalar, pub Scalar, pub Scalar);

/// The entry of `v` at `i`; past the end, sequences are padded with zeros.
pub open spec fn entry(v: Seq<Scalar>, i: int) -> Scalar {
    if 0 <= i < v.len() {
        v[i]
    } else {
        Scalar::from_nat(0)
    }
}

/// The sum of the products of the first `n` entries of `f` and `g`, added up
/// in order.
pub open spec fn partial_product(f: Seq<Scalar>, g: Seq<Scalar>, n: nat) -> Scalar
    decreases n,
{
    if n == 0 {
        Scalar::from_nat(0)
    } else {
        partial_product(f, g, (n - 1) as nat).spec_add(entry(f, n - 1).spec_mul(entry(g, n - 1)))
    }
}

/// The scalar product of `f` and `g`: the sum that the protocol is about.
pub open spec fn scalar_product(f: Seq<Scalar>, g: Seq<Scalar>) -> Scalar {
    partial_product(f, g, f.len())
}

/// The value at `r` of the line through `(0, even)` and `(1, odd)`.
pub open spec fn interpolate(even: Scalar, odd: Scalar, r: Scalar) -> Scalar {
    even.spec_add(r.spec_mul(odd.spec_sub(even)))
}

/// The value at 2 of the line through `(0, even)` and `(1, odd)`.
pub open spec fn extrapolate(even: Scalar, odd: Scalar) -> Scalar {
    odd.spec_add(odd).spec_sub(even)
}

/// The number of entries of a sequence of `n` entries after one folding.
pub open spec fn half(n: nat) -> nat {
    (n + 1) / 2
}

/// One folding: each pair of neighbours `v[2j], v[2j + 1]` becomes the value
/// at `r` of the line through them. A last entry without a neighbour is
/// paired with zero.
pub open spec fn fold(v: Seq<Scalar>, r: Scalar) -> Seq<Scalar> {
    Seq::new(half(v.len()), |j: int| interpolate(entry(v, 2 * j), entry(v, 2 * j + 1), r))
}

/// The sequence folded at each of the challenges in turn, the first one first.
pub open spec fn folded(v: Seq<Scalar>, challenges: Seq<Scalar>) -> Seq<Scalar>
    decreases challenges.len(),
{
    if challenges.len() == 0 {
        v
    } else {
        fold(folded(v, challenges.drop_last()), challenges.last())
    }
}

/// The number of rounds for sequences of `n` entries: the number of foldings
/// that bring them down to a single entry.
pub open spec fn rounds_for(n: nat) -> nat
    decreases n,
{
    if n <= 1 {
        0
    } else {
        1 + rounds_for(half(n))
    }
}

/// The number of entries of a sequence of `n` entries after `k` foldings.
pub open spec fn halved(n: nat, k: nat) -> nat
    decreases k,
{
    if k == 0 {
        n
    } else {
        half(halved(n, (k - 1) as nat))
    }
}

/// The message with the contribution of one more pair of neighbours.
pub open spec fn add_pair(
    acc: RoundMsg,
    f_even: Scalar,
    f_odd: Scalar,
    g_even: Scalar,
    g_odd: Scalar,
) -> RoundMsg {
    RoundMsg(
        acc.0.spec_add(f_even.spec_mul(g_even)),
        acc.1.spec_add(f_odd.spec_mul(g_odd)),
        acc.2.spec_add(extrapolate(f_even, f_odd).spec_mul(extrapolate(g_even, g_odd))),
    )
}

/// The contributions of the first `pairs` pairs of neighbours, added up in
/// order.
pub open spec fn partial_message(f: Seq<Scalar>, g: Seq<Scalar>, pairs: nat) -> RoundMsg
    decreases pairs,
{
    if pairs == 0 {
        RoundMsg(Scalar::from_nat(0), Scalar::from_nat(0), Scalar::from_nat(0))
    } else {
        let j = pairs - 1;
        add_pair(
            partial_message(f, g, j as nat),
            entry(f, 2 * j),
            entry(f, 2 * j + 1),
            entry(g, 2 * j),
            entry(g, 2 * j + 1),
        )
    }
}

/// The round message for the sequences `f` and `g`.
pub open spec fn round_message(f: Seq<Scalar>, g: Seq<Scalar>) -> RoundMsg {
    partial_message(f, g, half(f.len()))
}

/// What the prover says once it has consumed `challenges`: the message of the
/// next round, or nothing when every round has had its challenge.
pub open spec fn message_after(f: Seq<Scalar>, g: Seq<Scalar>, challenges: Seq<Scalar>) -> Option<
    RoundMsg,
> {
    if challenges.len() < rounds_for(f.len()) {
        Some(round_message(folded(f, challenges), folded(g, challenges)))
    } else {
        None
    }
}

/// Where a prover stands in the protocol.
pub enum Stage {
    /// No message has been asked for yet.
    Initialized,
    /// The message of this round is out and its challenge is awaited.
    Round(nat),
    /// Every round has had its challenge.
    Finished,
}

/// Where a prover stands that has or has not `started`, has consumed
/// `consumed` challenges and has `rounds` rounds to go through.
pub open spec fn stage_of(started: bool, consumed: nat, rounds: nat) -> Stage {
    if !started {
        Stage::Initialized
    } else if consumed < rounds {
        Stage::Round(consumed)
    } else {
        Stage::Finished
    }
}

/// A sumcheck prover for the scalar product of two sequences.
pub trait Prover: Sized {
    /// The prover is in a consistent state.
    spec fn inv(&self) -> bool;

    /// In a consistent state the two sequences are equally long and not
    /// empty, no challenge is consumed before the first message is asked for,
    /// and no more challenges are consumed than there are rounds.
    proof fn lemma_inv(&self)
        requires
            self.inv(),
        ensures
            self.f().len() == self.g().len(),
            self.f().len() >= 1,
            !self.started() ==> self.challenges().len() == 0,
            self.challenges().len() <= rounds_for(self.f().len()),
    ;

    /// The first sequence of the claim.
    spec fn f(&self) -> Seq<Scalar>;

    /// The second sequence of the claim.
    spec fn g(&self) -> Seq<Scalar>;

    /// Whether the first message has been asked for.
    spec fn started(&self) -> bool;

    /// The challenges consumed so far, in order.
    spec fn challenges(&self) -> Seq<Scalar>;

    /// Moves the prover one step on. The first call takes no verifier message
    /// and yields the message of the first round. Each later call takes the
    /// challenge for the round whose message is out, folds the sequences at it
    /// and yields the message of the next round; after the challenge of the
    /// last round there is no message left and the prover is finished.
    fn next_message(&mut self, verifier_message: Option<Scalar>) -> (msg: Option<RoundMsg>)
        requires
            old(self).inv(),
            verifier_message is None <==> stage_of(
                old(self).started(),
                old(self).challenges().len(),
                rounds_for(old(self).f().len()),
            ) is Initialized,
            !(stage_of(
                old(self).started(),
                old(self).challenges().len(),
                rounds_for(old(self).f().len()),
            ) is Finished),
        ensures
            final(self).inv(),
            final(self).f() == old(self).f(),
            final(self).g() == old(self).g(),
            final(self).started(),
            final(self).challenges() == match verifier_message {
                Some(r) => old(self).challenges().push(r),
                None => old(self).challenges(),
            },
            msg == message_after(final(self).f(), final(self).g(), final(self).challenges()),
    ;

    /// The number of rounds of the protocol.
    fn rounds(&self) -> (n: usize)
        requires
            self.inv(),
        ensures
            n == rounds_for(self.f().len()),
    ;

    /// The number of round messages sent so far.
    fn round(&self) -> (n: usize)
        requires
            self.inv(),
        ensures
            n == match stage_of(
                self.started(),
                self.challenges().len(),
                rounds_for(self.f().len()),
            ) {
                Stage::Initialized => 0,
                Stage::Round(i) => i + 1,
                Stage::Finished => rounds_for(self.f().len()),
            },
    ;

    /// Once the prover is finished, the single entries that the two sequences
    /// have been folded to; nothing before.
    fn final_foldings(&self) -> (r: Option<[Scalar; 2]>)
        requires
            self.inv(),
        ensures
            r is Some <==> stage_of(
                self.started(),
                self.challenges().len(),
                rounds_for(self.f().len()),
            ) is Finished,
            r is Some ==> r->0@ == seq![
                folded(self.f(), self.challenges())[0],
                folded(self.g(), self.challenges())[0],
            ],
    ;
}

/// Where the prover `p` stands.
pub open spec fn stage<P: Prover>(p: &P) -> Stage {
    stage_of(p.started(), p.challenges().len(), rounds_for(p.f().len()))
}

/// Folding `k` times takes a sequence of `n` entries to one of
/// `halved(n, k)` entries.
pub proof fn lemma_folded_len(v: Seq<Scalar>, challenges: Seq<Scalar>)
    ensures
        folded(v, challenges).len() == halved(v.len(), challenges.len()),
    decreases challenges.len(),
{
    if challenges.len() > 0 {
        lemma_folded_len(v, challenges.drop_last());
    }
}

/// Each folding takes one round off, and a sequence that is not empty never
/// becomes empty; so after the last round a single entry is left.
pub proof fn lemma_rounds_left(n: nat, k: nat)
    requires
        n >= 1,
        k <= rounds_for(n),
    ensures
        halved(n, k) >= 1,
        rounds_for(halved(n, k)) == rounds_for(n) - k,
        k == rounds_for(n) ==> halved(n, k) == 1,
    decreases k,
{
    if k > 0 {
        lemma_rounds_left(n, (k - 1) as nat);
        let m = halved(n, (k - 1) as nat);
        assert(rounds_for(m) >= 1);
        assert(m >= 2);
        assert(rounds_for(m) == 1 + rounds_for(half(m)));
        assert(halved(n, k) == half(m));
    }
    let left = halved(n, k);
    assert(rounds_for(left) == 0 ==> left <= 1);
}

/// There are fewer rounds than entries.
pub proof fn lemma_rounds_bound(n: nat)
    ensures
        rounds_for(n) <= n,
    decreases n,
{
    if n > 1 {
        lemma_rounds_bound(half(n));
    }
}

} // verus!
