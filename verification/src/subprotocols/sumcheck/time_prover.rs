//! The prover that trades memory for time: it holds both sequences in full
//! and halves them in place of streaming them again.
use super::prover::{
    add_pair, entry, fold, folded, half, interpolate, lemma_folded_len, lemma_rounds_bound,
    lemma_rounds_left, partial_message, round_message, rounds_for, Prover, RoundMsg,
};
use crate::field::Scalar;
use vstd::prelude::*;

verus! {

/// Folds a vector at `r`.
pub fn fold_polynomial(v: &Vec<Scalar>, r: &Scalar) -> (out: Vec<Scalar>)
    ensures
        out@ == fold(v@, *r),
{
    let n = v.len();
    let pairs = n / 2 + n % 2;
    let zero = Scalar::zero();
    let mut out: Vec<Scalar> = Vec::new();
    let mut j: usize = 0;
    while j < pairs
        invariant
            n == v@.len(),
            pairs == half(n as nat),
            zero == Scalar::from_nat(0),
            j <= pairs,
            out@.len() == j,
            forall|i: int|
                0 <= i < j ==> out@[i] == interpolate(entry(v@, 2 * i), entry(v@, 2 * i + 1), *r),
        decreases pairs - j,
    {
        let even = v[2 * j];
        let odd = if 2 * j + 1 < n {
            v[2 * j + 1]
        } else {
            zero
        };
        out.push(even.add(&r.mul(&odd.sub(&even))));
        j = j + 1;
    }
    assert(out@ =~= fold(v@, *r));
    out
}

/// The number of rounds for sequences of `len` entries.
pub fn required_rounds(len: usize) -> (k: usize)
    ensures
        k == rounds_for(len as nat),
{
    let mut n = len;
    let mut k: usize = 0;
    proof {
        lemma_rounds_bound(len as nat);
    }
    while n > 1
        invariant
            k + rounds_for(n as nat) == rounds_for(len as nat),
            rounds_for(len as nat) <= len,
        decreases n,
    {
        n = n / 2 + n % 2;
        k = k + 1;
    }
    k
}

/// The round message for two vectors of the same length.
pub fn message_of(f: &Vec<Scalar>, g: &Vec<Scalar>) -> (msg: RoundMsg)
    requires
        f@.len() == g@.len(),
    ensures
        msg == round_message(f@, g@),
{
    let n = f.len();
    let pairs = n / 2 + n % 2;
    let zero = Scalar::zero();
    let mut msg = RoundMsg(zero, zero, zero);
    let mut j: usize = 0;
    while j < pairs
        invariant
            n == f@.len(),
            n == g@.len(),
            pairs == half(n as nat),
            zero == Scalar::from_nat(0),
            j <= pairs,
            msg == partial_message(f@, g@, j as nat),
        decreases pairs - j,
    {
        let f_even = f[2 * j];
        let g_even = g[2 * j];
        let f_odd = if 2 * j + 1 < n {
            f[2 * j + 1]
        } else {
            zero
        };
        let g_odd = if 2 * j + 1 < n {
            g[2 * j + 1]
        } else {
            zero
        };
        msg = add_pair_to(msg, f_even, f_odd, g_even, g_odd);
        j = j + 1;
    }
    msg
}

/// Adds the contribution of one pair of neighbours to a message.
pub fn add_pair_to(acc: RoundMsg, f_even: Scalar, f_odd: Scalar, g_even: Scalar, g_odd: Scalar) -> (msg:
    RoundMsg)
    ensures
        msg == add_pair(acc, f_even, f_odd, g_even, g_odd),
{
    let f_two = f_odd.add(&f_odd).sub(&f_even);
    let g_two = g_odd.add(&g_odd).sub(&g_even);
    RoundMsg(
        acc.0.add(&f_even.mul(&g_even)),
        acc.1.add(&f_odd.mul(&g_odd)),
        acc.2.add(&f_two.mul(&g_two)),
    )
}

/// The prover that holds the folded sequences in memory.
pub struct TimeProver {
    f: Vec<Scalar>,
    g: Vec<Scalar>,
    tot_rounds: usize,
    consumed: usize,
    started: bool,
    claim_f: Ghost<Seq<Scalar>>,
    claim_g: Ghost<Seq<Scalar>>,
    challenges: Ghost<Seq<Scalar>>,
}

impl TimeProver {
    /// A prover for the scalar product of `f` and `g`, which must be equally
    /// long and not empty.
    pub fn new(f: Vec<Scalar>, g: Vec<Scalar>) -> (p: TimeProver)
        requires
            f@.len() == g@.len(),
            f@.len() >= 1,
        ensures
            p.inv(),
            p.f() == f@,
            p.g() == g@,
            !p.started(),
            p.challenges() == Seq::<Scalar>::empty(),
    {
        let tot_rounds = required_rounds(f.len());
        TimeProver {
            claim_f: Ghost(f@),
            claim_g: Ghost(g@),
            challenges: Ghost(Seq::empty()),
            f,
            g,
            tot_rounds,
            consumed: 0,
            started: false,
        }
    }
}

impl Prover for TimeProver {
    closed spec fn inv(&self) -> bool {
        &&& self.claim_f@.len() == self.claim_g@.len()
        &&& self.claim_f@.len() >= 1
        &&& self.tot_rounds == rounds_for(self.claim_f@.len())
        &&& self.consumed == self.challenges@.len()
        &&& self.consumed <= self.tot_rounds
        &&& self.f@ == folded(self.claim_f@, self.challenges@)
        &&& self.g@ == folded(self.claim_g@, self.challenges@)
        &&& !self.started ==> self.consumed == 0
    }

    closed spec fn f(&self) -> Seq<Scalar> {
        self.claim_f@
    }

    closed spec fn g(&self) -> Seq<Scalar> {
        self.claim_g@
    }

    closed spec fn started(&self) -> bool {
        self.started
    }

    closed spec fn challenges(&self) -> Seq<Scalar> {
        self.challenges@
    }

    proof fn lemma_inv(&self) {
    }

    fn next_message(&mut self, verifier_message: Option<Scalar>) -> (msg: Option<RoundMsg>) {
        if let Some(r) = verifier_message {
            self.f = fold_polynomial(&self.f, &r);
            self.g = fold_polynomial(&self.g, &r);
            self.consumed = self.consumed + 1;
            proof {
                let ghost before = self.challenges@;
                self.challenges@ = before.push(r);
                assert(before.push(r).drop_last() =~= before);
            }
        }
        self.started = true;
        if self.consumed == self.tot_rounds {
            return None;
        }
        proof {
            lemma_folded_len(self.claim_f@, self.challenges@);
            lemma_folded_len(self.claim_g@, self.challenges@);
        }
        Some(message_of(&self.f, &self.g))
    }

    fn rounds(&self) -> (n: usize) {
        self.tot_rounds
    }

    fn round(&self) -> (n: usize) {
        if !self.started {
            0
        } else if self.consumed < self.tot_rounds {
            self.consumed + 1
        } else {
            self.tot_rounds
        }
    }

    fn final_foldings(&self) -> (r: Option<[Scalar; 2]>) {
        if self.started && self.consumed == self.tot_rounds {
            proof {
                lemma_folded_len(self.claim_f@, self.challenges@);
                lemma_folded_len(self.claim_g@, self.challenges@);
                lemma_rounds_left(self.claim_f@.len(), self.challenges@.len());
            }
            let r = [self.f[0], self.g[0]];
            assert(r@ =~= seq![
                folded(self.f(), self.challenges())[0],
                folded(self.g(), self.challenges())[0],
            ]);
            Some(r)
        } else {
            None
        }
    }
}

} // verus!
