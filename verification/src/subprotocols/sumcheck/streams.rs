//! Folding on the fly: the pass over a folded sequence that reads the
//! sequence itself and never holds more of it than one entry for each
//! folding.
use super::prover::{entry, fold, folded, half, halved, lemma_folded_len};
use crate::field::Scalar;
use crate::iterable::{head, skipped, tail, Pass};
use vstd::prelude::*;

verus! {

/// Two to the power of `k`.
pub open spec fn pow2(k: nat) -> nat
    decreases k,
{
    if k == 0 {
        1
    } else {
        2 * pow2((k - 1) as nat)
    }
}

/// Skipping `a` entries and then `b` more is skipping `a + b` entries.
pub proof fn lemma_skipped_twice(s: Seq<Scalar>, a: nat, b: nat)
    ensures
        skipped(skipped(s, a), b) == skipped(s, a + b),
{
    assert(skipped(skipped(s, a), b) =~= skipped(s, a + b));
}

/// Folding what is left after the first two entries gives what is left of the
/// folded sequence after its first entry.
pub proof fn lemma_fold_tail(v: Seq<Scalar>, r: Scalar)
    ensures
        fold(tail(tail(v)), r) == tail(fold(v, r)),
{
    if v.len() >= 2 {
        let w = tail(tail(v));
        assert(w =~= v.skip(2));
        assert forall|j: int| 0 <= j < half(w.len()) implies fold(w, r)[j] == fold(v, r)[j + 1] by {
            assert(entry(w, 2 * j) == entry(v, 2 * (j + 1)));
            assert(entry(w, 2 * j + 1) == entry(v, 2 * (j + 1) + 1));
        }
        assert(fold(w, r) =~= tail(fold(v, r)));
    } else {
        assert(fold(tail(tail(v)), r) =~= tail(fold(v, r)));
    }
}

/// A sequence folded `k` times is empty only if the sequence is.
pub proof fn lemma_halved_zero(n: nat, k: nat)
    ensures
        halved(n, k) == 0 <==> n == 0,
    decreases k,
{
    if k > 0 {
        lemma_halved_zero(n, (k - 1) as nat);
    }
}

/// One entry of a sequence folded `k` times stands for two to the `k`
/// entries of the sequence: what is left of the folded sequence after its
/// first entry is the folding of what is left of the sequence after that many.
pub proof fn lemma_folded_tail(s: Seq<Scalar>, challenges: Seq<Scalar>)
    ensures
        folded(skipped(s, pow2(challenges.len())), challenges) == tail(folded(s, challenges)),
    decreases challenges.len(),
{
    if challenges.len() == 0 {
        assert(skipped(s, 1) =~= tail(s));
    } else {
        let before = challenges.drop_last();
        let r = challenges.last();
        let p = pow2(before.len());
        lemma_skipped_twice(s, p, p);
        lemma_folded_tail(skipped(s, p), before);
        lemma_folded_tail(s, before);
        lemma_fold_tail(folded(s, before), r);
    }
}

/// Hands out the next entry of the sequence that `base` yields, folded at the
/// first `level` of the challenges. It reads two entries of the sequence
/// folded one time less, each by a call of itself, and combines them.
pub fn next_folded<I: Pass<Item = Scalar>>(base: &mut I, challenges: &[Scalar], level: usize) -> (item:
    Option<Scalar>)
    requires
        old(base).inv(),
        level <= challenges@.len(),
    ensures
        final(base).inv(),
        item == head(folded(old(base).rest(), challenges@.take(level as int))),
        final(base).rest() == skipped(old(base).rest(), pow2(level as nat)),
    decreases level,
{
    let ghost s = base.rest();
    if level == 0 {
        let item = base.next();
        assert(tail(s) =~= skipped(s, 1));
        item
    } else {
        let ghost before = challenges@.take(level - 1);
        let ghost p = pow2((level - 1) as nat);
        proof {
            assert(challenges@.take(level as int).drop_last() =~= before);
            lemma_folded_len(s, before);
            lemma_halved_zero(s.len(), before.len());
            lemma_skipped_twice(s, p, p);
            lemma_folded_tail(s, before);
        }
        let even = match next_folded(base, challenges, level - 1) {
            Some(x) => x,
            None => { return None; },
        };
        let odd = match next_folded(base, challenges, level - 1) {
            Some(x) => x,
            None => Scalar::zero(),
        };
        let r = challenges[level - 1];
        Some(even.add(&r.mul(&odd.sub(&even))))
    }
}

/// A pass over a sequence folded at some challenges, computed from a pass
/// over the sequence itself.
pub struct FoldedIter<'a, I> {
    base: I,
    challenges: &'a [Scalar],
}

impl<'a, I: Pass<Item = Scalar>> FoldedIter<'a, I> {
    /// The pass that `base` is read through.
    pub closed spec fn base(self) -> I {
        self.base
    }

    /// The challenges at which the sequence is folded, the first one first.
    pub closed spec fn challenges(self) -> Seq<Scalar> {
        self.challenges@
    }

    /// The pass over what `base` yields, folded at `challenges`.
    pub fn new(base: I, challenges: &'a [Scalar]) -> (pass: Self)
        requires
            base.inv(),
        ensures
            pass.inv(),
            pass.rest() == folded(base.rest(), challenges@),
    {
        FoldedIter { base, challenges }
    }
}

impl<'a, I: Pass<Item = Scalar>> Pass for FoldedIter<'a, I> {
    type Item = Scalar;

    open spec fn inv(&self) -> bool {
        self.base().inv()
    }

    open spec fn rest(&self) -> Seq<Scalar> {
        folded(self.base().rest(), self.challenges())
    }

    fn next(&mut self) -> (item: Option<Scalar>) {
        proof {
            assert(self.challenges@.take(self.challenges@.len() as int) =~= self.challenges@);
            lemma_folded_tail(self.base.rest(), self.challenges@);
        }
        next_folded(&mut self.base, self.challenges, self.challenges.len())
    }
}

} // verus!
