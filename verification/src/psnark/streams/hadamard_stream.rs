//! The Hadamard product of two streams.
use crate::field::{mul_mod, Scalar};
use crate::iterable::{skipped, tail, Pass};
use crate::stream::Streamer;
use vstd::prelude::*;

verus! {

/// The entry-wise products of two sequences, as far as both reach.
pub open spec fn hadamard(a: Seq<Scalar>, b: Seq<Scalar>) -> Seq<Scalar> {
    Seq::new(
        if a.len() <= b.len() {
            a.len()
        } else {
            b.len()
        },
        |i: int| a[i].spec_mul(b[i]),
    )
}

/// The stream of the entry-wise products of two streams of equal length.
#[derive(Clone, Copy)]
pub struct HadamardStreamer<S0, S1>(S0, S1);

impl<S0: Streamer, S1: Streamer> HadamardStreamer<S0, S1> {
    /// The left factor.
    pub closed spec fn left(self) -> S0 {
        self.0
    }

    /// The right factor.
    pub closed spec fn right(self) -> S1 {
        self.1
    }

    /// The product stream of `s0` and `s1`, which must be equally long.
    pub fn new(s0: S0, s1: S1) -> (r: Self)
        requires
            s0.inv(),
            s1.inv(),
            s0.items().len() == s1.items().len(),
        ensures
            r.inv(),
            r.left() == s0,
            r.right() == s1,
    {
        Self(s0, s1)
    }
}

/// A pass over the entry-wise products of two passes.
pub struct HadamardIter<I0, I1>(I0, I1);

impl<I0: Pass<Item = Scalar>, I1: Pass<Item = Scalar>> Pass for HadamardIter<I0, I1> {
    type Item = Scalar;

    closed spec fn inv(&self) -> bool {
        &&& self.0.inv()
        &&& self.1.inv()
        &&& (self.0.rest().len() == 0 || self.0.rest().len() == self.1.rest().len())
    }

    closed spec fn rest(&self) -> Seq<Scalar> {
        hadamard(self.0.rest(), self.1.rest())
    }

    #[inline]
    fn next(&mut self) -> (item: Option<Scalar>) {
        let first = match self.0.next() {
            Some(x) => x,
            None => {
                assert(self.rest() =~= tail(old(self).rest()));
                return None;
            },
        };
        let second = match self.1.next() {
            Some(x) => x,
            None => { return None; },
        };
        assert(self.rest() =~= tail(old(self).rest()));
        Some(first.mul(&second))
    }

    fn advance_by(&mut self, n: usize) -> (r: Result<(), usize>) {
        match self.0.advance_by(n) {
            Ok(()) => {
                let r = self.1.advance_by(n);
                assert(self.rest() =~= skipped(old(self).rest(), n as nat));
                r
            },
            Err(k) => {
                assert(self.rest() =~= skipped(old(self).rest(), n as nat));
                Err(k)
            },
        }
    }
}

impl<S0: Streamer, S1: Streamer> Streamer for HadamardStreamer<S0, S1> {
    type Iter = HadamardIter<S0::Iter, S1::Iter>;

    open spec fn inv(&self) -> bool {
        &&& self.left().inv()
        &&& self.right().inv()
        &&& self.left().items().len() == self.right().items().len()
    }

    open spec fn items(&self) -> Seq<Scalar> {
        hadamard(self.left().items(), self.right().items())
    }

    fn stream(&self) -> (pass: Self::Iter) {
        HadamardIter(self.0.stream(), self.1.stream())
    }

    fn len(&self) -> (n: usize) {
        self.0.len()
    }
}

/// The Hadamard stream of two streams has as many entries as each of them,
/// and its `i`-th entry is the product, in the field, of their `i`-th entries.
pub proof fn lemma_hadamard_stream<S0: Streamer, S1: Streamer>(h: HadamardStreamer<S0, S1>)
    requires
        h.inv(),
    ensures
        h.items().len() == h.left().items().len(),
        h.items().len() == h.right().items().len(),
        forall|i: int|
            0 <= i < h.items().len() ==> {
                &&& #[trigger] h.items()[i] == h.left().items()[i].spec_mul(h.right().items()[i])
                &&& h.items()[i]@ == mul_mod(h.left().items()[i]@, h.right().items()[i]@)
            },
{
    assert forall|i: int| 0 <= i < h.items().len() implies {
        &&& #[trigger] h.items()[i] == h.left().items()[i].spec_mul(h.right().items()[i])
        &&& h.items()[i]@ == mul_mod(h.left().items()[i]@, h.right().items()[i]@)
    } by {
        Scalar::lemma_mul_value(h.left().items()[i], h.right().items()[i]);
    }
}

/// Skipping `k` entries of a Hadamard product is the same as skipping `k`
/// entries of each factor and multiplying what is left.
pub proof fn lemma_hadamard_skip(a: Seq<Scalar>, b: Seq<Scalar>, k: nat)
    requires
        a.len() == b.len(),
    ensures
        skipped(hadamard(a, b), k) == hadamard(skipped(a, k), skipped(b, k)),
{
    assert(skipped(hadamard(a, b), k) =~= hadamard(skipped(a, k), skipped(b, k)));
}

} // verus!
