//! The stream of the blinded neighbouring pairs of a base stream, closed into
//! a cycle: its last entry pairs the last base item with the first.
use crate::field::{modulus, Scalar};
use crate::iterable::slice::Reversed;
use crate::iterable::{tail, Pass};
use crate::stream::Streamer;
use vstd::arithmetic::div_mod::{lemma_add_mod_noop, lemma_mul_mod_noop_right, lemma_small_mod};
use vstd::prelude::*;

verus! {

/// The constant term `beta * (1 + gamma)` that every entry carries.
pub open spec fn blinding(beta: Scalar, gamma: Scalar) -> Scalar {
    beta.spec_mul(Scalar::from_nat(1).spec_add(gamma))
}

/// One entry: `y1z + current + zeta * following`.
pub open spec fn set_entry(y1z: Scalar, zeta: Scalar, current: Scalar, following: Scalar) -> Scalar {
    y1z.spec_add(current).spec_add(zeta.spec_mul(following))
}

/// The entries over `base` for a given constant term: entry `i` pairs
/// `base[i]` with `base[i + 1]`, and the last one pairs the last item with
/// `base[0]`. A base of fewer than two items has no pair and gives no entry.
pub open spec fn set_entries(y1z: Scalar, zeta: Scalar, base: Seq<Scalar>) -> Seq<Scalar> {
    if base.len() < 2 {
        Seq::empty()
    } else {
        Seq::new(
            base.len(),
            |i: int|
                set_entry(
                    y1z,
                    zeta,
                    base[i],
                    if i + 1 < base.len() {
                        base[i + 1]
                    } else {
                        base[0]
                    },
                ),
        )
    }
}

/// The entries that a set stream over `base` yields for `beta` and `gamma`.
pub open spec fn lookup_set(base: Seq<Scalar>, beta: Scalar, gamma: Scalar) -> Seq<Scalar> {
    set_entries(blinding(beta, gamma), gamma, base)
}

/// The entries still to come once the first one is out: `previous` is the
/// base item that was read last, `pending` are the base items not yet read and
/// `first` is the base item that closes the cycle.
pub open spec fn entries_after(
    y1z: Scalar,
    zeta: Scalar,
    previous: Scalar,
    first: Scalar,
    pending: Seq<Scalar>,
) -> Seq<Scalar> {
    Seq::new(
        pending.len() + 1,
        |i: int|
            set_entry(
                y1z,
                zeta,
                if i == 0 {
                    previous
                } else {
                    pending[i - 1]
                },
                if i < pending.len() {
                    pending[i]
                } else {
                    first
                },
            ),
    )
}

/// The set stream over a base stream, for the challenges `beta` and `gamma`.
#[derive(Clone, Copy)]
pub struct LookupSetStreamer<S> {
    base_streamer: S,
    gamma: Scalar,
    beta: Scalar,
}

/// A pass over a set stream.
pub struct LookupSetIterator<I> {
    base_iterator: I,
    zeta: Scalar,
    y1z: Scalar,
    previous: Scalar,
    first: Scalar,
    len: usize,
    cnt: usize,
}

impl<S: Streamer> LookupSetStreamer<S> {
    /// The base stream.
    pub closed spec fn base(self) -> S {
        self.base_streamer
    }

    /// The challenge `beta`.
    pub closed spec fn beta(self) -> Scalar {
        self.beta
    }

    /// The challenge `gamma`.
    pub closed spec fn gamma(self) -> Scalar {
        self.gamma
    }

    /// The set stream over `base_streamer`. A base of exactly one item has no
    /// neighbouring pair to stream and is not accepted.
    pub fn new(base_streamer: S, beta: Scalar, gamma: Scalar) -> (r: Self)
        requires
            base_streamer.inv(),
            base_streamer.items().len() != 1,
        ensures
            r.inv(),
            r.base() == base_streamer,
            r.beta() == beta,
            r.gamma() == gamma,
    {
        Self { base_streamer, beta, gamma }
    }
}

impl<S: Streamer> Streamer for LookupSetStreamer<S> {
    type Iter = LookupSetIterator<S::Iter>;

    open spec fn inv(&self) -> bool {
        &&& self.base().inv()
        &&& self.base().items().len() != 1
    }

    open spec fn items(&self) -> Seq<Scalar> {
        lookup_set(self.base().items(), self.beta(), self.gamma())
    }

    fn stream(&self) -> (pass: Self::Iter) {
        let gamma = self.gamma;
        let y1z = self.beta.mul(&Scalar::one().add(&self.gamma));
        let base_iterator = self.base_streamer.stream();
        LookupSetIterator {
            base_iterator,
            zeta: gamma,
            y1z,
            previous: Scalar::zero(),
            first: Scalar::zero(),
            len: self.len(),
            cnt: 0,
        }
    }

    fn len(&self) -> (n: usize) {
        self.base_streamer.len()
    }
}

impl<I: Pass<Item = Scalar>> Pass for LookupSetIterator<I> {
    type Item = Scalar;

    closed spec fn inv(&self) -> bool {
        &&& self.base_iterator.inv()
        &&& self.cnt == 0 ==> (self.base_iterator.rest().len() >= 2
            ==> self.base_iterator.rest().len() == self.len)
        &&& self.cnt >= 1 ==> {
            &&& self.len >= 2
            &&& self.cnt <= self.len
            &&& self.base_iterator.rest().len() == self.len - self.cnt - (if self.cnt < self.len {
                1int
            } else {
                0int
            })
        }
    }

    closed spec fn rest(&self) -> Seq<Scalar> {
        if self.cnt == 0 {
            set_entries(self.y1z, self.zeta, self.base_iterator.rest())
        } else if self.cnt < self.len {
            entries_after(
                self.y1z,
                self.zeta,
                self.previous,
                self.first,
                self.base_iterator.rest(),
            )
        } else {
            Seq::empty()
        }
    }

    fn next(&mut self) -> (item: Option<Scalar>) {
        if self.cnt == 0 {
            let next_element = match self.base_iterator.next() {
                Some(x) => x,
                None => { return None; },
            };
            self.first = next_element;
            let next_element = match self.base_iterator.next() {
                Some(x) => x,
                None => { return None; },
            };

            self.cnt += 1;
            self.previous = next_element;

            assert(self.rest() =~= tail(old(self).rest()));
            return Some(self.y1z.add(&self.first).add(&self.zeta.mul(&next_element)));
        } else if self.cnt == self.len - 1 {
            self.cnt += 1;
            return Some(self.y1z.add(&self.previous).add(&self.zeta.mul(&self.first)));
        }
        if self.cnt < self.len {
            self.cnt += 1;
            let next_element = match self.base_iterator.next() {
                Some(x) => x,
                None => { return None; },
            };
            let previous = self.previous;
            self.previous = next_element;

            assert(self.rest() =~= tail(old(self).rest()));
            Some(self.y1z.add(&previous).add(&self.zeta.mul(&next_element)))
        } else {
            None
        }
    }
}

/// The set stream over a vector `a` of `n >= 2` scalars read backwards has
/// `n` entries. Each of the first `n - 1` pairs an item of `a` with the item
/// before it, from the back: entry `i` is
/// `beta * (1 + gamma) + a[n - 1 - i] + gamma * a[n - 2 - i]`. The last entry
/// closes the cycle: it is `beta * (1 + gamma) + a[0] + gamma * a[n - 1]`.
pub proof fn lemma_set_stream_of_reversed<'a>(s: LookupSetStreamer<Reversed<'a, Scalar>>)
    requires
        s.base().base().len() >= 2,
    ensures
        ({
            let a = s.base().base();
            let n = a.len() as int;
            let y1z = blinding(s.beta(), s.gamma());
            &&& s.inv()
            &&& s.items().len() == n
            &&& forall|i: int|
                0 <= i < n - 1 ==> #[trigger] s.items()[i] == set_entry(
                    y1z,
                    s.gamma(),
                    a[n - 1 - i],
                    a[n - 2 - i],
                )
            &&& s.items()[n - 1] == set_entry(y1z, s.gamma(), a[0], a[n - 1])
        }),
{
}

/// The constant term, as a number: `beta * (1 + gamma)`, reduced.
pub proof fn lemma_blinding_value(beta: Scalar, gamma: Scalar)
    ensures
        blinding(beta, gamma)@ == (beta@ * (1 + gamma@)) % modulus(),
{
    let one = Scalar::from_nat(1);
    Scalar::lemma_from_nat(1);
    lemma_small_mod(1, modulus());
    Scalar::lemma_add_value(one, gamma);
    Scalar::lemma_mul_value(beta, one.spec_add(gamma));
    lemma_mul_mod_noop_right(beta@ as int, (1 + gamma@) as int, modulus() as int);
}

/// An entry, as a number: `y1z + current + zeta * following`, reduced.
pub proof fn lemma_set_entry_value(y1z: Scalar, zeta: Scalar, current: Scalar, following: Scalar)
    ensures
        set_entry(y1z, zeta, current, following)@ == (y1z@ + current@ + zeta@ * following@)
            % modulus(),
{
    let m = modulus() as int;
    Scalar::lemma_add_value(y1z, current);
    Scalar::lemma_mul_value(zeta, following);
    Scalar::lemma_add_value(y1z.spec_add(current), zeta.spec_mul(following));
    lemma_add_mod_noop((y1z@ + current@) as int, (zeta@ * following@) as int, m);
}

} // verus!
