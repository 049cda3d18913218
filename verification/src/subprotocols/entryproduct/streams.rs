//! The streams of the reduction: the running products of a stream, from which
//! the accumulated vector is made, and the two sequences of the sumcheck
//! claim, computed on the fly from the accumulated vector and from the vector
//! itself.
use super::{accumulated, power, product_from, shifted, twisted};
use crate::field::Scalar;
use crate::iterable::{tail, Pass};
use crate::stream::Streamer;
use vstd::prelude::*;

verus! {

/// The product of `from` and of the entries of `base` up to the `i`-th, the
/// later entries multiplied onto the earlier ones.
pub open spec fn product_upto(base: Seq<Scalar>, from: Scalar, i: int) -> Scalar
    decreases i + 1,
{
    if 0 <= i < base.len() {
        base[i].spec_mul(product_upto(base, from, i - 1))
    } else {
        from
    }
}

/// The running products of `base` on top of `from`: the `i`-th is the
/// product of `from` and of the entries up to the `i`-th.
pub open spec fn running_products_from(base: Seq<Scalar>, from: Scalar) -> Seq<Scalar> {
    Seq::new(base.len(), |i: int| product_upto(base, from, i))
}

/// The running products of `base`.
pub open spec fn running_products(base: Seq<Scalar>) -> Seq<Scalar> {
    running_products_from(base, Scalar::from_nat(1))
}

/// The running products of what is left after the first entry, on top of
/// the first running product, are the running products but for the first.
pub proof fn lemma_running_products_tail(base: Seq<Scalar>, from: Scalar, i: int)
    requires
        base.len() >= 1,
        -1 <= i < base.len() - 1,
    ensures
        product_upto(base.drop_first(), base[0].spec_mul(from), i) == product_upto(
            base,
            from,
            i + 1,
        ),
    decreases i + 1,
{
    let rest = base.drop_first();
    let next = base[0].spec_mul(from);
    assert(product_upto(base, from, -1) == from);
    assert(product_upto(base, from, 0) == next);
    if i >= 0 {
        lemma_running_products_tail(base, from, i - 1);
        assert(rest[i] == base[i + 1]);
        assert(product_upto(rest, next, i) == rest[i].spec_mul(product_upto(rest, next, i - 1)));
        assert(product_upto(base, from, i + 1) == base[i + 1].spec_mul(
            product_upto(base, from, i),
        ));
    } else {
        assert(product_upto(rest, next, i) == next);
    }
}

/// The running products of a vector read backwards are its accumulated
/// vector read backwards.
pub proof fn lemma_running_products_of_reversed(v: Seq<Scalar>)
    ensures
        running_products(v.reverse()) == accumulated(v).reverse(),
{
    let n = v.len() as int;
    assert forall|i: int| 0 <= i < n implies running_products(v.reverse())[i] == accumulated(
        v,
    ).reverse()[i] by {
        lemma_product_upto_of_reversed(v, i);
    }
    assert(running_products(v.reverse()) =~= accumulated(v).reverse());
}

/// The product of the last entries of a vector, taken from the back, is the
/// accumulated product from where they begin.
pub proof fn lemma_product_upto_of_reversed(v: Seq<Scalar>, i: int)
    requires
        -1 <= i < v.len(),
    ensures
        product_upto(v.reverse(), Scalar::from_nat(1), i) == product_from(v, v.len() - 1 - i),
    decreases i + 1,
{
    if i >= 0 {
        lemma_product_upto_of_reversed(v, i - 1);
    }
}

/// The stream of the running products of a base stream.
#[derive(Clone, Copy)]
pub struct ProductStreamer<S> {
    base: S,
}

/// A pass over the running products of a base stream: it takes the product
/// so far along.
pub struct ProductIter<I> {
    base: I,
    running: Scalar,
}

impl<S: Streamer> ProductStreamer<S> {
    /// The base stream.
    pub closed spec fn base(self) -> S {
        self.base
    }

    /// The stream of the running products of `base`.
    pub fn new(base: S) -> (r: Self)
        requires
            base.inv(),
        ensures
            r.inv(),
            r.base() == base,
    {
        ProductStreamer { base }
    }
}

impl<S: Streamer> Streamer for ProductStreamer<S> {
    type Iter = ProductIter<S::Iter>;

    open spec fn inv(&self) -> bool {
        self.base().inv()
    }

    open spec fn items(&self) -> Seq<Scalar> {
        running_products(self.base().items())
    }

    fn stream(&self) -> (pass: Self::Iter) {
        ProductIter { base: self.base.stream(), running: Scalar::one() }
    }

    fn len(&self) -> (n: usize) {
        self.base.len()
    }
}

impl<I: Pass<Item = Scalar>> Pass for ProductIter<I> {
    type Item = Scalar;

    closed spec fn inv(&self) -> bool {
        self.base.inv()
    }

    closed spec fn rest(&self) -> Seq<Scalar> {
        running_products_from(self.base.rest(), self.running)
    }

    fn next(&mut self) -> (item: Option<Scalar>) {
        match self.base.next() {
            Some(x) => {
                self.running = x.mul(&self.running);
                proof {
                    let before = old(self).base.rest();
                    assert(product_upto(before, old(self).running, -1) == old(self).running);
                    assert(old(self).rest()[0] == self.running);
                    assert forall|i: int| 0 <= i < self.rest().len() implies self.rest()[i]
                        == tail(old(self).rest())[i] by {
                        lemma_running_products_tail(before, old(self).running, i);
                    }
                    assert(self.rest() =~= tail(old(self).rest()));
                }
                Some(self.running)
            },
            None => None,
        }
    }
}

/// The power of `chal` that is `i` steps on from the power `from`.
pub open spec fn power_after(chal: Scalar, from: Scalar, i: nat) -> Scalar
    decreases i,
{
    if i == 0 {
        from
    } else {
        chal.spec_mul(power_after(chal, from, (i - 1) as nat))
    }
}

/// The entries of `base` with a one appended, each multiplied by a power of
/// `chal`: the first by `from`, each later one by `chal` times the power
/// before.
pub open spec fn twisted_from(base: Seq<Scalar>, chal: Scalar, from: Scalar) -> Seq<Scalar> {
    Seq::new(
        base.len() + 1,
        |j: int|
            (if j < base.len() {
                base[j]
            } else {
                Scalar::from_nat(1)
            }).spec_mul(power_after(chal, from, j as nat)),
    )
}

/// The entries of `w`, the last one less one.
pub open spec fn last_less_one(w: Seq<Scalar>) -> Seq<Scalar> {
    Seq::new(
        w.len(),
        |j: int|
            if j + 1 < w.len() {
                w[j]
            } else {
                w[j].spec_sub(Scalar::from_nat(1))
            },
    )
}

/// Counting powers from the zeroth on gives the powers themselves.
pub proof fn lemma_power_after(chal: Scalar, i: nat)
    ensures
        power_after(chal, Scalar::from_nat(1), i) == power(chal, i),
    decreases i,
{
    if i > 0 {
        lemma_power_after(chal, (i - 1) as nat);
    }
}

/// Stepping on from the next power is stepping once more from this one.
pub proof fn lemma_power_after_next(chal: Scalar, from: Scalar, i: nat)
    ensures
        power_after(chal, chal.spec_mul(from), i) == power_after(chal, from, i + 1),
    decreases i,
{
    assert(power_after(chal, from, i + 1) == chal.spec_mul(
        power_after(chal, from, ((i + 1) - 1) as nat),
    ));
    if i > 0 {
        lemma_power_after_next(chal, from, (i - 1) as nat);
        assert(power_after(chal, from, ((i - 1) + 1) as nat) == power_after(chal, from, i));
    }
}

/// The first sequence of the sumcheck claim, over a stream of the
/// accumulated vector.
#[derive(Clone, Copy)]
pub struct TwistedStreamer<S> {
    acc_v: S,
    chal: Scalar,
}

/// A pass over the first sequence of the sumcheck claim.
pub struct TwistedIter<I> {
    base: I,
    chal: Scalar,
    chal_power: Scalar,
    done: bool,
}

impl<S: Streamer> TwistedStreamer<S> {
    /// The stream of the accumulated vector.
    pub closed spec fn acc_v(self) -> S {
        self.acc_v
    }

    /// The challenge.
    pub closed spec fn chal(self) -> Scalar {
        self.chal
    }

    /// The first sequence of the claim for the accumulated vector that
    /// `acc_v` streams and the challenge `chal`.
    pub fn new(acc_v: S, chal: Scalar) -> (r: Self)
        requires
            acc_v.inv(),
            acc_v.items().len() < usize::MAX,
        ensures
            r.inv(),
            r.acc_v() == acc_v,
            r.chal() == chal,
    {
        TwistedStreamer { acc_v, chal }
    }
}

impl<S: Streamer> Streamer for TwistedStreamer<S> {
    type Iter = TwistedIter<S::Iter>;

    open spec fn inv(&self) -> bool {
        &&& self.acc_v().inv()
        &&& self.acc_v().items().len() < usize::MAX
    }

    open spec fn items(&self) -> Seq<Scalar> {
        twisted(self.acc_v().items(), self.chal())
    }

    fn stream(&self) -> (pass: Self::Iter) {
        let pass = TwistedIter {
            base: self.acc_v.stream(),
            chal: self.chal,
            chal_power: Scalar::one(),
            done: false,
        };
        proof {
            assert forall|j: int| 0 <= j < self.items().len() implies pass.rest()[j]
                == self.items()[j] by {
                lemma_power_after(self.chal, j as nat);
            }
            assert(pass.rest() =~= self.items());
        }
        pass
    }

    fn len(&self) -> (n: usize) {
        self.acc_v.len() + 1
    }
}

impl<I: Pass<Item = Scalar>> Pass for TwistedIter<I> {
    type Item = Scalar;

    closed spec fn inv(&self) -> bool {
        &&& self.base.inv()
        &&& self.done ==> self.base.rest().len() == 0
    }

    closed spec fn rest(&self) -> Seq<Scalar> {
        if self.done {
            Seq::empty()
        } else {
            twisted_from(self.base.rest(), self.chal, self.chal_power)
        }
    }

    fn next(&mut self) -> (item: Option<Scalar>) {
        if self.done {
            return None;
        }
        let ghost before = self.base.rest();
        let entry = match self.base.next() {
            Some(x) => x,
            None => {
                self.done = true;
                Scalar::one()
            },
        };
        let item = entry.mul(&self.chal_power);
        self.chal_power = self.chal.mul(&self.chal_power);
        proof {
            if !self.done {
                assert forall|j: int| 0 <= j < self.rest().len() implies self.rest()[j] == tail(
                    old(self).rest(),
                )[j] by {
                    lemma_power_after_next(self.chal, old(self).chal_power, j as nat);
                }
            }
            assert(self.rest() =~= tail(old(self).rest()));
        }
        Some(item)
    }
}

/// The second sequence of the sumcheck claim, over a stream of the vector
/// itself.
#[derive(Clone, Copy)]
pub struct ShiftedStreamer<S> {
    v: S,
}

/// A pass over the second sequence of the sumcheck claim. It is one entry
/// ahead of what it hands out, so that it knows the last entry when it
/// comes to it.
pub struct ShiftedIter<I> {
    base: I,
    started: bool,
    held: Option<Scalar>,
}

impl<S: Streamer> ShiftedStreamer<S> {
    /// The stream of the vector.
    pub closed spec fn v(self) -> S {
        self.v
    }

    /// The second sequence of the claim for the vector that `v` streams,
    /// which must not be empty.
    pub fn new(v: S) -> (r: Self)
        requires
            v.inv(),
            1 <= v.items().len() < usize::MAX,
        ensures
            r.inv(),
            r.v() == v,
    {
        ShiftedStreamer { v }
    }
}

impl<S: Streamer> Streamer for ShiftedStreamer<S> {
    type Iter = ShiftedIter<S::Iter>;

    open spec fn inv(&self) -> bool {
        &&& self.v().inv()
        &&& 1 <= self.v().items().len() < usize::MAX
    }

    open spec fn items(&self) -> Seq<Scalar> {
        shifted(self.v().items())
    }

    fn stream(&self) -> (pass: Self::Iter) {
        let pass = ShiftedIter { base: self.v.stream(), started: false, held: None };
        assert(pass.rest() =~= self.items());
        pass
    }

    fn len(&self) -> (n: usize) {
        self.v.len() + 1
    }
}

impl<I: Pass<Item = Scalar>> Pass for ShiftedIter<I> {
    type Item = Scalar;

    closed spec fn inv(&self) -> bool {
        &&& self.base.inv()
        &&& !self.started ==> self.base.rest().len() >= 1
        &&& self.held is None ==> self.started ==> self.base.rest().len() == 0
    }

    closed spec fn rest(&self) -> Seq<Scalar> {
        if !self.started {
            seq![Scalar::from_nat(1)] + last_less_one(self.base.rest())
        } else {
            match self.held {
                Some(h) => last_less_one(seq![h] + self.base.rest()),
                None => Seq::empty(),
            }
        }
    }

    fn next(&mut self) -> (item: Option<Scalar>) {
        if !self.started {
            self.started = true;
            self.held = self.base.next();
            assert(self.rest() =~= tail(old(self).rest()));
            return Some(Scalar::one());
        }
        let held = match self.held {
            Some(h) => h,
            None => { return None; },
        };
        self.held = self.base.next();
        assert(self.rest() =~= tail(old(self).rest()));
        match self.held {
            Some(_) => Some(held),
            None => Some(held.sub(&Scalar::one())),
        }
    }
}

} // verus!
