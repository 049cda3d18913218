//! Lazy sequences: repeatable producers of a known number of items.
use vstd::prelude::*;

pub mod slice;

verus! {

/// What a pass yields next: the first item still pending, if there is one.
pub open spec fn head<T>(s: Seq<T>) -> Option<T> {
    if s.len() > 0 {
        Some(s[0])
    } else {
        None
    }
}

/// What is still pending after one step of a pass.
pub open spec fn tail<T>(s: Seq<T>) -> Seq<T> {
    if s.len() > 0 {
        s.drop_first()
    } else {
        s
    }
}

/// What is still pending after a bulk skip of `n` items: the items from the
/// `n`-th on, or nothing when fewer than `n` were pending.
pub open spec fn skipped<T>(s: Seq<T>, n: nat) -> Seq<T> {
    if n <= s.len() {
        s.skip(n as int)
    } else {
        Seq::empty()
    }
}

/// What a bulk skip of `n` items reports: success, or the number of items
/// that were pending when fewer than `n` were.
pub open spec fn skip_outcome<T>(s: Seq<T>, n: usize) -> Result<(), usize> {
    if n <= s.len() {
        Ok(())
    } else {
        Err(s.len() as usize)
    }
}

/// What is still pending after `k` single steps of a pass.
pub open spec fn stepped<T>(s: Seq<T>, k: nat) -> Seq<T>
    decreases k,
{
    if k == 0 {
        s
    } else {
        tail(stepped(s, (k - 1) as nat))
    }
}

/// One pass over a sequence: it hands out the pending items in order, once.
pub trait Pass {
    type Item;

    /// The pass is in a consistent state.
    spec fn inv(&self) -> bool;

    /// The items still to come, in the order in which they will come.
    spec fn rest(&self) -> Seq<Self::Item>;

    /// Hands out the next item, or `None` when the pass is over.
    fn next(&mut self) -> (item: Option<Self::Item>)
        requires
            old(self).inv(),
        ensures
            final(self).inv(),
            item == head(old(self).rest()),
            final(self).rest() == tail(old(self).rest()),
    ;

    /// Skips the next `n` items at once. When fewer than `n` are pending, the
    /// pass is over afterwards and the error holds how many were skipped.
    ///
    /// Unless a pass has a faster way, it takes `n` single steps and stops at
    /// the first one that finds the pass over.
    fn advance_by(&mut self, n: usize) -> (r: Result<(), usize>)
        requires
            old(self).inv(),
        ensures
            final(self).inv(),
            r == skip_outcome(old(self).rest(), n),
            final(self).rest() == skipped(old(self).rest(), n as nat),
    {
        let ghost all = self.rest();
        let mut done: usize = 0;
        while done < n
            invariant
                self.inv(),
                all == old(self).rest(),
                done <= n,
                done <= all.len(),
                self.rest() == all.skip(done as int),
            decreases n - done,
        {
            if self.next().is_none() {
                assert(self.rest() =~= skipped(all, n as nat));
                return Err(done);
            }
            done = done + 1;
            assert(self.rest() =~= all.skip(done as int));
        }
        Ok(())
    }
}

/// A sequence of known length that can be iterated over any number of times.
pub trait Iterable {
    type Item;

    type Iter: Pass<Item = Self::Item>;

    /// The sequence is in a consistent state.
    spec fn inv(&self) -> bool;

    /// The items of the sequence, in iteration order.
    spec fn items(&self) -> Seq<Self::Item>;

    /// Starts a new pass over the whole sequence.
    fn iter(&self) -> (pass: Self::Iter)
        requires
            self.inv(),
        ensures
            pass.inv(),
            pass.rest() == self.items(),
    ;

    /// The number of items.
    fn len(&self) -> (n: usize)
        requires
            self.inv(),
        ensures
            n == self.items().len(),
    ;
}

/// Drains a pass into a vector.
pub fn collect<P: Pass>(pass: P) -> (v: Vec<P::Item>)
    requires
        pass.inv(),
    ensures
        v@ == pass.rest(),
{
    let mut pass = pass;
    let ghost all = pass.rest();
    let mut v: Vec<P::Item> = Vec::new();
    loop
        invariant
            pass.inv(),
            v@.len() <= all.len(),
            v@ == all.take(v@.len() as int),
            pass.rest() == all.skip(v@.len() as int),
        ensures
            v@ == all,
        decreases pass.rest().len(),
    {
        match pass.next() {
            Some(item) => {
                v.push(item);
                assert(v@ =~= all.take(v@.len() as int));
                assert(pass.rest() =~= all.skip(v@.len() as int));
            },
            None => {
                assert(v@ =~= all);
                break ;
            },
        }
    }
    v
}

/// Skipping `k` items at once leaves the same items pending as taking `k`
/// single steps and discarding what they yield; this holds too when fewer than
/// `k` items are pending, in which case nothing is left either way.
pub proof fn lemma_skip_is_steps<T>(s: Seq<T>, k: nat)
    ensures
        skipped(s, k) == stepped(s, k),
    decreases k,
{
    if k > 0 {
        lemma_skip_is_steps(s, (k - 1) as nat);
        assert(tail(skipped(s, (k - 1) as nat)) =~= skipped(s, k));
    } else {
        assert(skipped(s, 0) =~= s);
    }
}

} // verus!
