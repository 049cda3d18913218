//! Slices, integer ranges and reversed slices as lazy sequences.
use super::{skipped, tail, Iterable, Pass};
use vstd::prelude::*;

verus! {

/// A pass over a slice, front to back.
pub struct SliceIter<'a, T> {
    slice: &'a [T],
    pos: usize,
}

impl<'a, T: Copy> Pass for SliceIter<'a, T> {
    type Item = T;

    closed spec fn inv(&self) -> bool {
        self.pos <= self.slice@.len()
    }

    closed spec fn rest(&self) -> Seq<T> {
        self.slice@.skip(self.pos as int)
    }

    fn next(&mut self) -> (item: Option<T>) {
        if self.pos < self.slice.len() {
            let item = self.slice[self.pos];
            self.pos = self.pos + 1;
            assert(self.rest() =~= tail(old(self).rest()));
            Some(item)
        } else {
            None
        }
    }

    fn advance_by(&mut self, n: usize) -> (r: Result<(), usize>) {
        let pending = self.slice.len() - self.pos;
        if n <= pending {
            self.pos = self.pos + n;
            assert(self.rest() =~= skipped(old(self).rest(), n as nat));
            Ok(())
        } else {
            self.pos = self.slice.len();
            assert(self.rest() =~= skipped(old(self).rest(), n as nat));
            Err(pending)
        }
    }
}

impl<'a, T: Copy> Iterable for &'a [T] {
    type Item = T;

    type Iter = SliceIter<'a, T>;

    open spec fn inv(&self) -> bool {
        true
    }

    open spec fn items(&self) -> Seq<T> {
        self@
    }

    #[inline]
    fn iter(&self) -> (pass: SliceIter<'a, T>) {
        let pass = SliceIter { slice: *self, pos: 0 };
        assert(pass.rest() =~= self@);
        pass
    }

    #[inline]
    fn len(&self) -> (n: usize) {
        <[T]>::len(self)
    }
}

/// A pass over the integers of a half-open range, in increasing order.
pub struct RangeIter {
    next: usize,
    end: usize,
}

/// The integers `start, start + 1, .., end - 1`; none when `end <= start`.
pub open spec fn range_items(start: usize, end: usize) -> Seq<usize> {
    if start <= end {
        Seq::new((end - start) as nat, |i: int| (start + i) as usize)
    } else {
        Seq::empty()
    }
}

impl Pass for RangeIter {
    type Item = usize;

    closed spec fn inv(&self) -> bool {
        true
    }

    closed spec fn rest(&self) -> Seq<usize> {
        range_items(self.next, self.end)
    }

    fn next(&mut self) -> (item: Option<usize>) {
        if self.next < self.end {
            let item = self.next;
            self.next = self.next + 1;
            assert(self.rest() =~= tail(old(self).rest()));
            Some(item)
        } else {
            None
        }
    }

    fn advance_by(&mut self, n: usize) -> (r: Result<(), usize>) {
        let pending = if self.next <= self.end {
            self.end - self.next
        } else {
            0
        };
        if n <= pending {
            self.next = self.next + n;
            assert(self.rest() =~= skipped(old(self).rest(), n as nat));
            Ok(())
        } else {
            self.next = self.end;
            assert(self.rest() =~= skipped(old(self).rest(), n as nat));
            Err(pending)
        }
    }
}

impl Iterable for std::ops::Range<usize> {
    type Item = usize;

    type Iter = RangeIter;

    open spec fn inv(&self) -> bool {
        true
    }

    open spec fn items(&self) -> Seq<usize> {
        range_items(self.start, self.end)
    }

    fn iter(&self) -> (pass: RangeIter) {
        RangeIter { next: self.start, end: self.end }
    }

    fn len(&self) -> (n: usize) {
        if self.start <= self.end {
            self.end - self.start
        } else {
            0
        }
    }
}

/// Reversed sequence over a slice: it yields the items of the slice from the
/// last to the first.
#[derive(Clone, Copy)]
pub struct Reversed<'a, T>(&'a [T]);

impl<'a, T> Reversed<'a, T> {
    /// The slice that is read backwards.
    pub closed spec fn base(self) -> Seq<T> {
        self.0@
    }

    /// A new reversed sequence over `slice`.
    pub fn new(slice: &'a [T]) -> (r: Self)
        ensures
            r.base() == slice@,
    {
        Self(slice)
    }
}

/// A pass over a slice, back to front.
pub struct ReversedIter<'a, T> {
    slice: &'a [T],
    pending: usize,
}

impl<'a, T: Copy> Pass for ReversedIter<'a, T> {
    type Item = T;

    closed spec fn inv(&self) -> bool {
        self.pending <= self.slice@.len()
    }

    closed spec fn rest(&self) -> Seq<T> {
        self.slice@.take(self.pending as int).reverse()
    }

    fn next(&mut self) -> (item: Option<T>) {
        if self.pending > 0 {
            self.pending = self.pending - 1;
            let item = self.slice[self.pending];
            assert(self.rest() =~= tail(old(self).rest()));
            Some(item)
        } else {
            None
        }
    }

    fn advance_by(&mut self, n: usize) -> (r: Result<(), usize>) {
        let pending = self.pending;
        if n <= pending {
            self.pending = pending - n;
            assert(self.rest() =~= skipped(old(self).rest(), n as nat));
            Ok(())
        } else {
            self.pending = 0;
            assert(self.rest() =~= skipped(old(self).rest(), n as nat));
            Err(pending)
        }
    }
}

impl<'a, T: Copy> Iterable for Reversed<'a, T> {
    type Item = T;

    type Iter = ReversedIter<'a, T>;

    open spec fn inv(&self) -> bool {
        true
    }

    open spec fn items(&self) -> Seq<T> {
        self.base().reverse()
    }

    #[inline]
    fn iter(&self) -> (pass: ReversedIter<'a, T>) {
        let pass = ReversedIter { slice: self.0, pending: self.0.len() };
        assert(pass.rest() =~= self.items());
        pass
    }

    #[inline]
    fn len(&self) -> (n: usize) {
        self.0.len()
    }
}

/// Reading a slice backwards, and what comes out backwards again, gives the
/// items of the slice in their own order.
pub proof fn lemma_reversed_twice<'a, 'b, T: Copy>(once: Reversed<'a, T>, twice: Reversed<'b, T>)
    requires
        twice.base() == once.items(),
    ensures
        twice.items() == once.base(),
{
    assert(once.base().reverse().reverse() =~= once.base());
}

} // verus!
