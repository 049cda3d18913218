//! Streams: lazy sequences of scalars.
use crate::field::Scalar;
use crate::iterable::{Iterable, Pass};
use vstd::prelude::*;

verus! {

/// A sequence of scalars of known length that can be streamed any number of
/// times, each time yielding the same items in the same order.
pub trait Streamer {
    type Iter: Pass<Item = Scalar>;

    /// The stream is in a consistent state.
    spec fn inv(&self) -> bool;

    /// The scalars of the stream, in streaming order.
    spec fn items(&self) -> Seq<Scalar>;

    /// Starts a new pass over the whole stream.
    fn stream(&self) -> (pass: Self::Iter)
        requires
            self.inv(),
        ensures
            pass.inv(),
            pass.rest() == self.items(),
    ;

    /// The number of scalars in the stream.
    fn len(&self) -> (n: usize)
        requires
            self.inv(),
        ensures
            n == self.items().len(),
    ;
}

/// Every lazy sequence of scalars is a stream.
impl<S: Iterable<Item = Scalar>> Streamer for S {
    type Iter = S::Iter;

    open spec fn inv(&self) -> bool {
        Iterable::inv(self)
    }

    open spec fn items(&self) -> Seq<Scalar> {
        Iterable::items(self)
    }

    fn stream(&self) -> (pass: S::Iter) {
        self.iter()
    }

    fn len(&self) -> (n: usize) {
        Iterable::len(self)
    }
}

} // verus!
