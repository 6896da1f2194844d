//! A stream over a vector of futures, made from any collection of futures,
//! that yields their outputs in the order they complete.

use vstd::prelude::*;
use crate::select::{self, PollStep, Polled};

verus! {

/// A stream over a vector of futures that yields each output as its future
/// completes.
pub struct StreamVec<T>(Vec<T>);

impl<T> View for StreamVec<T> {
    type V = Seq<T>;

    closed spec fn view(&self) -> Seq<T> {
        self.0@
    }
}

impl<T> StreamVec<T> {
    /// A stream over these futures, in this order.
    pub fn from_vec(futures: Vec<T>) -> (r: Self)
        ensures
            r@ == futures@,
    {
        StreamVec(futures)
    }

    /// The number of futures left.
    pub fn len(&self) -> (r: usize)
        ensures
            r == self@.len(),
    {
        self.0.len()
    }

    /// The future at index `i`, to be polled.
    pub fn future_mut(&mut self, i: usize) -> (r: &mut T)
        requires
            i < old(self)@.len(),
        ensures
            *r == old(self)@[i as int],
            final(self)@ == old(self)@.update(i as int, *final(r)),
    {
        &mut self.0[i]
    }

    /// The bounds on the number of items still to come: exactly one per
    /// future left.
    pub fn size_hint(&self) -> (r: (usize, Option<usize>))
        ensures
            r.0 == self@.len(),
            r.1 == Some(self@.len() as usize),
    {
        (self.0.len(), Some(self.0.len()))
    }

    /// The first step of a `poll_next`.
    pub fn first_step<O>(&self) -> (step: PollStep<O>)
        ensures
            step == select::first_step_of::<T, O>(self@),
    {
        select::first_step(&self.0)
    }

    /// The step after the future at index `i` was polled.
    pub fn next_step<O>(&mut self, i: usize, polled: Polled<O>) -> (step: PollStep<O>)
        requires
            i < old(self)@.len(),
        ensures
            (final(self)@, step) == select::next_step_of(old(self)@, i as int, polled),
    {
        select::next_step(&mut self.0, i, polled)
    }
}

} // verus!
