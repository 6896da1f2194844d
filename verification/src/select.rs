//! A stream over a set of futures that yields their outputs in the order
//! they complete.
//!
//! Polling itself happens outside the library: on each `poll_next` the
//! futures are polled in order, and these functions decide, from what each
//! poll gave, which future to poll next and what the stream reports.

use vstd::prelude::*;

verus! {

/// What polling a future once gave.
#[derive(Debug, PartialEq, Eq)]
pub enum Polled<T> {
    Ready(T),
    Pending,
}

/// What a stream over futures does next within one `poll_next`.
#[derive(Debug, PartialEq, Eq)]
pub enum PollStep<O> {
    /// Poll the future at this index.
    PollAt(usize),
    /// Report this output (`Ready(Some(output))`).
    Yield(O),
    /// Report the end of the stream (`Ready(None)`): no future is left.
    Done,
    /// Report `Pending`: no future is ready.
    Wait,
}

/// The first step of a `poll_next` over these futures: poll the first one,
/// or, with none, report the end of the stream.
pub open spec fn first_step_of<F, O>(futures: Seq<F>) -> PollStep<O> {
    if futures.len() == 0 {
        PollStep::Done
    } else {
        PollStep::PollAt(0)
    }
}

/// The step after future `i` was polled: a ready future is removed and its
/// output reported; after a pending one the next is polled, and after the
/// last, `Pending` is reported.
pub open spec fn next_step_of<F, O>(futures: Seq<F>, i: int, polled: Polled<O>) -> (Seq<F>, PollStep<O>) {
    match polled {
        Polled::Ready(o) => (futures.remove(i), PollStep::Yield(o)),
        Polled::Pending => (futures, if i + 1 < futures.len() {
            PollStep::PollAt((i + 1) as usize)
        } else {
            PollStep::Wait
        }),
    }
}

/// The steps of one `poll_next` from `step` on, where polling the future at
/// index `i` gives `polls[i]`, for at most `fuel` polls.
pub open spec fn run_steps<F, O>(futures: Seq<F>, polls: Seq<Polled<O>>, step: PollStep<O>, fuel: nat) -> (Seq<F>, PollStep<O>)
    decreases fuel,
{
    match step {
        PollStep::PollAt(i) => if fuel == 0 {
            (futures, step)
        } else {
            let (left, next) = next_step_of(futures, i as int, polls[i as int]);
            run_steps(left, polls, next, (fuel - 1) as nat)
        },
        _ => (futures, step),
    }
}

/// The index of the first ready poll from index `i` on, if any.
pub open spec fn first_ready_from<O>(polls: Seq<Polled<O>>, i: int) -> Option<int>
    decreases polls.len() - i,
{
    if i < 0 || i >= polls.len() {
        None
    } else if polls[i] is Ready {
        Some(i)
    } else {
        first_ready_from(polls, i + 1)
    }
}

/// The steps of a `poll_next` from future `i` on end as the first ready
/// future from `i` dictates.
proof fn lemma_run_from<F, O>(futures: Seq<F>, polls: Seq<Polled<O>>, i: int, fuel: nat)
    requires
        polls.len() == futures.len(),
        futures.len() <= usize::MAX,
        0 <= i < futures.len(),
        fuel >= futures.len() - i,
    ensures
        ({
            let (left, r) = run_steps(futures, polls, PollStep::PollAt(i as usize), fuel);
            match first_ready_from(polls, i) {
                Some(k) => r == PollStep::Yield(polls[k]->Ready_0) && left == futures.remove(k),
                None => r is Wait && left == futures,
            }
        }),
    decreases futures.len() - i,
{
    lemma_first_ready_before(polls, i);
    let (left1, next1) = next_step_of(futures, i, polls[i]);
    assert(run_steps(futures, polls, PollStep::PollAt(i as usize), fuel) == run_steps(
        left1,
        polls,
        next1,
        (fuel - 1) as nat,
    ));
    if polls[i] is Pending && i + 1 < futures.len() {
        lemma_run_from(futures, polls, i + 1, (fuel - 1) as nat);
    }
}

/// One `poll_next` polls the futures in order until one is ready, then
/// yields that future's output and drops that future alone; with none
/// ready it is pending and keeps every future, and with no future left it
/// reports the end of the stream.
pub proof fn lemma_poll_next<F, O>(futures: Seq<F>, polls: Seq<Polled<O>>)
    requires
        polls.len() == futures.len(),
        futures.len() <= usize::MAX,
    ensures
        ({
            let (left, r) = run_steps(futures, polls, first_step_of(futures), futures.len());
            match first_ready_from(polls, 0) {
                Some(k) => r == PollStep::Yield(polls[k]->Ready_0) && left == futures.remove(k)
                    && forall|j: int| 0 <= j < k ==> #[trigger] polls[j] is Pending,
                None => left == futures && (if futures.len() == 0 {
                    r is Done
                } else {
                    r is Wait
                }),
            }
        }),
{
    if futures.len() > 0 {
        lemma_run_from(futures, polls, 0, futures.len());
        lemma_first_ready_before(polls, 0);
    }
}

/// Every poll before the first ready one from `i` is pending.
proof fn lemma_first_ready_before<O>(polls: Seq<Polled<O>>, i: int)
    requires
        0 <= i,
    ensures
        first_ready_from(polls, i) matches Some(k) ==> i <= k < polls.len() && polls[k] is Ready
            && forall|j: int| i <= j < k ==> #[trigger] polls[j] is Pending,
    decreases polls.len() - i,
{
    if i < polls.len() && polls[i] is Pending {
        lemma_first_ready_before(polls, i + 1);
    }
}

/// Computes `first_step_of`.
pub fn first_step<F, O>(futures: &Vec<F>) -> (step: PollStep<O>)
    ensures
        step == first_step_of::<F, O>(futures@),
{
    if futures.len() == 0 {
        PollStep::Done
    } else {
        PollStep::PollAt(0)
    }
}

/// Computes `next_step_of`, removing a ready future.
pub fn next_step<F, O>(futures: &mut Vec<F>, i: usize, polled: Polled<O>) -> (step: PollStep<O>)
    requires
        i < old(futures)@.len(),
    ensures
        (final(futures)@, step) == next_step_of(old(futures)@, i as int, polled),
{
    match polled {
        Polled::Ready(o) => {
            let _ = futures.remove(i);
            PollStep::Yield(o)
        },
        Polled::Pending => {
            if i < futures.len() - 1 {
                PollStep::PollAt(i + 1)
            } else {
                PollStep::Wait
            }
        },
    }
}

/// The bounds on the number of items still to come from these futures:
/// exactly one per future.
pub fn size_hint_of<F>(futures: &Vec<F>) -> (r: (usize, Option<usize>))
    ensures
        r.0 == futures@.len(),
        r.1 == Some(futures@.len() as usize),
{
    (futures.len(), Some(futures.len()))
}

/// A stream over a set of futures that yields each output as its future
/// completes.
pub struct Select<Fut>(pub Vec<Fut>);

impl<Fut> Select<Fut> {
    /// The bounds on the number of items still to come: exactly one per
    /// future left.
    pub fn size_hint(&self) -> (r: (usize, Option<usize>))
        ensures
            r.0 == self.0@.len(),
            r.1 == Some(self.0@.len() as usize),
    {
        size_hint_of(&self.0)
    }

    /// The first step of a `poll_next`.
    pub fn first_step<O>(&self) -> (step: PollStep<O>)
        ensures
            step == first_step_of::<Fut, O>(self.0@),
    {
        first_step(&self.0)
    }

    /// The step after the future at index `i` was polled.
    pub fn next_step<O>(&mut self, i: usize, polled: Polled<O>) -> (step: PollStep<O>)
        requires
            i < old(self).0@.len(),
        ensures
            (final(self).0@, step) == next_step_of(old(self).0@, i as int, polled),
    {
        next_step(&mut self.0, i, polled)
    }
}

} // verus!
