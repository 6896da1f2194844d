//! A future with a deadline: it gives the task's output, or an error once
//! the timer fires first.
//!
//! Polling happens outside the library; these functions decide, from what
//! each poll gave, what to poll next and what the future reports.

use vstd::prelude::*;
use crate::select::Polled;

verus! {

/// The error of a future whose timer fired before its task completed.
#[derive(Debug, PartialEq, Eq)]
pub struct Elapsed;

impl Elapsed {
    /// The error's message.
    pub fn message(&self) -> (m: &'static str)
        ensures
            m@ == "Timeout!"@,
    {
        "Timeout!"
    }
}

/// What a future with a deadline does next within one `poll`.
#[derive(Debug, PartialEq, Eq)]
pub enum DelayStep<T> {
    /// Poll the timer.
    PollTimer,
    /// Report this outcome (`Ready(outcome)`).
    Finish(Result<T, Elapsed>),
    /// Report `Pending`.
    Wait,
}

/// The step after the task was polled: a ready task finishes the future
/// with its output; otherwise the timer is polled.
pub open spec fn after_task_of<T>(task: Polled<T>) -> DelayStep<T> {
    match task {
        Polled::Ready(v) => DelayStep::Finish(Ok(v)),
        Polled::Pending => DelayStep::PollTimer,
    }
}

/// The step after the timer was polled: a fired timer finishes the future
/// with `Elapsed`; otherwise the future is pending.
pub open spec fn after_timer_of<T, I>(timer: Polled<I>) -> DelayStep<T> {
    match timer {
        Polled::Ready(_) => DelayStep::Finish(Err(Elapsed)),
        Polled::Pending => DelayStep::Wait,
    }
}

/// What one `poll` reports, where polling the task gives `task` and polling
/// the timer would give `timer`: the timer is polled only after a pending
/// task.
pub open spec fn delay_poll_of<T, I>(task: Polled<T>, timer: Polled<I>) -> DelayStep<T> {
    match after_task_of(task) {
        DelayStep::PollTimer => after_timer_of(timer),
        step => step,
    }
}

/// One `poll` of a future with a deadline always decides: it finishes or is
/// pending.  A ready task finishes it with the task's output even when the
/// timer has fired too; it finishes with `Elapsed` exactly when the task is
/// pending and the timer has fired; otherwise it is pending.
pub proof fn lemma_delay_poll<T, I>(task: Polled<T>, timer: Polled<I>)
    ensures
        !(delay_poll_of(task, timer) is PollTimer),
        task matches Polled::Ready(v) ==> delay_poll_of(task, timer) == DelayStep::Finish(
            Ok::<T, Elapsed>(v),
        ),
        (delay_poll_of(task, timer) matches DelayStep::Finish(Err(_))) <==> (task is Pending
            && timer is Ready),
        delay_poll_of(task, timer) is Wait <==> (task is Pending && timer is Pending),
{
}

/// Computes `after_task_of`.
pub fn after_task<T>(task: Polled<T>) -> (step: DelayStep<T>)
    ensures
        step == after_task_of(task),
{
    match task {
        Polled::Ready(v) => DelayStep::Finish(Ok(v)),
        Polled::Pending => DelayStep::PollTimer,
    }
}

/// Computes `after_timer_of`.
pub fn after_timer<T, I>(timer: Polled<I>) -> (step: DelayStep<T>)
    ensures
        step == after_timer_of::<T, I>(timer),
{
    match timer {
        Polled::Ready(_) => DelayStep::Finish(Err(Elapsed)),
        Polled::Pending => DelayStep::Wait,
    }
}

} // verus!
