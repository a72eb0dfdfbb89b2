//! Jobs for the thread that runs a Core Foundation run loop.
//!
//! Anyone may submit a job. Each time the run loop is woken it takes everything
//! that is waiting and runs it, in order.

use vstd::prelude::*;

verus! {

/// The jobs that wait for the run loop.
pub struct JobQueue<T> {
    pub queue: Vec<T>,
}

/// The jobs that wait after one more was submitted.
pub open spec fn after_submit<T>(queue: Seq<T>, job: T) -> Seq<T> {
    queue.push(job)
}

/// The jobs that the run loop takes, and those that wait afterwards.
pub open spec fn after_perform<T>(queue: Seq<T>) -> (Seq<T>, Seq<T>) {
    (queue, Seq::empty())
}

impl<T> JobQueue<T> {
    /// Nothing waits.
    pub fn new() -> (r: Self)
        ensures
            r.queue@ == Seq::<T>::empty(),
    {
        JobQueue { queue: Vec::new() }
    }

    /// A job waits behind all others.
    pub fn submit(&mut self, job: T)
        ensures
            final(self).queue@ == after_submit(old(self).queue@, job),
    {
        self.queue.push(job);
    }

    /// The run loop takes what waits, in the order it came.
    pub fn perform(&mut self) -> (r: Vec<T>)
        ensures
            (r@, final(self).queue@) == after_perform(old(self).queue@),
    {
        let mut drained: Vec<T> = Vec::new();
        core::mem::swap(&mut drained, &mut self.queue);
        drained
    }
}

/// Something that happens to the queue.
pub enum QueueEvent<T> {
    Submit(T),
    Perform,
}

/// The jobs that wait after some events.
pub open spec fn waiting<T>(events: Seq<QueueEvent<T>>) -> Seq<T>
    decreases events.len(),
{
    if events.len() == 0 {
        Seq::empty()
    } else {
        match events.last() {
            QueueEvent::Submit(job) => after_submit(waiting(events.drop_last()), job),
            QueueEvent::Perform => after_perform(waiting(events.drop_last())).1,
        }
    }
}

/// The jobs that have run after some events, in order.
pub open spec fn ran<T>(events: Seq<QueueEvent<T>>) -> Seq<T>
    decreases events.len(),
{
    if events.len() == 0 {
        Seq::empty()
    } else {
        match events.last() {
            QueueEvent::Submit(_) => ran(events.drop_last()),
            QueueEvent::Perform => ran(events.drop_last()) + after_perform(
                waiting(events.drop_last()),
            ).0,
        }
    }
}

/// The jobs that were submitted, in order.
pub open spec fn submitted<T>(events: Seq<QueueEvent<T>>) -> Seq<T>
    decreases events.len(),
{
    if events.len() == 0 {
        Seq::empty()
    } else {
        match events.last() {
            QueueEvent::Submit(job) => submitted(events.drop_last()).push(job),
            QueueEvent::Perform => submitted(events.drop_last()),
        }
    }
}

/// Jobs run in the order they were submitted, each once, however the wake-ups of
/// the run loop fall between them.
pub proof fn law_jobs_run_in_order<T>(events: Seq<QueueEvent<T>>)
    ensures
        ran(events) + waiting(events) == submitted(events),
    decreases events.len(),
{
    if events.len() > 0 {
        let before = events.drop_last();
        law_jobs_run_in_order(before);
        match events.last() {
            QueueEvent::Submit(job) => {
                assert(ran(before) + waiting(before).push(job) =~= (ran(before) + waiting(
                    before,
                )).push(job));
            },
            QueueEvent::Perform => {
                assert(ran(before) + waiting(before) + Seq::<T>::empty() =~= submitted(before));
            },
        }
    } else {
        assert(ran(events) + waiting(events) =~= submitted(events));
    }
}

/// A job waits behind all that wait, and a wake-up takes all of them in that order and
/// leaves none.
pub proof fn law_wake_ups_take_everything<T>(queue: Seq<T>, job: T)
    ensures
        after_submit(queue, job) == queue.push(job),
        after_perform(queue).0 == queue,
        after_perform(queue).1.len() == 0,
{
}

} // verus!
