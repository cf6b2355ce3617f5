//! The job queue: an unbounded first-in, first-out sequence of pending jobs.
use std::collections::VecDeque;
use vstd::prelude::*;

verus! {

/// Pending items, oldest at the head. Insertion never fails and never waits.
pub struct JobQueue<J> {
    items: VecDeque<J>,
}

impl<J> View for JobQueue<J> {
    type V = Seq<J>;

    closed spec fn view(&self) -> Seq<J> {
        self.items@
    }
}

impl<J> JobQueue<J> {
    /// An empty queue.
    pub fn new() -> (r: Self)
        ensures
            r@ == Seq::<J>::empty(),
    {
        JobQueue { items: VecDeque::new() }
    }

    /// Puts `job` at the tail.
    pub fn enqueue(&mut self, job: J)
        ensures
            final(self)@ == old(self)@.push(job),
    {
        self.items.push_back(job);
    }

    /// Removes and returns the job at the head, or returns `None` and leaves
    /// the queue as it is when there is none.
    pub fn dequeue(&mut self) -> (r: Option<J>)
        ensures
            old(self)@.len() == 0 ==> r is None && final(self)@ == old(self)@,
            old(self)@.len() > 0 ==> r == Some(old(self)@[0]) && final(self)@ == old(self)@.drop_first(),
    {
        let r = self.items.pop_front();
        proof {
            if old(self)@.len() > 0 {
                assert(self@ =~= old(self)@.drop_first());
            }
        }
        r
    }

    /// How many jobs are pending.
    pub fn len(&self) -> (r: usize)
        ensures
            r == self@.len(),
    {
        self.items.len()
    }

    /// Whether no job is pending.
    pub fn is_empty(&self) -> (r: bool)
        ensures
            r == (self@.len() == 0),
    {
        self.items.len() == 0
    }
}

} // verus!
