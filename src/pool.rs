//! The dispatch core of a fixed-size worker pool: it owns the job queue and
//! the state of every worker, and decides which job each worker runs. The
//! threads that run the jobs call into it while holding its lock.
use crate::model::{all_idle, finish, init, inv, is_idle, is_running, submit, take, PoolState};
use crate::queue::JobQueue;
use vstd::prelude::*;

verus! {

/// The ticket of a ticketed job.
pub open spec fn ticket_of<J>(p: (u64, J)) -> nat {
    p.0 as nat
}

/// The job of a ticketed job.
pub open spec fn job_of<J>(p: (u64, J)) -> J {
    p.1
}

/// A worker's state with its ticket as a mathematical integer.
pub open spec fn slot_view(o: Option<u64>) -> Option<nat> {
    match o {
        Some(t) => Some(t as nat),
        None => None,
    }
}

/// A pool's jobs and workers. Each job gets a ticket when it is submitted;
/// a worker is idle (`None`) or runs the job of one ticket.
pub struct Dispatcher<J> {
    queue: JobQueue<(u64, J)>,
    workers: Vec<Option<u64>>,
    submitted: u64,
    completed: u64,
    finished: Ghost<Set<nat>>,
}

impl<J> Dispatcher<J> {
    /// The abstract state: queued tickets, worker states, finished tickets.
    pub closed spec fn state(&self) -> PoolState {
        PoolState {
            pending: self.queue@.map_values(|p: (u64, J)| ticket_of(p)),
            workers: self.workers@.map_values(|o: Option<u64>| slot_view(o)),
            finished: self.finished@,
            submitted: self.submitted as nat,
        }
    }

    /// The queued jobs, oldest first.
    pub closed spec fn jobs(&self) -> Seq<J> {
        self.queue@.map_values(|p: (u64, J)| job_of(p))
    }

    /// How many jobs have run to completion.
    pub closed spec fn completed_count(&self) -> nat {
        self.completed as nat
    }

    /// The abstract state keeps its bookkeeping and the counters agree with it.
    pub closed spec fn wf(&self) -> bool {
        &&& inv(self.state())
        &&& self.finished@.finite()
        &&& self.completed as nat == self.finished@.len()
    }

    /// What well-formedness gives a caller.
    pub proof fn lemma_wf(&self)
        requires
            self.wf(),
        ensures
            inv(self.state()),
            self.completed_count() == self.state().finished.len(),
            self.jobs().len() == self.state().pending.len(),
    {
    }

    /// A pool of `size` workers, all idle, with nothing queued.
    pub fn new(size: usize) -> (r: Self)
        requires
            size > 0,
        ensures
            r.wf(),
            r.state() == init(size as nat),
            r.jobs() == Seq::<J>::empty(),
            r.completed_count() == 0,
    {
        let mut workers: Vec<Option<u64>> = Vec::with_capacity(size);
        let mut i: usize = 0;
        while i < size
            invariant
                i <= size,
                workers@.len() == i,
                forall|w: int| 0 <= w < i ==> #[trigger] workers@[w] is None,
            decreases size - i,
        {
            workers.push(None);
            i = i + 1;
        }
        let r = Dispatcher {
            queue: JobQueue::new(),
            workers,
            submitted: 0,
            completed: 0,
            finished: Ghost(Set::empty()),
        };
        proof {
            assert(r.state().pending =~= Seq::<nat>::empty());
            assert(r.state().workers =~= init(size as nat).workers);
            assert(r.jobs() =~= Seq::<J>::empty());
            crate::model::lemma_init_inv(size as nat);
        }
        r
    }

    /// Queues `job` behind every job submitted before it, whatever the workers
    /// are doing, and returns its ticket. This never waits and never fails.
    pub fn submit(&mut self, job: J) -> (t: u64)
        requires
            old(self).wf(),
            old(self).state().submitted < u64::MAX,
        ensures
            final(self).wf(),
            final(self).state() == submit(old(self).state()),
            final(self).jobs() == old(self).jobs().push(job),
            final(self).completed_count() == old(self).completed_count(),
            t == old(self).state().submitted,
    {
        let t = self.submitted;
        self.queue.enqueue((t, job));
        self.submitted = t + 1;
        proof {
            crate::model::lemma_submit_inv(old(self).state());
            assert(self.state().pending =~= submit(old(self).state()).pending);
            assert(self.jobs() =~= old(self).jobs().push(job));
        }
        t
    }

    /// Idle worker `worker` takes the job at the head of the queue, if there
    /// is one, and from then on runs it.
    pub fn take(&mut self, worker: usize) -> (r: Option<J>)
        requires
            old(self).wf(),
            is_idle(old(self).state(), worker as int),
        ensures
            final(self).wf(),
            final(self).state() == take(old(self).state(), worker as int),
            final(self).completed_count() == old(self).completed_count(),
            old(self).jobs().len() == 0 ==> r is None && final(self).jobs() == old(self).jobs(),
            old(self).jobs().len() > 0 ==> r == Some(old(self).jobs()[0]) && final(self).jobs()
                == old(self).jobs().drop_first(),
    {
        proof {
            crate::model::lemma_take_inv(old(self).state(), worker as int);
        }
        match self.queue.dequeue() {
            None => None,
            Some(p) => {
                let (t, job) = p;
                self.workers.set(worker, Some(t));
                proof {
                    assert(self.state().pending =~= take(old(self).state(), worker as int).pending);
                    assert(self.state().workers =~= take(old(self).state(), worker as int).workers);
                    assert(self.jobs() =~= old(self).jobs().drop_first());
                }
                Some(job)
            },
        }
    }

    /// Worker `worker` has run its job to completion and is idle again.
    pub fn finish(&mut self, worker: usize)
        requires
            old(self).wf(),
            is_running(old(self).state(), worker as int),
        ensures
            final(self).wf(),
            final(self).state() == finish(old(self).state(), worker as int),
            final(self).jobs() == old(self).jobs(),
            final(self).completed_count() == old(self).completed_count() + 1,
    {
        let ghost s = old(self).state();
        let ghost t0: nat = s.workers[worker as int].unwrap();
        proof {
            crate::model::lemma_finish_inv(s, worker as int);
            assert(crate::model::runs(s, worker as int, t0));
            assert(s.finished.subset_of(crate::model::tickets_below(s.submitted).remove(t0)));
            crate::model::lemma_tickets_below_len(s.submitted);
            vstd::set_lib::lemma_len_subset(
                s.finished,
                crate::model::tickets_below(s.submitted).remove(t0),
            );
        }
        self.workers.set(worker, None);
        self.completed = self.completed + 1;
        self.finished = Ghost(self.finished@.insert(t0));
        proof {
            assert(self.state().workers =~= finish(s, worker as int).workers);
        }
    }

    /// No job is lost or run twice: once the queue is empty and every worker
    /// is idle, as many jobs have completed as were submitted.
    pub proof fn lemma_drained_completed_all(&self)
        requires
            self.wf(),
            self.state().pending.len() == 0,
            all_idle(self.state()),
        ensures
            self.completed_count() == self.state().submitted,
    {
        crate::model::lemma_drained_pool_ran_every_job(self.state());
    }

    /// How many workers the pool has.
    pub fn size(&self) -> (r: usize)
        ensures
            r == self.state().workers.len(),
    {
        self.workers.len()
    }

    /// How many jobs wait in the queue.
    pub fn pending_len(&self) -> (r: usize)
        requires
            self.wf(),
        ensures
            r == self.state().pending.len(),
            r == self.jobs().len(),
    {
        self.queue.len()
    }

    /// How many jobs were submitted.
    pub fn submitted(&self) -> (r: u64)
        ensures
            r == self.state().submitted,
    {
        self.submitted
    }

    /// How many jobs have run to completion.
    pub fn completed(&self) -> (r: u64)
        ensures
            r == self.completed_count(),
    {
        self.completed
    }

    /// The ticket of the job that worker `worker` runs, or `None` while it is
    /// idle.
    pub fn running_job(&self, worker: usize) -> (r: Option<u64>)
        requires
            worker < self.state().workers.len(),
        ensures
            slot_view(r) == self.state().workers[worker as int],
    {
        self.workers[worker]
    }
}

} // verus!
