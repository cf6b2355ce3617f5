use std::cell::Cell;
use std::rc::Rc;
use webserver::{Dispatcher, JobQueue};

type Job = Box<dyn FnOnce()>;

fn counting_job(counter: &Rc<Cell<u32>>) -> Job {
    let c = Rc::clone(counter);
    Box::new(move || c.set(c.get() + 1))
}

/// Lets each idle worker take a job and then run every job taken, as one
/// round of a pool whose workers run side by side; returns how many ran.
fn run_round(d: &mut Dispatcher<Job>) -> usize {
    let mut taken = Vec::new();
    for w in 0..d.size() {
        if d.running_job(w).is_none() {
            if let Some(job) = d.take(w) {
                taken.push((w, job));
            }
        }
    }
    let n = taken.len();
    for (w, job) in taken {
        job();
        d.finish(w);
    }
    n
}

#[test]
fn queue_is_first_in_first_out() {
    let mut q = JobQueue::new();
    assert!(q.is_empty());
    q.enqueue(1);
    q.enqueue(2);
    q.enqueue(3);
    assert_eq!(q.len(), 3);
    assert_eq!(q.dequeue(), Some(1));
    q.enqueue(4);
    assert_eq!(q.dequeue(), Some(2));
    assert_eq!(q.dequeue(), Some(3));
    assert_eq!(q.dequeue(), Some(4));
    assert_eq!(q.dequeue(), None);
    assert!(q.is_empty());
}

#[test]
fn new_pool_has_requested_idle_workers() {
    for n in [1usize, 2, 4, 16] {
        let d: Dispatcher<u32> = Dispatcher::new(n);
        assert_eq!(d.size(), n);
        assert_eq!(d.pending_len(), 0);
        assert_eq!(d.submitted(), 0);
        assert_eq!(d.completed(), 0);
        for w in 0..n {
            assert_eq!(d.running_job(w), None);
        }
    }
}

#[test]
fn submit_hands_out_tickets_in_order() {
    let mut d: Dispatcher<&str> = Dispatcher::new(2);
    assert_eq!(d.submit("a"), 0);
    assert_eq!(d.submit("b"), 1);
    assert_eq!(d.submit("c"), 2);
    assert_eq!(d.pending_len(), 3);
    assert_eq!(d.submitted(), 3);
}

#[test]
fn workers_take_jobs_in_submission_order() {
    let mut d: Dispatcher<&str> = Dispatcher::new(3);
    d.submit("a");
    d.submit("b");
    assert_eq!(d.take(2), Some("a"));
    assert_eq!(d.running_job(2), Some(0));
    assert_eq!(d.take(0), Some("b"));
    assert_eq!(d.running_job(0), Some(1));
    assert_eq!(d.take(1), None);
    assert_eq!(d.running_job(1), None);
    assert_eq!(d.pending_len(), 0);
}

#[test]
fn finishing_frees_the_worker_and_counts_the_job() {
    let mut d: Dispatcher<u8> = Dispatcher::new(1);
    d.submit(7);
    d.submit(8);
    assert_eq!(d.take(0), Some(7));
    d.finish(0);
    assert_eq!(d.running_job(0), None);
    assert_eq!(d.completed(), 1);
    assert_eq!(d.take(0), Some(8));
    d.finish(0);
    assert_eq!(d.completed(), 2);
}

#[test]
fn every_worker_runs_a_job_at_once() {
    let n = 4;
    let mut d: Dispatcher<u32> = Dispatcher::new(n);
    for j in 0..n as u32 {
        d.submit(j);
    }
    for w in 0..n {
        assert_eq!(d.take(w), Some(w as u32));
    }
    let running = (0..n).filter(|&w| d.running_job(w).is_some()).count();
    assert_eq!(running, n);
    for w in 0..n {
        assert_eq!(d.running_job(w), Some(w as u64));
    }
}

#[test]
fn no_job_is_lost_or_run_twice() {
    let counter = Rc::new(Cell::new(0));
    let mut d: Dispatcher<Job> = Dispatcher::new(3);
    let m = 37;
    for _ in 0..m {
        d.submit(counting_job(&counter));
    }
    while d.pending_len() > 0 {
        run_round(&mut d);
    }
    assert_eq!(counter.get(), m);
    assert_eq!(d.completed(), m as u64);
    assert_eq!(d.submitted(), m as u64);
}

#[test]
fn no_two_workers_hold_the_same_job() {
    let mut d: Dispatcher<u32> = Dispatcher::new(5);
    for j in 0..40 {
        d.submit(j);
    }
    for step in 0..200usize {
        let w = (step * 7 + 3) % 5;
        if d.running_job(w).is_some() {
            d.finish(w);
        } else {
            d.take(w);
        }
        let held: Vec<u64> = (0..5).filter_map(|v| d.running_job(v)).collect();
        let mut uniq = held.clone();
        uniq.sort();
        uniq.dedup();
        assert_eq!(uniq.len(), held.len());
    }
}

#[test]
fn submitting_while_all_workers_are_busy() {
    let mut d: Dispatcher<u32> = Dispatcher::new(2);
    d.submit(0);
    d.submit(1);
    d.take(0);
    d.take(1);
    for j in 2..1000 {
        assert_eq!(d.submit(j), j as u64);
    }
    assert_eq!(d.pending_len(), 998);
}

#[test]
fn four_workers_run_a_hundred_jobs_in_twenty_five_rounds() {
    let counter = Rc::new(Cell::new(0));
    let mut d: Dispatcher<Job> = Dispatcher::new(4);
    for _ in 0..100 {
        d.submit(counting_job(&counter));
    }
    let mut rounds = 0;
    while d.pending_len() > 0 {
        assert_eq!(run_round(&mut d), 4);
        rounds += 1;
    }
    assert_eq!(rounds, 25);
    assert_eq!(counter.get(), 100);
    assert_eq!(d.completed(), 100);
}
