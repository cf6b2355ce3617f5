//! The abstract state of a worker pool and its four transitions: creation,
//! submission of a job, a worker taking the next job, and a worker finishing
//! the job it holds. Jobs are named by tickets, handed out in submission order.
use vstd::prelude::*;

verus! {

/// What the pool holds at one instant.
pub struct PoolState {
    /// Tickets of the jobs waiting in the queue, oldest first.
    pub pending: Seq<nat>,
    /// For each worker, the ticket of the job it runs, or `None` while idle.
    pub workers: Seq<Option<nat>>,
    /// Tickets of the jobs that have run to completion.
    pub finished: Set<nat>,
    /// How many jobs were submitted; the tickets in use are `0..submitted`.
    pub submitted: nat,
}

/// A fresh pool of `n` workers: all idle, nothing queued.
pub open spec fn init(n: nat) -> PoolState {
    PoolState {
        pending: Seq::empty(),
        workers: Seq::new(n, |i: int| None),
        finished: Set::empty(),
        submitted: 0,
    }
}

/// A new job joins the tail of the queue under the next ticket.
pub open spec fn submit(s: PoolState) -> PoolState {
    PoolState { pending: s.pending.push(s.submitted), submitted: s.submitted + 1, ..s }
}

/// Worker `w` takes the job at the head of the queue, if there is one.
pub open spec fn take(s: PoolState, w: int) -> PoolState {
    if s.pending.len() == 0 {
        s
    } else {
        PoolState {
            pending: s.pending.drop_first(),
            workers: s.workers.update(w, Some(s.pending[0])),
            ..s
        }
    }
}

/// Worker `w` finishes the job it runs and becomes idle.
pub open spec fn finish(s: PoolState, w: int) -> PoolState {
    PoolState {
        workers: s.workers.update(w, None),
        finished: s.finished.insert(s.workers[w].unwrap()),
        ..s
    }
}

/// Whether worker `w` exists and is idle.
pub open spec fn is_idle(s: PoolState, w: int) -> bool {
    0 <= w < s.workers.len() && s.workers[w] is None
}

/// Whether worker `w` exists and runs a job.
pub open spec fn is_running(s: PoolState, w: int) -> bool {
    0 <= w < s.workers.len() && s.workers[w] is Some
}

/// Whether worker `w` runs the job with ticket `t`.
pub open spec fn runs(s: PoolState, w: int, t: nat) -> bool {
    0 <= w < s.workers.len() && s.workers[w] == Some(t)
}

/// Whether every worker is idle.
pub open spec fn all_idle(s: PoolState) -> bool {
    forall|w: int| 0 <= w < s.workers.len() ==> #[trigger] s.workers[w] is None
}

/// How many of the first `k` workers run a job.
pub open spec fn running_among(workers: Seq<Option<nat>>, k: nat) -> nat
    decreases k,
{
    if k == 0 {
        0
    } else {
        running_among(workers, (k - 1) as nat) + if workers[k - 1] is Some {
            1nat
        } else {
            0nat
        }
    }
}

/// How many workers run a job.
pub open spec fn running_count(s: PoolState) -> nat {
    running_among(s.workers, s.workers.len())
}

/// The bookkeeping that every reachable state keeps:
/// each submitted ticket sits in exactly one place (queued once, run by one
/// worker, or finished), no other ticket appears, and the queue keeps the
/// order of submission.
pub open spec fn inv(s: PoolState) -> bool {
    &&& s.workers.len() > 0
    &&& forall|i: int, j: int|
        0 <= i < j < s.pending.len() ==> #[trigger] s.pending[i] < #[trigger] s.pending[j]
    &&& forall|i: int| 0 <= i < s.pending.len() ==> #[trigger] s.pending[i] < s.submitted
    &&& forall|w: int, t: nat| #[trigger] runs(s, w, t) ==> t < s.submitted
    &&& forall|t: nat| #[trigger] s.finished.contains(t) ==> t < s.submitted
    &&& forall|v: int, w: int, t: nat| #[trigger] runs(s, v, t) && #[trigger] runs(s, w, t) ==> v == w
    &&& forall|w: int, t: nat| #[trigger] runs(s, w, t) ==> !s.pending.contains(t)
    &&& forall|w: int, t: nat| #[trigger] runs(s, w, t) ==> !s.finished.contains(t)
    &&& forall|t: nat| #[trigger] s.finished.contains(t) ==> !s.pending.contains(t)
    &&& forall|t: nat|
        t < s.submitted ==> #[trigger] s.pending.contains(t) || s.finished.contains(t) || exists|
            w: int,
        | runs(s, w, t)
}

/// A fresh pool of at least one worker keeps the bookkeeping.
pub proof fn lemma_init_inv(n: nat)
    requires
        n > 0,
    ensures
        inv(init(n)),
        init(n).workers.len() == n,
        all_idle(init(n)),
{
}

/// Submitting keeps the bookkeeping, and whatever the workers are doing, the
/// job is queued behind all earlier ones.
pub proof fn lemma_submit_inv(s: PoolState)
    requires
        inv(s),
    ensures
        inv(submit(s)),
        submit(s).pending.last() == s.submitted,
        submit(s).workers == s.workers,
{
    let s2 = submit(s);
    assert forall|i: int, j: int| 0 <= i < j < s2.pending.len() implies #[trigger] s2.pending[i]
        < #[trigger] s2.pending[j] by {
        if j == s.pending.len() {
            assert(s.pending[i] < s.submitted);
        }
    }
    assert forall|w: int, t: nat| #[trigger] runs(s2, w, t) implies t < s2.submitted
        && !s2.finished.contains(t) by {
        assert(runs(s, w, t));
    }
    assert forall|v: int, w: int, t: nat| #[trigger] runs(s2, v, t) && #[trigger] runs(s2, w, t)
        implies v == w by {
        assert(runs(s, v, t) && runs(s, w, t));
    }
    assert forall|t: nat| t < s2.submitted implies #[trigger] s2.pending.contains(t)
        || s2.finished.contains(t) || exists|w: int| runs(s2, w, t) by {
        if t == s.submitted {
            assert(s2.pending[s2.pending.len() - 1] == t);
        } else if s.pending.contains(t) {
            let i = choose|i: int| 0 <= i < s.pending.len() && s.pending[i] == t;
            assert(s2.pending[i] == t);
        } else if !s.finished.contains(t) {
            let w = choose|w: int| runs(s, w, t);
            assert(runs(s2, w, t));
        }
    }
    assert forall|w: int, t: nat| #[trigger] runs(s2, w, t) implies !s2.pending.contains(t) by {
        assert(runs(s, w, t));
        if s2.pending.contains(t) {
            let i = choose|i: int| 0 <= i < s2.pending.len() && s2.pending[i] == t;
            if i < s.pending.len() {
                assert(s.pending[i] == t);
            }
        }
    }
    assert forall|t: nat| #[trigger] s2.finished.contains(t) implies !s2.pending.contains(t) by {
        if s2.pending.contains(t) {
            let i = choose|i: int| 0 <= i < s2.pending.len() && s2.pending[i] == t;
            if i < s.pending.len() {
                assert(s.pending[i] == t);
            }
        }
    }
}

/// An idle worker taking the next job keeps the bookkeeping; it then runs
/// the job that was at the head of the queue.
pub proof fn lemma_take_inv(s: PoolState, w: int)
    requires
        inv(s),
        is_idle(s, w),
    ensures
        inv(take(s, w)),
        s.pending.len() > 0 ==> runs(take(s, w), w, s.pending[0]),
        s.pending.len() == 0 ==> take(s, w) == s,
{
    if s.pending.len() > 0 {
        let s2 = take(s, w);
        let h = s.pending[0];
        assert(s.pending.contains(h));
        assert forall|i: int, j: int| 0 <= i < j < s2.pending.len() implies #[trigger] s2.pending[i]
            < #[trigger] s2.pending[j] by {
            assert(s.pending[i + 1] < s.pending[j + 1]);
        }
        assert forall|v: int, t: nat| #[trigger] runs(s2, v, t) implies !s2.pending.contains(t) by {
            if s2.pending.contains(t) {
                let i = choose|i: int| 0 <= i < s2.pending.len() && s2.pending[i] == t;
                assert(s.pending[i + 1] == t);
                assert(s.pending.contains(t));
                if v == w {
                    assert(s.pending[0] < s.pending[i + 1]);
                } else {
                    assert(runs(s, v, t));
                }
            }
        }
        assert forall|t: nat| #[trigger] s2.finished.contains(t) implies !s2.pending.contains(t) by {
            if s2.pending.contains(t) {
                let i = choose|i: int| 0 <= i < s2.pending.len() && s2.pending[i] == t;
                assert(s.pending[i + 1] == t);
                assert(s.pending.contains(t));
            }
        }
        assert forall|u: int, v: int, t: nat| #[trigger] runs(s2, u, t) && #[trigger] runs(s2, v, t)
            implies u == v by {
            if u != w && v != w {
                assert(runs(s, u, t) && runs(s, v, t));
            } else if u == w && v != w {
                assert(runs(s, v, t));
            } else if u != w && v == w {
                assert(runs(s, u, t));
            }
        }
        assert forall|v: int, t: nat| #[trigger] runs(s2, v, t) implies !s2.finished.contains(t) && t
            < s2.submitted by {
            if v != w {
                assert(runs(s, v, t));
            }
        }
        assert forall|t: nat| t < s2.submitted implies #[trigger] s2.pending.contains(t)
            || s2.finished.contains(t) || exists|v: int| runs(s2, v, t) by {
            if t == h {
                assert(runs(s2, w, t));
            } else if s.pending.contains(t) {
                let i = choose|i: int| 0 <= i < s.pending.len() && s.pending[i] == t;
                assert(i > 0);
                assert(s2.pending[i - 1] == t);
            } else if !s.finished.contains(t) {
                let v = choose|v: int| runs(s, v, t);
                assert(v != w);
                assert(runs(s2, v, t));
            }
        }
    }
}

/// A running worker finishing its job keeps the bookkeeping; the job is then
/// finished and the worker idle.
pub proof fn lemma_finish_inv(s: PoolState, w: int)
    requires
        inv(s),
        is_running(s, w),
    ensures
        inv(finish(s, w)),
        finish(s, w).finished.contains(s.workers[w].unwrap()),
        is_idle(finish(s, w), w),
{
    let s2 = finish(s, w);
    let t0 = s.workers[w].unwrap();
    assert(runs(s, w, t0));
    assert forall|v: int, t: nat| #[trigger] runs(s2, v, t) implies !s2.finished.contains(t) && t
        < s2.submitted && !s2.pending.contains(t) by {
        assert(runs(s, v, t));
        assert(v != w);
    }
    assert forall|u: int, v: int, t: nat| #[trigger] runs(s2, u, t) && #[trigger] runs(s2, v, t)
        implies u == v by {
        assert(runs(s, u, t) && runs(s, v, t));
    }
    assert forall|t: nat| t < s2.submitted implies #[trigger] s2.pending.contains(t)
        || s2.finished.contains(t) || exists|v: int| runs(s2, v, t) by {
        if !s.pending.contains(t) && !s.finished.contains(t) && t != t0 {
            let v = choose|v: int| runs(s, v, t);
            assert(v != w);
            assert(runs(s2, v, t));
        }
    }
}

/// The tickets `0..n`.
pub open spec fn tickets_below(n: nat) -> Set<nat> {
    Set::new(|t: nat| t < n)
}

/// There are exactly `n` tickets below `n`.
pub proof fn lemma_tickets_below_len(n: nat)
    ensures
        tickets_below(n).finite(),
        tickets_below(n).len() == n,
    decreases n,
{
    if n == 0 {
        assert(tickets_below(n) =~= Set::empty());
    } else {
        lemma_tickets_below_len((n - 1) as nat);
        assert(tickets_below((n - 1) as nat).insert((n - 1) as nat) =~= tickets_below(n));
    }
}

/// No job is lost or run twice: once the queue is empty and every worker is
/// idle, the finished jobs are exactly the submitted ones, as many as were
/// submitted.
pub proof fn lemma_drained_pool_ran_every_job(s: PoolState)
    requires
        inv(s),
        s.pending.len() == 0,
        all_idle(s),
    ensures
        s.finished == tickets_below(s.submitted),
        s.finished.len() == s.submitted,
{
    assert forall|t: nat| #[trigger] tickets_below(s.submitted).contains(t) implies s.finished.contains(
        t,
    ) by {
        if !s.finished.contains(t) {
            assert(!s.pending.contains(t));
            let w = choose|w: int| runs(s, w, t);
            assert(s.workers[w] is None);
        }
    }
    assert(s.finished =~= tickets_below(s.submitted));
    lemma_tickets_below_len(s.submitted);
}

/// No two workers ever run the same job.
pub proof fn lemma_no_job_on_two_workers(s: PoolState, v: int, w: int)
    requires
        inv(s),
        is_running(s, v),
        is_running(s, w),
        v != w,
    ensures
        s.workers[v] != s.workers[w],
{
    if s.workers[v] == s.workers[w] {
        assert(runs(s, v, s.workers[v].unwrap()) && runs(s, w, s.workers[v].unwrap()));
    }
}

/// `s` after `m` submissions.
pub open spec fn submit_times(s: PoolState, m: nat) -> PoolState
    decreases m,
{
    if m == 0 {
        s
    } else {
        submit(submit_times(s, (m - 1) as nat))
    }
}

/// `s` after workers `0`, `1`, ..., `k - 1` each take a job, in that order.
pub open spec fn take_each(s: PoolState, k: nat) -> PoolState
    decreases k,
{
    if k == 0 {
        s
    } else {
        take(take_each(s, (k - 1) as nat), k - 1)
    }
}

/// Submitting `m` jobs to a fresh pool queues tickets `0..m` in order.
pub proof fn lemma_submit_times_init(n: nat, m: nat)
    requires
        n > 0,
    ensures
        inv(submit_times(init(n), m)),
        submit_times(init(n), m).workers == init(n).workers,
        submit_times(init(n), m).pending.len() == m,
        submit_times(init(n), m).submitted == m,
        forall|i: int| 0 <= i < m ==> #[trigger] submit_times(init(n), m).pending[i] == i,
    decreases m,
{
    if m == 0 {
        lemma_init_inv(n);
    } else {
        let p = submit_times(init(n), (m - 1) as nat);
        lemma_submit_times_init(n, (m - 1) as nat);
        lemma_submit_inv(p);
    }
}

/// From a state with every worker idle and at least `k` queued jobs, workers
/// `0..k` taking a job each leaves worker `w` running the `w`th queued job.
pub proof fn lemma_take_each(s: PoolState, k: nat)
    requires
        inv(s),
        all_idle(s),
        k <= s.workers.len(),
        k <= s.pending.len(),
    ensures
        inv(take_each(s, k)),
        take_each(s, k).workers.len() == s.workers.len(),
        take_each(s, k).pending == s.pending.skip(k as int),
        forall|w: int| 0 <= w < k ==> runs(take_each(s, k), w, #[trigger] s.pending[w]),
        forall|w: int| k <= w < s.workers.len() ==> is_idle(take_each(s, k), w),
    decreases k,
{
    if k > 0 {
        let k1 = (k - 1) as nat;
        lemma_take_each(s, k1);
        let p = take_each(s, k1);
        assert(is_idle(p, k - 1));
        lemma_take_inv(p, k - 1);
        assert(p.pending[0] == s.pending[k - 1]);
        assert(take_each(s, k).pending =~= s.pending.skip(k as int));
        assert forall|w: int| 0 <= w < k implies runs(take_each(s, k), w, #[trigger] s.pending[w]) by {
            if w < k - 1 {
                assert(runs(p, w, s.pending[w]));
            }
        }
        assert forall|w: int| k <= w < s.workers.len() implies is_idle(take_each(s, k), w) by {
            assert(is_idle(p, w));
        }
    }
}

/// If the first `k` workers all run a job, `k` of them do.
pub proof fn lemma_running_among_all(workers: Seq<Option<nat>>, k: nat)
    requires
        k <= workers.len(),
        forall|w: int| 0 <= w < k ==> #[trigger] workers[w] is Some,
    ensures
        running_among(workers, k) == k,
    decreases k,
{
    if k > 0 {
        lemma_running_among_all(workers, (k - 1) as nat);
    }
}

/// Every one of the `n` workers of a fresh pool can run a job at the same
/// time: after `n` submissions, each worker taking a job leaves all `n`
/// running, worker `w` on the `w`th job submitted.
pub proof fn lemma_every_worker_runs_at_once(n: nat)
    requires
        n > 0,
    ensures
        running_count(take_each(submit_times(init(n), n), n)) == n,
        forall|w: int|
            0 <= w < n ==> #[trigger] take_each(submit_times(init(n), n), n).workers[w] == Some(
                w as nat,
            ),
{
    let s = submit_times(init(n), n);
    lemma_submit_times_init(n, n);
    let f = take_each(s, n);
    lemma_take_each(s, n);
    assert forall|w: int| 0 <= w < n implies #[trigger] f.workers[w] == Some(w as nat) by {
        assert(s.pending[w] == w);
    }
    assert forall|w: int| 0 <= w < n implies #[trigger] f.workers[w] is Some by {
        assert(f.workers[w] == Some(w as nat));
    }
    lemma_running_among_all(f.workers, n);
}

} // verus!
