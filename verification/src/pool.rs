//! A bounded pool of places with a waiting line, first come first served.
//!
//! The dispatcher keeps two: the slots in which jobs execute, and the layer
//! builds that may run at once.

use crate::ids::JobId;
use crate::seq_util::{
    lemma_push_distinct, lemma_remove_distinct, lemma_without, position_of_job, without,
};
use vstd::prelude::*;

verus! {

/// The pool as a mathematical object: its size, the jobs that hold a place,
/// and the jobs that wait for one, the longest waiting first.
pub struct PoolView {
    pub limit: nat,
    pub running: Seq<JobId>,
    pub queue: Seq<JobId>,
}

impl PoolView {
    /// No place is given out twice or beyond the limit, and nobody waits
    /// while a place is free.
    pub open spec fn wf(self) -> bool {
        &&& self.running.len() <= self.limit
        &&& self.queue.len() > 0 ==> self.running.len() == self.limit
        &&& self.running.no_duplicates()
        &&& self.queue.no_duplicates()
        &&& forall|j: JobId| !(self.running.contains(j) && self.queue.contains(j))
    }

    /// Whether `j` holds a place or waits for one.
    pub open spec fn contains(self, j: JobId) -> bool {
        self.running.contains(j) || self.queue.contains(j)
    }

    /// The places in use.
    pub open spec fn in_use(self) -> nat {
        self.running.len()
    }

    /// The places that are free.
    pub open spec fn available(self) -> int {
        self.limit - self.running.len()
    }

    /// The pool after `j` has asked for a place: it gets one if one is free,
    /// else it joins the end of the line.
    pub open spec fn submit(self, j: JobId) -> PoolView {
        if self.running.len() < self.limit {
            PoolView { running: self.running.push(j), ..self }
        } else {
            PoolView { queue: self.queue.push(j), ..self }
        }
    }

    /// Whether `j` gets a place at once when it asks.
    pub open spec fn starts_at_once(self) -> bool {
        self.running.len() < self.limit
    }

    /// The job that gets the place when a place is given back, if any waits.
    pub open spec fn next(self) -> Option<JobId> {
        if self.queue.len() > 0 {
            Some(self.queue[0])
        } else {
            None
        }
    }

    /// The pool after `j` has given its place back: the job that has waited
    /// longest, if any, takes it. If `j` holds no place nothing changes.
    pub open spec fn release(self, j: JobId) -> PoolView {
        if self.running.contains(j) {
            if self.queue.len() > 0 {
                PoolView {
                    running: without(self.running, j).push(self.queue[0]),
                    queue: self.queue.drop_first(),
                    ..self
                }
            } else {
                PoolView { running: without(self.running, j), ..self }
            }
        } else {
            self
        }
    }

    /// The pool after `j` has left the line. The order of the others is kept.
    pub open spec fn withdraw(self, j: JobId) -> PoolView {
        PoolView { queue: without(self.queue, j), ..self }
    }

    /// Asking for a place keeps the pool well formed.
    pub proof fn lemma_submit(self, j: JobId)
        requires
            self.wf(),
            !self.contains(j),
        ensures
            self.submit(j).wf(),
            self.submit(j).in_use() + self.submit(j).available() == self.limit,
            forall|x: JobId| #[trigger] self.submit(j).contains(x) <==> self.contains(x) || x == j,
            forall|x: JobId| #[trigger]
                self.submit(j).running.contains(x) <==> self.running.contains(x) || (x == j
                    && self.starts_at_once()),
            forall|x: JobId| #[trigger]
                self.submit(j).queue.contains(x) <==> self.queue.contains(x) || (x == j
                    && !self.starts_at_once()),
    {
        if self.running.len() < self.limit {
            lemma_push_distinct(self.running, j);
        } else {
            lemma_push_distinct(self.queue, j);
        }
    }

    /// Giving a place back keeps the pool well formed, and the place goes to
    /// the head of the line.
    pub proof fn lemma_release(self, j: JobId)
        requires
            self.wf(),
        ensures
            self.release(j).wf(),
            self.release(j).in_use() + self.release(j).available() == self.limit,
            forall|x: JobId| #[trigger]
                self.release(j).running.contains(x) <==> (self.running.contains(x) && x != j) || (
                self.running.contains(j) && self.next() == Some(x)),
            forall|x: JobId| #[trigger]
                self.release(j).queue.contains(x) <==> self.queue.contains(x) && !(
                self.running.contains(j) && self.next() == Some(x)),
    {
        if self.running.contains(j) {
            lemma_without(self.running, j);
            let k = self.running.index_of(j);
            assert(self.running[k] == j);
            let w = without(self.running, j);
            assert(w.len() == self.running.len() - 1);
            if self.queue.len() > 0 {
                let h = self.queue[0];
                assert(self.queue.contains(h));
                assert(!self.running.contains(h));
                lemma_push_distinct(w, h);
                assert(self.queue.drop_first() =~= self.queue.remove(0));
                lemma_remove_distinct(self.queue, 0);
            }
        }
    }

    /// Leaving the line keeps the pool well formed.
    pub proof fn lemma_withdraw(self, j: JobId)
        requires
            self.wf(),
        ensures
            self.withdraw(j).wf(),
            self.withdraw(j).running == self.running,
            forall|x: JobId| #[trigger]
                self.withdraw(j).queue.contains(x) <==> self.queue.contains(x) && x != j,
    {
        lemma_without(self.queue, j);
        if self.queue.contains(j) {
            let k = self.queue.index_of(j);
            assert(self.queue[k] == j);
        }
    }
}

/// A bounded pool of places with a waiting line.
pub struct Pool {
    limit: usize,
    running: Vec<JobId>,
    queue: Vec<JobId>,
}

impl View for Pool {
    type V = PoolView;

    closed spec fn view(&self) -> PoolView {
        PoolView { limit: self.limit as nat, running: self.running@, queue: self.queue@ }
    }
}

impl Pool {
    /// A pool of `limit` places, all free, with nobody waiting.
    pub fn new(limit: usize) -> (p: Pool)
        ensures
            p@.wf(),
            p@ == (PoolView { limit: limit as nat, running: Seq::empty(), queue: Seq::empty() }),
    {
        Pool { limit, running: Vec::new(), queue: Vec::new() }
    }

    /// The number of places.
    pub fn limit(&self) -> (n: usize)
        ensures
            n == self@.limit,
    {
        self.limit
    }

    /// The number of places in use.
    pub fn in_use(&self) -> (n: usize)
        ensures
            n == self@.in_use(),
    {
        self.running.len()
    }

    /// The number of free places.
    pub fn available(&self) -> (n: usize)
        requires
            self@.wf(),
        ensures
            n == self@.available(),
            n + self@.in_use() == self@.limit,
    {
        self.limit - self.running.len()
    }

    /// The number of jobs that wait for a place.
    pub fn waiting(&self) -> (n: usize)
        ensures
            n == self@.queue.len(),
    {
        self.queue.len()
    }

    /// Whether `job` holds a place.
    pub fn is_running(&self, job: JobId) -> (b: bool)
        ensures
            b == self@.running.contains(job),
    {
        position_of_job(&self.running, job).is_some()
    }

    /// Whether `job` waits for a place.
    pub fn is_queued(&self, job: JobId) -> (b: bool)
        ensures
            b == self@.queue.contains(job),
    {
        position_of_job(&self.queue, job).is_some()
    }

    /// Asks for a place for `job`. Returns whether it got one at once; if
    /// not, it has joined the end of the line.
    pub fn submit(&mut self, job: JobId) -> (started: bool)
        requires
            old(self)@.wf(),
            !old(self)@.contains(job),
        ensures
            final(self)@.wf(),
            final(self)@ == old(self)@.submit(job),
            started == old(self)@.starts_at_once(),
    {
        proof {
            self@.lemma_submit(job);
        }
        if self.running.len() < self.limit {
            self.running.push(job);
            true
        } else {
            self.queue.push(job);
            false
        }
    }

    /// Gives back the place of `job`. The job that has waited longest, if
    /// any, takes the place and is returned. If `job` holds no place nothing
    /// changes and nobody is returned.
    pub fn release(&mut self, job: JobId) -> (next: Option<JobId>)
        requires
            old(self)@.wf(),
        ensures
            final(self)@.wf(),
            final(self)@ == old(self)@.release(job),
            next == if old(self)@.running.contains(job) {
                old(self)@.next()
            } else {
                None
            },
    {
        proof {
            self@.lemma_release(job);
        }
        match position_of_job(&self.running, job) {
            None => None,
            Some(k) => {
                proof {
                    lemma_remove_distinct(self.running@, k as int);
                }
                self.running.remove(k);
                if self.queue.len() > 0 {
                    let head = self.queue.remove(0);
                    assert(self.queue@ =~= old(self)@.queue.drop_first());
                    self.running.push(head);
                    Some(head)
                } else {
                    None
                }
            },
        }
    }

    /// Takes `job` out of the line. Returns whether it was there.
    pub fn withdraw(&mut self, job: JobId) -> (was_queued: bool)
        requires
            old(self)@.wf(),
        ensures
            final(self)@.wf(),
            final(self)@ == old(self)@.withdraw(job),
            was_queued == old(self)@.queue.contains(job),
    {
        proof {
            self@.lemma_withdraw(job);
        }
        match position_of_job(&self.queue, job) {
            None => false,
            Some(k) => {
                proof {
                    lemma_remove_distinct(self.queue@, k as int);
                }
                self.queue.remove(k);
                true
            },
        }
    }

    /// Empties the pool: every place is free and nobody waits.
    pub fn clear(&mut self)
        ensures
            final(self)@.wf(),
            final(self)@ == (PoolView {
                limit: old(self)@.limit,
                running: Seq::empty(),
                queue: Seq::empty(),
            }),
    {
        self.running.clear();
        self.queue.clear();
    }
}

/// One operation on a pool.
pub enum PoolOp {
    /// The job asks for a place.
    Submit(JobId),
    /// The job gives its place back.
    Release(JobId),
    /// The job leaves the line.
    Withdraw(JobId),
}

impl PoolView {
    /// The pool after one operation.
    pub open spec fn step(self, op: PoolOp) -> PoolView {
        match op {
            PoolOp::Submit(j) => self.submit(j),
            PoolOp::Release(j) => self.release(j),
            PoolOp::Withdraw(j) => self.withdraw(j),
        }
    }

    /// Whether the operation may be applied: a job asks for a place only
    /// while it has none and does not wait for one.
    pub open spec fn admits(self, op: PoolOp) -> bool {
        match op {
            PoolOp::Submit(j) => !self.contains(j),
            _ => true,
        }
    }
}

/// Whether `a` stands before `b` in the line.
pub open spec fn precedes(line: Seq<JobId>, a: JobId, b: JobId) -> bool {
    exists|i: int, k: int| 0 <= i < k < line.len() && line[i] == a && line[k] == b
}

/// Conservation of places: after every operation the places in use and the
/// free places add up to the size of the pool, which never changes, and
/// nobody waits while a place is free.
pub proof fn law_places_conserved(p: PoolView, op: PoolOp)
    requires
        p.wf(),
        p.admits(op),
    ensures
        p.step(op).wf(),
        p.step(op).limit == p.limit,
        p.step(op).in_use() + p.step(op).available() == p.limit,
        p.step(op).available() >= 0,
        p.step(op).queue.len() > 0 ==> p.step(op).available() == 0,
{
    match op {
        PoolOp::Submit(j) => {
            p.lemma_submit(j);
        },
        PoolOp::Release(j) => {
            p.lemma_release(j);
        },
        PoolOp::Withdraw(j) => {
            p.lemma_withdraw(j);
        },
    }
}

/// First come, first served. If `a` stands before `b` in the line, then
/// after any operation `b` has no place while `a` still waits, and if both
/// still wait `a` still stands before `b`.
pub proof fn law_first_come_first_served(p: PoolView, op: PoolOp, a: JobId, b: JobId)
    requires
        p.wf(),
        p.admits(op),
        precedes(p.queue, a, b),
    ensures
        !(p.step(op).running.contains(b) && p.step(op).queue.contains(a)),
        p.step(op).queue.contains(a) && p.step(op).queue.contains(b) ==> precedes(
            p.step(op).queue,
            a,
            b,
        ),
{
    let (i, k) = choose|i: int, k: int|
        0 <= i < k < p.queue.len() && p.queue[i] == a && p.queue[k] == b;
    let q = p.step(op);
    assert(p.queue.contains(a) && p.queue.contains(b));
    assert(a != b);
    match op {
        PoolOp::Submit(j) => {
            p.lemma_submit(j);
            if p.running.len() < p.limit {
            } else {
                assert(q.queue[i] == a && q.queue[k] == b);
            }
        },
        PoolOp::Release(j) => {
            p.lemma_release(j);
            if p.running.contains(j) {
                assert(p.queue.len() > 0);
                if i == 0 {
                    assert(p.next() == Some(a));
                } else {
                    assert(q.queue[i - 1] == a && q.queue[k - 1] == b);
                }
            } else {
                assert(q.queue[i] == a && q.queue[k] == b);
            }
        },
        PoolOp::Withdraw(j) => {
            p.lemma_withdraw(j);
            if p.queue.contains(j) {
                let m = p.queue.index_of(j);
                assert(p.queue[m] == j);
                if j != a && j != b {
                    let i2 = if i < m { i } else { i - 1 };
                    let k2 = if k < m { k } else { k - 1 };
                    assert(q.queue[i2] == a && q.queue[k2] == b);
                }
            } else {
                assert(q.queue[i] == a && q.queue[k] == b);
            }
        },
    }
}

/// A job that asks for a place while none is free goes to the end of the
/// line, behind everybody who already waits.
pub proof fn law_newcomer_is_last(p: PoolView, j: JobId, a: JobId)
    requires
        p.wf(),
        !p.contains(j),
        !p.starts_at_once(),
        p.queue.contains(a),
    ensures
        precedes(p.submit(j).queue, a, j),
{
    let i = p.queue.index_of(a);
    let q = p.submit(j).queue;
    assert(q[i] == a && q[p.queue.len() as int] == j);
}

} // verus!
