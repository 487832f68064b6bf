//! The arrival of an artifact, and the failure of a fetch.

use crate::cache::GotArtifact;
use crate::cache_model::CacheView;
use crate::fs::Fs;
use crate::ids::{Digest, JobId};
use crate::job::{JobFailure, JobOutcome, JobStatus};
use crate::job_table::{find_job, holders, holds_one, Job, job_ids, job_wf, lemma_holders_update};
use crate::pool::PoolView;
use crate::seq_util::{lemma_remove_distinct, position_of_digest};
use super::retire::{lemma_ids_update, released, retire_actions};
use super::{Action, Dispatcher, jobs_wf, pools_ok, status_matches};
use vstd::prelude::*;

verus! {

/// How the record of a job changes when the artifact `d` arrives: the job
/// no longer waits for `d`, and if it waited for nothing else it goes on to
/// its layers.
pub open spec fn after_arrival(before: Job, after: Job, d: Digest) -> bool {
    &&& after.id == before.id
    &&& after.spec == before.spec
    &&& after.artifacts == before.artifacts
    &&& after.cancel_requested == before.cancel_requested
    &&& after.pending@ == crate::seq_util::without(before.pending@, d)
    &&& after.status == if before.pending@.contains(d) && before.pending@.len() == 1 {
        JobStatus::WaitingForLayers
    } else {
        before.status
    }
}

/// Whether the job `id` of the table waits for `d`.
pub open spec fn waits_for(jobs: Seq<Job>, id: JobId, d: Digest) -> bool {
    exists|i: int| 0 <= i < jobs.len() && (#[trigger] jobs[i]).id == id && jobs[i].pending@.contains(d)
}

/// Whether the job `id` of the table waits for `d` and for nothing else.
pub open spec fn waits_only_for(jobs: Seq<Job>, id: JobId, d: Digest) -> bool {
    exists|i: int| 0 <= i < jobs.len() && (#[trigger] jobs[i]).id == id && jobs[i].pending@ == seq![d]
}

/// The build places after `d` has arrived for `waiters`: each job that
/// waited for `d` alone asks for a place, in the order in which the jobs asked
/// for `d`. A job that is listed twice counts where it is listed first.
pub open spec fn builds_after_arrival(
    jobs: Seq<Job>,
    d: Digest,
    waiters: Seq<JobId>,
    builds: PoolView,
) -> PoolView
    decreases waiters.len(),
{
    if waiters.len() == 0 {
        builds
    } else {
        let before = builds_after_arrival(jobs, d, waiters.drop_last(), builds);
        if waits_only_for(jobs, waiters.last(), d) && !waiters.drop_last().contains(waiters.last()) {
            before.submit(waiters.last())
        } else {
            before
        }
    }
}

/// What the worker does when `d` has arrived for `waiters`: of each job that
/// waited for `d` alone it tells the broker that the job now waits for its
/// layers, and it has the layers built if a build place is free.
pub open spec fn arrival_actions(
    jobs: Seq<Job>,
    d: Digest,
    waiters: Seq<JobId>,
    builds: PoolView,
) -> Seq<Action>
    decreases waiters.len(),
{
    if waiters.len() == 0 {
        Seq::empty()
    } else {
        let w = waiters.last();
        let before = arrival_actions(jobs, d, waiters.drop_last(), builds);
        if waits_only_for(jobs, w, d) && !waiters.drop_last().contains(w) {
            let told = before.push(Action::JobStateTransition(w, JobStatus::WaitingForLayers));
            if builds_after_arrival(jobs, d, waiters.drop_last(), builds).starts_at_once() {
                told.push(Action::BuildLayers(w))
            } else {
                told
            }
        } else {
            before
        }
    }
}

/// What the worker does when the fetch of `d` has failed for `waiters`: of
/// each job that waited for `d` it tells the broker that the job has failed,
/// in the order in which the jobs asked for `d`.
pub open spec fn loss_actions(jobs: Seq<Job>, d: Digest, waiters: Seq<JobId>) -> Seq<Action>
    decreases waiters.len(),
{
    if waiters.len() == 0 {
        Seq::empty()
    } else {
        let w = waiters.last();
        let before = loss_actions(jobs, d, waiters.drop_last());
        if waits_for(jobs, w, d) && !waiters.drop_last().contains(w) {
            before.push(Action::JobStateTransition(w, JobStatus::Failed)).push(
                Action::JobCompleted(w, JobOutcome::Failed(JobFailure::ArtifactFetch)),
            )
        } else {
            before
        }
    }
}

/// The cache after `n` references to `d` have been given back.
pub open spec fn decrement_n(cache: CacheView, d: Digest, n: nat) -> CacheView
    decreases n,
{
    if n == 0 {
        cache
    } else {
        decrement_n(cache, d, (n - 1) as nat).decrement_ref(d)
    }
}

/// The record of the job `id` in the table.
pub open spec fn job_with(jobs: Seq<Job>, id: JobId) -> Job {
    jobs[job_ids(jobs).index_of(id)]
}

/// The cache after the fetch of `d` has failed for `waiters`: each job that
/// waited for `d` has given back the references it held, in the order in
/// which the jobs asked for `d`.
pub open spec fn cache_after_loss(
    jobs: Seq<Job>,
    d: Digest,
    waiters: Seq<JobId>,
    cache: CacheView,
) -> CacheView
    decreases waiters.len(),
{
    if waiters.len() == 0 {
        cache
    } else {
        let w = waiters.last();
        let before = cache_after_loss(jobs, d, waiters.drop_last(), cache);
        if waits_for(jobs, w, d) && !waiters.drop_last().contains(w) {
            released(before, job_with(jobs, w))
        } else {
            before
        }
    }
}

/// The jobs of the table but for those that wait for `d` and are among
/// `done`, in their order.
pub open spec fn remaining(jobs: Seq<Job>, d: Digest, done: Seq<JobId>) -> Seq<Job>
    decreases jobs.len(),
{
    if jobs.len() == 0 {
        Seq::empty()
    } else if jobs.last().pending@.contains(d) && done.contains(jobs.last().id) {
        remaining(jobs.drop_last(), d, done)
    } else {
        remaining(jobs.drop_last(), d, done).push(jobs.last())
    }
}

/// The jobs of the table that do not wait for `d`, in their order.
pub open spec fn survivors(jobs: Seq<Job>, d: Digest) -> Seq<Job>
    decreases jobs.len(),
{
    if jobs.len() == 0 {
        Seq::empty()
    } else if jobs.last().pending@.contains(d) {
        survivors(jobs.drop_last(), d)
    } else {
        survivors(jobs.drop_last(), d).push(jobs.last())
    }
}

proof fn lemma_remaining_ids(jobs: Seq<Job>, d: Digest, done: Seq<JobId>, x: JobId)
    ensures
        job_ids(remaining(jobs, d, done)).contains(x) ==> job_ids(jobs).contains(x),
    decreases jobs.len(),
{
    if jobs.len() > 0 {
        let init = jobs.drop_last();
        let r = remaining(jobs, d, done);
        lemma_remaining_ids(init, d, done, x);
        if job_ids(r).contains(x) {
            let k = job_ids(r).index_of(x);
            assert(job_ids(r)[k] == x);
            let ri = remaining(init, d, done);
            if k < ri.len() && r[k] == ri[k] {
                assert(job_ids(ri)[k] == x);
                let k0 = job_ids(init).index_of(x);
                assert(job_ids(init)[k0] == x);
                assert(job_ids(jobs)[k0] == x);
            } else {
                assert(job_ids(jobs)[jobs.len() - 1] == jobs.last().id);
            }
        }
    }
}

/// Nothing is taken away where nobody is done.
proof fn lemma_remaining_none(jobs: Seq<Job>, d: Digest)
    ensures
        remaining(jobs, d, Seq::empty()) == jobs,
    decreases jobs.len(),
{
    if jobs.len() > 0 {
        lemma_remaining_none(jobs.drop_last(), d);
        assert(jobs.drop_last().push(jobs.last()) =~= jobs);
    }
}

/// When one more job is done that does not wait for `d`, or is no job of the
/// table, nothing more is taken away.
proof fn lemma_remaining_same(jobs: Seq<Job>, d: Digest, done: Seq<JobId>, w: JobId)
    requires
        forall|k: int|
            0 <= k < jobs.len() && (#[trigger] jobs[k]).id == w && !done.contains(w)
                ==> !jobs[k].pending@.contains(d),
    ensures
        remaining(jobs, d, done.push(w)) == remaining(jobs, d, done),
    decreases jobs.len(),
{
    if jobs.len() > 0 {
        let init = jobs.drop_last();
        assert forall|k: int|
            0 <= k < init.len() && (#[trigger] init[k]).id == w && !done.contains(w)
                implies !init[k].pending@.contains(d) by {
            assert(init[k] == jobs[k]);
        }
        lemma_remaining_same(init, d, done, w);
        let last = jobs.last();
        assert(last == jobs[jobs.len() - 1]);
        assert(done.push(w).contains(last.id) <==> done.contains(last.id) || last.id == w) by {
            if done.contains(last.id) {
                let a = done.index_of(last.id);
                assert(done.push(w)[a] == last.id);
            }
            if last.id == w {
                assert(done.push(w)[done.len() as int] == w);
            }
        }
    }
}

/// When one more job is done that waits for `d`, that job is taken away and
/// the others stay in their order.
proof fn lemma_remaining_step(jobs: Seq<Job>, d: Digest, done: Seq<JobId>, w: JobId, i: int)
    requires
        job_ids(jobs).no_duplicates(),
        !done.contains(w),
        0 <= i < remaining(jobs, d, done).len(),
        remaining(jobs, d, done)[i].id == w,
        remaining(jobs, d, done)[i].pending@.contains(d),
    ensures
        remaining(jobs, d, done.push(w)) == remaining(jobs, d, done).remove(i),
    decreases jobs.len(),
{
    let init = jobs.drop_last();
    let last = jobs.last();
    let r = remaining(jobs, d, done);
    let ri = remaining(init, d, done);
    assert(job_ids(init) =~= job_ids(jobs).drop_last());
    assert(job_ids(jobs).drop_last() =~= job_ids(jobs).remove(jobs.len() - 1));
    lemma_remove_distinct(job_ids(jobs), jobs.len() - 1);
    assert(job_ids(jobs)[jobs.len() - 1] == last.id);
    assert(done.push(w).contains(last.id) <==> done.contains(last.id) || last.id == w) by {
        if done.contains(last.id) {
            let a = done.index_of(last.id);
            assert(done.push(w)[a] == last.id);
        }
        if last.id == w {
            assert(done.push(w)[done.len() as int] == w);
        }
    }
    if last.pending@.contains(d) && done.contains(last.id) {
        lemma_remaining_step(init, d, done, w, i);
    } else if i < ri.len() {
        assert(r[i] == ri[i]);
        lemma_remaining_step(init, d, done, w, i);
        assert(job_ids(ri)[i] == w);
        lemma_remaining_ids(init, d, done, w);
        assert(last.id != w);
        assert(ri.remove(i).push(last) =~= ri.push(last).remove(i));
    } else {
        assert(r[i] == last);
        assert forall|k: int|
            0 <= k < init.len() && (#[trigger] init[k]).id == w && !done.contains(w)
                implies !init[k].pending@.contains(d) by {
            assert(job_ids(init)[k] == w);
        }
        lemma_remaining_same(init, d, done, w);
        assert(ri.push(last).remove(i) =~= ri);
    }
}

/// When every job that waits for `d` is done, those that remain are those
/// that do not wait for `d`.
proof fn lemma_remaining_all(jobs: Seq<Job>, d: Digest, done: Seq<JobId>)
    requires
        forall|k: int|
            0 <= k < jobs.len() && (#[trigger] jobs[k]).pending@.contains(d) ==> done.contains(
                jobs[k].id,
            ),
    ensures
        remaining(jobs, d, done) == survivors(jobs, d),
    decreases jobs.len(),
{
    if jobs.len() > 0 {
        let init = jobs.drop_last();
        assert forall|k: int|
            0 <= k < init.len() && (#[trigger] init[k]).pending@.contains(d) implies done.contains(
            init[k].id,
        ) by {
            assert(init[k] == jobs[k]);
        }
        lemma_remaining_all(init, d, done);
        assert(jobs.last() == jobs[jobs.len() - 1]);
    }
}

/// A prefix of a sequence without its last element, and what it holds.
proof fn lemma_take_step(s: Seq<JobId>, t: int)
    requires
        0 <= t < s.len(),
    ensures
        s.take(t + 1).drop_last() == s.take(t),
        s.take(t + 1).last() == s[t],
        forall|x: JobId| #[trigger] s.take(t + 1).contains(x) <==> s.take(t).contains(x) || x == s[t],
{
    let a = s.take(t);
    let b = s.take(t + 1);
    assert(b.drop_last() =~= a);
    assert forall|x: JobId| #[trigger] b.contains(x) <==> a.contains(x) || x == s[t] by {
        if a.contains(x) {
            let i = a.index_of(x);
            assert(b[i] == x);
        }
        if x == s[t] {
            assert(b[t] == x);
        }
        if b.contains(x) {
            let i = b.index_of(x);
            if i < t {
                assert(a[i] == x);
            }
        }
    }
}

impl<F: Fs> Dispatcher<F> {
    /// Whether the state is what the arrival of `d` for `waiters` leaves to be
    /// done: everything is consistent, but the references of `d` still count
    /// the `n` waiters not yet seen, and who waits for `d` is among them.
    spec fn arrival_pending(&self, d: Digest, rest: Seq<JobId>) -> bool {
        &&& self.cache.wf()
        &&& self.slots@.wf()
        &&& self.builds@.wf()
        &&& jobs_wf(self.jobs@)
        &&& pools_ok(self.slots@, self.builds@, self.jobs@)
        &&& !self.cache@.is_fetching(d)
        &&& forall|x: Digest|
            x != d ==> #[trigger] self.cache@.ref_count(x) == holders(self.jobs@, x)
        &&& self.cache@.ref_count(d) == holders(self.jobs@, d) + rest.len()
        &&& forall|i: int, x: Digest|
            0 <= i < self.jobs@.len() && #[trigger] self.jobs@[i].pending@.contains(x) && x != d
                ==> self.cache@.is_fetching(x) && self.cache@.waiters(x).contains(self.jobs@[i].id)
        &&& forall|i: int|
            0 <= i < self.jobs@.len() && (#[trigger] self.jobs@[i]).pending@.contains(d)
                ==> rest.contains(self.jobs@[i].id)
        &&& self.stopped ==> self.jobs@.len() == 0
    }

    /// Tells the jobs that waited for `d` that it is there. A waiter that is
    /// still a job of the worker and still waits for `d` keeps the reference
    /// that was taken for it; for any other the reference is given back.
    fn artifact_stored(&mut self, d: Digest, waiters: &Vec<JobId>, actions: &mut Vec<Action>)
        requires
            old(self).arrival_pending(d, waiters@),
        ensures
            final(self).wf(),
            final(self).is_stopped() == old(self).is_stopped(),
            final(self).cache_root() == old(self).cache_root(),
            final(self).slots_view() == old(self).slots_view(),
            final(self).builds_view() == builds_after_arrival(
                old(self).jobs_view(),
                d,
                waiters@,
                old(self).builds_view(),
            ),
            final(actions)@ == old(actions)@ + arrival_actions(
                old(self).jobs_view(),
                d,
                waiters@,
                old(self).builds_view(),
            ),
            final(self).cache_view() == decrement_n(
                old(self).cache_view(),
                d,
                (waiters@.len() + holders(old(self).jobs_view(), d) - holders(
                    final(self).jobs_view(),
                    d,
                )) as nat,
            ),
            final(self).jobs_view().len() == old(self).jobs_view().len(),
            forall|k: int|
                0 <= k < final(self).jobs_view().len() ==> after_arrival(
                    old(self).jobs_view()[k],
                    #[trigger] final(self).jobs_view()[k],
                    d,
                ),
            forall|x: Digest|
                x != d ==> #[trigger] final(self).cache_view().ref_count(x) == old(self).cache_view().ref_count(x),
            forall|x: Digest| #[trigger]
                final(self).cache_view().is_fetching(x) == old(self).cache_view().is_fetching(x),
            forall|x: Digest| #[trigger]
                final(self).cache_view().waiters(x) == old(self).cache_view().waiters(x),
            forall|x: Digest| #[trigger]
                final(self).cache_view().is_resident(x) == old(self).cache_view().is_resident(x),
    {
        let ghost jobs0 = self.jobs@;
        let ghost cache0 = self.cache@;
        let ghost builds0 = self.builds@;
        let ghost actions0 = actions@;
        let ghost mut drops: nat = 0;
        let mut t: usize = 0;
        proof {
            assert(waiters@.skip(0) =~= waiters@);
            assert(waiters@.take(0) =~= Seq::<JobId>::empty());
            assert(actions0 + Seq::<Action>::empty() =~= actions0);
            assert forall|k: int| 0 <= k < jobs0.len() implies #[trigger] self.jobs@[k]
                == jobs0[k] by {}
        }
        while t < waiters.len()
            invariant
                t <= waiters@.len(),
                self.arrival_pending(d, waiters@.skip(t as int)),
                self.cache@ == decrement_n(cache0, d, drops),
                drops + holders(self.jobs@, d) == t + holders(jobs0, d),
                self.stopped == old(self).stopped,
                self.cache.root_path() == old(self).cache.root_path(),
                self.slots@ == old(self).slots@,
                self.builds@ == builds_after_arrival(jobs0, d, waiters@.take(t as int), builds0),
                actions@ == actions0 + arrival_actions(jobs0, d, waiters@.take(t as int), builds0),
                self.jobs@.len() == jobs0.len(),
                jobs_wf(jobs0),
                forall|k: int|
                    0 <= k < jobs0.len() && (#[trigger] self.jobs@[k]) == jobs0[k]
                        && jobs0[k].pending@.contains(d) ==> !waiters@.take(t as int).contains(
                        jobs0[k].id,
                    ),
                forall|k: int|
                    0 <= k < jobs0.len() && (#[trigger] self.jobs@[k]) != jobs0[k]
                        ==> waiters@.take(t as int).contains(jobs0[k].id),
                forall|k: int|
                    0 <= k < jobs0.len() ==> (#[trigger] self.jobs@[k] == jobs0[k]) || (
                    after_arrival(jobs0[k], self.jobs@[k], d) && jobs0[k].pending@.contains(d)),
                forall|x: Digest|
                    x != d ==> #[trigger] self.cache@.ref_count(x) == cache0.ref_count(x),
                forall|x: Digest| #[trigger] self.cache@.is_fetching(x) == cache0.is_fetching(x),
                forall|x: Digest| #[trigger] self.cache@.waiters(x) == cache0.waiters(x),
                forall|x: Digest| #[trigger] self.cache@.is_resident(x) == cache0.is_resident(x),
            decreases waiters@.len() - t,
        {
            let w = waiters[t];
            let ghost rest = waiters@.skip(t as int);
            let ghost rest2 = waiters@.skip(t as int + 1);
            let ghost jobs1 = self.jobs@;
            let ghost cache1 = self.cache@;
            let ghost builds1 = self.builds@;
            let ghost head = waiters@.take(t as int);
            let ghost head2 = waiters@.take(t as int + 1);
            proof {
                assert(rest[0] == w);
                assert(rest2 =~= rest.remove(0));
                assert forall|x: JobId| rest.contains(x) && x != w implies rest2.contains(x) by {
                    let a = rest.index_of(x);
                    assert(rest[a] == x);
                    assert(rest2[a - 1] == x);
                }
                self.cache.lemma_view_wf();
                cache1.lemma_decrement_ref_effect(d);
                lemma_take_step(waiters@, t as int);
                assert forall|k: int| 0 <= k < jobs0.len() implies (#[trigger] jobs1[k]).id
                    == jobs0[k].id by {}
            }
            let mut kept = false;
            let found = find_job(&self.jobs, w);
            let place = match found {
                Some(i) => position_of_digest(&self.jobs[i].pending, d),
                None => None,
            };
            match found {
                Some(i) => {
                    match place {
                        Some(p) => {
                            kept = true;
                            proof {
                                assert(job_ids(jobs1)[i as int] == w);
                                assert(job_wf(jobs0[i as int]));
                                assert(job_wf(jobs1[i as int]));
                                assert(status_matches(jobs1[i as int], self.slots@, builds1));
                                lemma_remove_distinct(jobs1[i as int].pending@, p as int);
                                assert(jobs1[i as int] == jobs0[i as int]) by {
                                    if !(jobs1[i as int] == jobs0[i as int]) {
                                        crate::seq_util::lemma_without(jobs0[i as int].pending@, d);
                                    }
                                }
                                assert(job_ids(jobs1).contains(w) || !(builds1.contains(w)
                                    || self.slots@.contains(w)));
                                builds1.lemma_submit(w);
                            }
                            self.jobs[i].pending.remove(p);
                            if self.jobs[i].pending.len() == 0 {
                                self.jobs[i].status = JobStatus::WaitingForLayers;
                                actions.push(
                                    Action::JobStateTransition(w, JobStatus::WaitingForLayers),
                                );
                                if self.builds.submit(w) {
                                    actions.push(Action::BuildLayers(w));
                                }
                            }
                            proof {
                                let jobs2 = self.jobs@;
                                let j1 = jobs1[i as int];
                                let j2 = jobs2[i as int];
                                assert(jobs2 =~= jobs1.update(i as int, j2));
                                lemma_ids_update(jobs1, i as int, j2);
                                assert(j2.pending@ == j1.pending@.remove(p as int));
                                assert(j1.pending@[p as int] == d);
                                assert(j1.pending@.contains(d));
                                assert(j1.artifacts@.contains(d));
                                assert(after_arrival(j1, j2, d));
                                assert forall|x: Digest| x != d implies #[trigger]
                                    self.cache@.ref_count(x) == holders(jobs2, x) by {
                                    lemma_holders_update(jobs1, i as int, j2, x);
                                    assert(j2.pending@.contains(x) <==> j1.pending@.contains(x));
                                }
                                lemma_holders_update(jobs1, i as int, j2, d);
                                assert(holds_one(j1, d) == 0);
                                assert(holds_one(j2, d) == 1);
                                assert forall|m: int| 0 <= m < jobs2.len() implies job_wf(
                                    #[trigger] jobs2[m],
                                ) && status_matches(jobs2[m], self.slots@, self.builds@) by {
                                    if m != i {
                                        assert(jobs2[m] == jobs1[m]);
                                        assert(job_wf(jobs1[m]));
                                        assert(status_matches(jobs1[m], self.slots@, builds1));
                                        assert(job_ids(jobs1)[m] == jobs1[m].id);
                                        assert(job_ids(jobs1)[i as int] == w);
                                    } else {
                                        assert forall|x: Digest| #[trigger]
                                            j2.pending@.contains(x) implies j2.artifacts@.contains(
                                            x,
                                        ) by {
                                            assert(j1.pending@.contains(x));
                                        }
                                    }
                                }
                                assert forall|j: JobId| #[trigger]
                                    job_ids(jobs2).contains(j) || !(self.builds@.contains(j)
                                        || self.slots@.contains(j)) by {
                                    assert(job_ids(jobs1).contains(j) || !(builds1.contains(j)
                                        || self.slots@.contains(j)));
                                    assert(job_ids(jobs1).contains(w));
                                }
                                assert forall|m: int, x: Digest|
                                    0 <= m < jobs2.len() && #[trigger] jobs2[m].pending@.contains(
                                        x,
                                    ) && x != d implies self.cache@.is_fetching(x)
                                    && self.cache@.waiters(x).contains(jobs2[m].id) by {
                                    assert(jobs1[m].pending@.contains(x));
                                }
                                assert forall|m: int|
                                    0 <= m < jobs2.len() && (#[trigger] jobs2[m]).pending@.contains(
                                        d,
                                    ) implies rest2.contains(jobs2[m].id) by {
                                    assert(m != i);
                                    assert(jobs2[m] == jobs1[m]);
                                    assert(rest.contains(jobs1[m].id));
                                    assert(job_ids(jobs1)[m] == jobs1[m].id);
                                    assert(job_ids(jobs1)[i as int] == w);
                                }
                                assert forall|k: int| 0 <= k < jobs0.len() implies (
                                #[trigger] jobs2[k] == jobs0[k]) || (after_arrival(
                                    jobs0[k],
                                    jobs2[k],
                                    d,
                                ) && jobs0[k].pending@.contains(d)) by {
                                    if k != i {
                                        assert(jobs2[k] == jobs1[k]);
                                    }
                                }
                                assert(!head.contains(w));
                                let only = waits_only_for(jobs0, w, d);
                                assert(only == (j2.pending@.len() == 0)) by {
                                    if j2.pending@.len() == 0 {
                                        assert(j1.pending@ =~= seq![d]);
                                        assert(jobs0[i as int].id == w);
                                    }
                                    if only {
                                        let k0 = choose|k0: int|
                                            0 <= k0 < jobs0.len() && (#[trigger] jobs0[k0]).id
                                                == w && jobs0[k0].pending@ == seq![d];
                                        assert(job_ids(jobs0)[k0] == w);
                                        assert(job_ids(jobs0)[i as int] == w);
                                        assert(k0 == i);
                                    }
                                }
                                assert forall|k: int|
                                    0 <= k < jobs0.len() && (#[trigger] jobs2[k]) == jobs0[k]
                                        && jobs0[k].pending@.contains(d) implies !head2.contains(
                                    jobs0[k].id,
                                ) by {
                                    assert(k != i);
                                    assert(jobs2[k] == jobs1[k]);
                                    assert(job_ids(jobs0)[k] == jobs0[k].id);
                                    assert(job_ids(jobs0)[i as int] == w);
                                }
                                assert forall|k: int|
                                    0 <= k < jobs0.len() && (#[trigger] jobs2[k])
                                        != jobs0[k] implies head2.contains(jobs0[k].id) by {
                                    if k != i {
                                        assert(jobs2[k] == jobs1[k]);
                                    }
                                }
                                assert(actions@ =~= actions0 + arrival_actions(
                                    jobs0,
                                    d,
                                    head2,
                                    builds0,
                                ));
                            }
                        },
                        None => {},
                    }
                },
                None => {},
            }
            if !kept {
                self.cache.decrement_ref(d);
                proof {
                    drops = drops + 1;
                    assert forall|m: int|
                        0 <= m < jobs1.len() && (#[trigger] jobs1[m]).pending@.contains(
                            d,
                        ) implies rest2.contains(jobs1[m].id) && jobs1[m].id != w by {
                        assert(rest.contains(jobs1[m].id));
                        if jobs1[m].id == w {
                            assert(job_ids(jobs1)[m] == w);
                            match found {
                                Some(i) => {
                                    assert(job_ids(jobs1)[i as int] == w);
                                    assert(m == i);
                                },
                                None => {},
                            }
                        }
                    }
                    self.cache.lemma_view_wf();
                    if waits_only_for(jobs0, w, d) && !head.contains(w) {
                        let k0 = choose|k0: int|
                            0 <= k0 < jobs0.len() && (#[trigger] jobs0[k0]).id == w
                                && jobs0[k0].pending@ == seq![d];
                        assert(jobs0[k0].pending@[0] == d);
                        assert(jobs1[k0] == jobs0[k0]);
                        assert(jobs1[k0].pending@.contains(d));
                        assert(false);
                    }
                    assert forall|k: int|
                        0 <= k < jobs0.len() && (#[trigger] jobs1[k]) == jobs0[k]
                            && jobs0[k].pending@.contains(d) implies !head2.contains(
                        jobs0[k].id,
                    ) by {
                        assert(jobs1[k].pending@.contains(d));
                    }
                }
            }
            t += 1;
        }
        proof {
            assert(waiters@.skip(t as int) =~= Seq::<JobId>::empty());
            assert(waiters@.take(t as int) =~= waiters@);
            self.cache.lemma_view_wf();
            assert forall|k: int| 0 <= k < jobs0.len() implies after_arrival(
                jobs0[k],
                #[trigger] self.jobs@[k],
                d,
            ) by {
                if self.jobs@[k] == jobs0[k] {
                    assert(!jobs0[k].pending@.contains(d));
                }
            }
        }
    }
}

/// What is left of the table when the fetch of `d` has failed: the jobs that
/// waited for `d` are gone, and the others are as they were.
pub open spec fn after_loss(before: Seq<Job>, after: Seq<Job>, d: Digest) -> bool {
    &&& forall|k: int| 0 <= k < after.len() ==> before.contains(#[trigger] after[k])
    &&& forall|k: int| 0 <= k < after.len() ==> !(#[trigger] after[k]).pending@.contains(d)
    &&& forall|k: int|
        0 <= k < before.len() && !(#[trigger] before[k]).pending@.contains(d) ==> after.contains(
            before[k],
        )
}

impl<F: Fs> Dispatcher<F> {
    /// Whether the state is what a failed fetch of `d` leaves to be done:
    /// everything is consistent, but the jobs that wait for `d`, all of which
    /// are among `rest`, wait for a fetch that is no longer in flight.
    spec fn loss_pending(&self, d: Digest, rest: Seq<JobId>) -> bool {
        &&& self.base_wf()
        &&& !self.cache@.is_fetching(d)
        &&& forall|i: int, x: Digest|
            0 <= i < self.jobs@.len() && #[trigger] self.jobs@[i].pending@.contains(x) && x != d
                ==> self.cache@.is_fetching(x) && self.cache@.waiters(x).contains(self.jobs@[i].id)
        &&& forall|i: int|
            0 <= i < self.jobs@.len() && (#[trigger] self.jobs@[i]).pending@.contains(d)
                ==> rest.contains(self.jobs@[i].id)
        &&& self.stopped ==> self.jobs@.len() == 0
    }

    /// Fails the jobs that waited for `d`, whose fetch has failed. A waiter
    /// that is no longer a job of the worker is passed over.
    fn artifact_lost(&mut self, d: Digest, waiters: &Vec<JobId>, actions: &mut Vec<Action>)
        requires
            old(self).loss_pending(d, waiters@),
        ensures
            final(self).wf(),
            final(self).is_stopped() == old(self).is_stopped(),
            final(self).cache_root() == old(self).cache_root(),
            final(self).slots_view() == old(self).slots_view(),
            final(self).builds_view() == old(self).builds_view(),
            after_loss(old(self).jobs_view(), final(self).jobs_view(), d),
            final(self).jobs_view() == survivors(old(self).jobs_view(), d),
            final(actions)@ == old(actions)@ + loss_actions(old(self).jobs_view(), d, waiters@),
            final(self).cache_view() == cache_after_loss(
                old(self).jobs_view(),
                d,
                waiters@,
                old(self).cache_view(),
            ),
            forall|x: Digest| #[trigger]
                final(self).cache_view().is_fetching(x) == old(self).cache_view().is_fetching(x),
            forall|x: Digest| #[trigger]
                final(self).cache_view().waiters(x) == old(self).cache_view().waiters(x),
            forall|x: Digest| #[trigger]
                final(self).cache_view().is_resident(x) == old(self).cache_view().is_resident(x),
    {
        let ghost jobs0 = self.jobs@;
        let ghost cache0 = self.cache@;
        let ghost actions0 = actions@;
        let mut t: usize = 0;
        proof {
            assert(waiters@.skip(0) =~= waiters@);
            assert(waiters@.take(0) =~= Seq::<JobId>::empty());
            assert(actions0 + Seq::<Action>::empty() =~= actions0);
            assert forall|k: int| 0 <= k < jobs0.len() implies jobs0.contains(
                #[trigger] self.jobs@[k],
            ) by {}
            assert forall|k: int| 0 <= k < jobs0.len() implies self.jobs@.contains(
                #[trigger] jobs0[k],
            ) by {}
            lemma_remaining_none(jobs0, d);
        }
        while t < waiters.len()
            invariant
                t <= waiters@.len(),
                self.loss_pending(d, waiters@.skip(t as int)),
                self.stopped == old(self).stopped,
                self.cache.root_path() == old(self).cache.root_path(),
                self.slots@ == old(self).slots@,
                self.builds@ == old(self).builds@,
                jobs_wf(jobs0),
                actions@ == actions0 + loss_actions(jobs0, d, waiters@.take(t as int)),
                self.cache@ == cache_after_loss(jobs0, d, waiters@.take(t as int), cache0),
                self.jobs@ == remaining(jobs0, d, waiters@.take(t as int)),
                forall|k: int|
                    0 <= k < jobs0.len() && (#[trigger] jobs0[k]).pending@.contains(d)
                        ==> waiters@.contains(jobs0[k].id),
                forall|k: int| 0 <= k < self.jobs@.len() ==> jobs0.contains(#[trigger] self.jobs@[k]),
                forall|k: int|
                    0 <= k < self.jobs@.len() && (#[trigger] self.jobs@[k]).pending@.contains(d)
                        ==> !waiters@.take(t as int).contains(self.jobs@[k].id),
                forall|k: int|
                    0 <= k < jobs0.len() && (!(#[trigger] jobs0[k]).pending@.contains(d)
                        || !waiters@.take(t as int).contains(jobs0[k].id)) ==> self.jobs@.contains(
                        jobs0[k],
                    ),
                forall|x: Digest| #[trigger] self.cache@.is_fetching(x) == cache0.is_fetching(x),
                forall|x: Digest| #[trigger] self.cache@.waiters(x) == cache0.waiters(x),
                forall|x: Digest| #[trigger] self.cache@.is_resident(x) == cache0.is_resident(x),
            decreases waiters@.len() - t,
        {
            let w = waiters[t];
            let ghost rest = waiters@.skip(t as int);
            let ghost rest2 = waiters@.skip(t as int + 1);
            let ghost jobs1 = self.jobs@;
            let ghost head = waiters@.take(t as int);
            let ghost head2 = waiters@.take(t as int + 1);
            proof {
                assert(rest[0] == w);
                assert(rest2 =~= rest.remove(0));
                assert forall|x: JobId| rest.contains(x) && x != w implies rest2.contains(x) by {
                    let a = rest.index_of(x);
                    assert(rest[a] == x);
                    assert(rest2[a - 1] == x);
                }
                lemma_take_step(waiters@, t as int);
                assert(head2 =~= head.push(w));
            }
            let found = find_job(&self.jobs, w);
            let place = match found {
                Some(i) => position_of_digest(&self.jobs[i].pending, d),
                None => None,
            };
            proof {
                let hit = found is Some && place is Some;
                let due = waits_for(jobs0, w, d) && !head.contains(w);
                if hit {
                    lemma_remaining_step(jobs0, d, head, w, found->0 as int);
                } else {
                    assert forall|k: int|
                        0 <= k < jobs0.len() && (#[trigger] jobs0[k]).id == w && !head.contains(
                            w,
                        ) implies !jobs0[k].pending@.contains(d) by {
                        if jobs0[k].pending@.contains(d) {
                            assert(jobs1.contains(jobs0[k]));
                            let m = jobs1.index_of(jobs0[k]);
                            assert(jobs1[m] == jobs0[k]);
                            assert(job_ids(jobs1)[m] == w);
                            match found {
                                Some(i) => {
                                    assert(job_ids(jobs1)[i as int] == w);
                                    assert(m == i);
                                },
                                None => {},
                            }
                        }
                    }
                    lemma_remaining_same(jobs0, d, head, w);
                }
                if hit {
                    let i = found->0 as int;
                    assert(jobs0.contains(jobs1[i]));
                    let k0 = jobs0.index_of(jobs1[i]);
                    assert(jobs0[k0] == jobs1[i]);
                    assert(job_ids(jobs0)[k0] == w);
                    let k1 = job_ids(jobs0).index_of(w);
                    assert(job_ids(jobs0)[k1] == w);
                    assert(job_with(jobs0, w) == jobs1[i]);
                }
                if due {
                    let k0 = choose|k0: int|
                        0 <= k0 < jobs0.len() && (#[trigger] jobs0[k0]).id == w
                            && jobs0[k0].pending@.contains(d);
                    assert(jobs1.contains(jobs0[k0]));
                    let m = jobs1.index_of(jobs0[k0]);
                    assert(jobs1[m] == jobs0[k0]);
                    assert(job_ids(jobs1)[m] == w);
                    match found {
                        Some(i) => {
                            assert(job_ids(jobs1)[i as int] == w);
                            assert(m == i);
                        },
                        None => {},
                    }
                }
                assert(hit == due);
            }
            match found {
                Some(i) => {
                    if place.is_some() {
                        proof {
                            assert(job_wf(jobs1[i as int]));
                            assert(jobs1[i as int].pending@.len() > 0);
                            assert(job_ids(jobs1)[i as int] == w);
                            assert(retire_actions(
                                jobs1[i as int],
                                JobOutcome::Failed(JobFailure::ArtifactFetch),
                                self.slots@,
                                self.builds@,
                            ) =~= seq![
                                Action::JobStateTransition(w, JobStatus::Failed),
                                Action::JobCompleted(
                                    w,
                                    JobOutcome::Failed(JobFailure::ArtifactFetch),
                                ),
                            ]);
                        }
                        self.retire(i, JobOutcome::Failed(JobFailure::ArtifactFetch), actions);
                        proof {
                            let jobs2 = self.jobs@;
                            assert(jobs2 == jobs1.remove(i as int));
                            assert(actions@ =~= actions0 + loss_actions(jobs0, d, head2));
                            assert forall|k: int|
                                0 <= k < jobs2.len() && (#[trigger] jobs2[k]).pending@.contains(
                                    d,
                                ) implies !head2.contains(jobs2[k].id) by {
                                let k1 = if k < i { k } else { k + 1 };
                                assert(jobs2[k] == jobs1[k1]);
                                assert(job_ids(jobs1)[k1] == jobs1[k1].id);
                            }
                            assert forall|k: int|
                                0 <= k < jobs0.len() && (!(#[trigger] jobs0[k]).pending@.contains(
                                    d,
                                ) || !head2.contains(jobs0[k].id)) implies jobs2.contains(
                                jobs0[k],
                            ) by {
                                assert(jobs1.contains(jobs0[k]));
                                let a = jobs1.index_of(jobs0[k]);
                                assert(jobs1[a] == jobs0[k]);
                                assert(a != i);
                                let a2 = if a < i { a } else { a - 1 };
                                assert(jobs2[a2] == jobs1[a]);
                            }
                            assert forall|k: int| 0 <= k < jobs2.len() implies jobs0.contains(
                                #[trigger] jobs2[k],
                            ) && jobs1.contains(jobs2[k]) && jobs2[k].id != w by {
                                let k1 = if k < i { k } else { k + 1 };
                                assert(jobs2[k] == jobs1[k1]);
                                assert(job_ids(jobs1)[k1] == jobs1[k1].id);
                            }
                            assert forall|k: int|
                                0 <= k < jobs0.len() && !(#[trigger] jobs0[k]).pending@.contains(
                                    d,
                                ) implies jobs2.contains(jobs0[k]) by {
                                assert(jobs1.contains(jobs0[k]));
                                let a = jobs1.index_of(jobs0[k]);
                                assert(jobs1[a] == jobs0[k]);
                                assert(a != i);
                                let a2 = if a < i { a } else { a - 1 };
                                assert(jobs2[a2] == jobs1[a]);
                            }
                            assert forall|m: int, x: Digest|
                                0 <= m < jobs2.len() && #[trigger] jobs2[m].pending@.contains(x)
                                    && x != d implies self.cache@.is_fetching(x)
                                && self.cache@.waiters(x).contains(jobs2[m].id) by {
                                let m1 = if m < i { m } else { m + 1 };
                                assert(jobs2[m] == jobs1[m1]);
                                assert(jobs1[m1].pending@.contains(x));
                            }
                            assert forall|m: int|
                                0 <= m < jobs2.len() && (#[trigger] jobs2[m]).pending@.contains(
                                    d,
                                ) implies rest2.contains(jobs2[m].id) by {
                                let m1 = if m < i { m } else { m + 1 };
                                assert(jobs2[m] == jobs1[m1]);
                                assert(rest.contains(jobs1[m1].id));
                                assert(job_ids(jobs1)[m1] == jobs1[m1].id);
                            }
                        }
                    } else {
                        proof {
                            assert forall|m: int|
                                0 <= m < jobs1.len() && (#[trigger] jobs1[m]).pending@.contains(
                                    d,
                                ) implies rest2.contains(jobs1[m].id) && !head2.contains(
                                jobs1[m].id,
                            ) by {
                                assert(rest.contains(jobs1[m].id));
                                if jobs1[m].id == w {
                                    assert(job_ids(jobs1)[m] == w);
                                    assert(job_ids(jobs1)[i as int] == w);
                                }
                            }
                        }
                    }
                },
                None => {
                    proof {
                        assert forall|m: int|
                            0 <= m < jobs1.len() && (#[trigger] jobs1[m]).pending@.contains(
                                d,
                            ) implies rest2.contains(jobs1[m].id) && !head2.contains(
                            jobs1[m].id,
                        ) by {
                            assert(rest.contains(jobs1[m].id));
                            if jobs1[m].id == w {
                                assert(job_ids(jobs1)[m] == w);
                            }
                        }
                    }
                },
            }
            t += 1;
        }
        proof {
            assert(waiters@.skip(t as int) =~= Seq::<JobId>::empty());
            assert(waiters@.take(t as int) =~= waiters@);
            lemma_remaining_all(jobs0, d, waiters@);
            assert forall|k: int| 0 <= k < self.jobs@.len() implies !(
            #[trigger] self.jobs@[k]).pending@.contains(d) by {
                if self.jobs@[k].pending@.contains(d) {
                    assert(Seq::<JobId>::empty().contains(self.jobs@[k].id));
                }
            }
        }
    }

    /// What the arrival of the artifact `d` makes of `before`.
    ///
    /// An artifact that was resident is dropped and nothing happens. One that
    /// was not is either stored, and then no job waits for it any more, or
    /// lost to a failure of the file system, and then the jobs that waited for
    /// it have failed. Which of the two is for the file system to say.
    pub open spec fn artifact_post(&self, before: &Self, d: Digest, actions: Seq<Action>) -> bool {
        &&& self.is_stopped() == before.is_stopped()
        &&& self.cache_root() == before.cache_root()
        &&& self.slots_view() == before.slots_view()
        &&& before.cache_view().is_resident(d) ==> self.same_state(before) && actions.len() == 0
        &&& !before.cache_view().is_resident(d) ==> !self.cache_view().is_fetching(d) && if self.cache_view().is_resident(
            d,
        ) {
            &&& self.jobs_view().len() == before.jobs_view().len()
            &&& forall|k: int|
                0 <= k < self.jobs_view().len() ==> after_arrival(
                    before.jobs_view()[k],
                    #[trigger] self.jobs_view()[k],
                    d,
                )
            &&& self.builds_view() == builds_after_arrival(
                before.jobs_view(),
                d,
                before.cache_view().waiters(d),
                before.builds_view(),
            )
            &&& actions == arrival_actions(
                before.jobs_view(),
                d,
                before.cache_view().waiters(d),
                before.builds_view(),
            )
            &&& exists|size: nat|
                self.cache_view() == decrement_n(
                    (#[trigger] before.cache_view().evict_for(size)).install(d, size),
                    d,
                    (before.cache_view().waiters(d).len() - holders(self.jobs_view(), d)) as nat,
                )
        } else {
            &&& after_loss(before.jobs_view(), self.jobs_view(), d)
            &&& self.jobs_view() == survivors(before.jobs_view(), d)
            &&& self.builds_view() == before.builds_view()
            &&& actions == loss_actions(before.jobs_view(), d, before.cache_view().waiters(d))
            &&& exists|size: nat|
                self.cache_view() == cache_after_loss(
                    before.jobs_view(),
                    d,
                    before.cache_view().waiters(d),
                    before.cache_view().fail(d),
                ) || self.cache_view() == cache_after_loss(
                    before.jobs_view(),
                    d,
                    before.cache_view().waiters(d),
                    (#[trigger] before.cache_view().evict_for(size)).fail(d),
                )
        }
        &&& forall|x: Digest|
            x != d ==> #[trigger] self.cache_view().is_fetching(x) == before.cache_view().is_fetching(
                x,
            )
        &&& forall|x: Digest|
            x != d ==> #[trigger] self.cache_view().waiters(x) == before.cache_view().waiters(x)
        &&& forall|x: Digest|
            x != d && #[trigger] self.cache_view().is_resident(x)
                ==> before.cache_view().is_resident(x)
    }

    /// The artifact `digest` has arrived in `temp_file`, fetched or pushed.
    ///
    /// The cache takes it in. Each job that waited for it no longer does, and
    /// one that waits for nothing else goes on to its layers. If the file
    /// system fails, the jobs that waited for the artifact fail.
    pub fn receive_artifact(&mut self, digest: Digest, temp_file: F::TempFile) -> (actions: Vec<
        Action,
    >)
        requires
            old(self).wf(),
        ensures
            final(self).wf(),
            final(self).artifact_post(old(self), digest, actions@),
    {
        let mut actions: Vec<Action> = Vec::new();
        let ghost cache0 = self.cache@;
        let ghost jobs0 = self.jobs@;
        proof {
            self.cache.lemma_view_wf();
        }
        let got = self.cache.got_artifact(digest, temp_file);
        proof {
            self.cache.lemma_view_wf();
        }
        match got {
            GotArtifact::Discarded => {},
            GotArtifact::Stored { size, waiters, .. } => {
                proof {
                    cache0.lemma_evict_for_wf(size as nat);
                    cache0.lemma_evict_for_effect(size as nat);
                    let roomy = cache0.evict_for(size as nat);
                    roomy.lemma_install_effect(digest, size as nat);
                    assert forall|x: Digest| x != digest implies #[trigger] self.cache@.ref_count(x)
                        == holders(jobs0, x) by {
                        assert(roomy.ref_count(x) == cache0.ref_count(x));
                    }
                    assert(cache0.ref_count(digest) == 0);
                    assert(roomy.waiters(digest) == cache0.waiters(digest));
                    assert forall|i: int, x: Digest|
                        0 <= i < jobs0.len() && #[trigger] jobs0[i].pending@.contains(x) && x
                            != digest implies self.cache@.is_fetching(x) && self.cache@.waiters(
                        x,
                    ).contains(jobs0[i].id) by {
                        assert(roomy.is_fetching(x) == cache0.is_fetching(x));
                        assert(roomy.waiters(x) == cache0.waiters(x));
                    }
                    assert forall|x: Digest| x != digest && #[trigger] self.cache@.is_resident(
                        x,
                    ) implies cache0.is_resident(x) by {
                        assert(roomy.is_resident(x));
                    }
                    assert forall|x: Digest| x != digest implies #[trigger] self.cache@.is_fetching(
                        x,
                    ) == cache0.is_fetching(x) by {
                        assert(roomy.is_fetching(x) == cache0.is_fetching(x));
                    }
                    assert forall|x: Digest| x != digest implies #[trigger] self.cache@.waiters(x)
                        == cache0.waiters(x) by {
                        assert(roomy.waiters(x) == cache0.waiters(x));
                    }
                }
                let ghost installed = self.cache@;
                self.artifact_stored(digest, &waiters, &mut actions);
                proof {
                    assert(installed == cache0.evict_for(size as nat).install(digest, size as nat));
                    assert(holders(jobs0, digest) == 0);
                    let acts = arrival_actions(
                        jobs0,
                        digest,
                        cache0.waiters(digest),
                        old(self).builds_view(),
                    );
                    assert(Seq::<Action>::empty() + acts =~= acts);
                }
            },
            GotArtifact::Failed { waiters, room_made_for, .. } => {
                proof {
                    match room_made_for {
                        None => {
                            cache0.lemma_fail_effect(digest);
                        },
                        Some(size) => {
                            cache0.lemma_evict_for_wf(size as nat);
                            cache0.lemma_evict_for_effect(size as nat);
                            let roomy = cache0.evict_for(size as nat);
                            roomy.lemma_fail_effect(digest);
                            assert forall|x: Digest| #[trigger]
                                self.cache@.ref_count(x) == cache0.ref_count(x) by {
                                assert(roomy.ref_count(x) == cache0.ref_count(x));
                            }
                            assert forall|x: Digest| x != digest implies #[trigger]
                                self.cache@.is_fetching(x) == cache0.is_fetching(x) by {
                                assert(roomy.is_fetching(x) == cache0.is_fetching(x));
                            }
                            assert forall|x: Digest| x != digest implies #[trigger]
                                self.cache@.waiters(x) == cache0.waiters(x) by {
                                assert(roomy.waiters(x) == cache0.waiters(x));
                            }
                            assert forall|x: Digest| #[trigger]
                                self.cache@.is_resident(x) implies cache0.is_resident(x) by {
                                assert(roomy.is_resident(x));
                            }
                        },
                    }
                    assert forall|i: int, x: Digest|
                        0 <= i < jobs0.len() && #[trigger] jobs0[i].pending@.contains(x) && x
                            != digest implies self.cache@.is_fetching(x) && self.cache@.waiters(
                        x,
                    ).contains(jobs0[i].id) by {
                        assert(cache0.is_fetching(x));
                    }
                }
                let ghost failed = self.cache@;
                self.artifact_lost(digest, &waiters, &mut actions);
                proof {
                    let acts = loss_actions(jobs0, digest, cache0.waiters(digest));
                    assert(Seq::<Action>::empty() + acts =~= acts);
                    match room_made_for {
                        None => {
                            assert(failed == cache0.fail(digest));
                            assert(cache0.evict_for(0) == cache0.evict_for(0));
                        },
                        Some(size) => {
                            assert(failed == cache0.evict_for(size as nat).fail(digest));
                        },
                    }
                }
            },
        }
        actions
    }

    /// What the failure of the fetch of `d` makes of `before`: the fetch is
    /// over, the jobs that waited for it have failed, and the next job that
    /// needs `d` will start a new fetch.
    pub open spec fn fetch_failure_post(&self, before: &Self, d: Digest, actions: Seq<Action>) -> bool {
        &&& self.is_stopped() == before.is_stopped()
        &&& self.cache_root() == before.cache_root()
        &&& self.slots_view() == before.slots_view()
        &&& self.builds_view() == before.builds_view()
        &&& after_loss(before.jobs_view(), self.jobs_view(), d)
        &&& self.jobs_view() == survivors(before.jobs_view(), d)
        &&& actions == loss_actions(before.jobs_view(), d, before.cache_view().waiters(d))
        &&& self.cache_view() == cache_after_loss(
            before.jobs_view(),
            d,
            before.cache_view().waiters(d),
            before.cache_view().fail(d),
        )
        &&& forall|x: Digest| #[trigger]
            self.cache_view().is_fetching(x) == (before.cache_view().is_fetching(x) && x != d)
        &&& forall|x: Digest|
            x != d ==> #[trigger] self.cache_view().waiters(x) == before.cache_view().waiters(x)
        &&& forall|x: Digest| #[trigger]
            self.cache_view().is_resident(x) == before.cache_view().is_resident(x)
    }

    /// The fetch of the artifact `digest` has failed.
    pub fn receive_artifact_failure(&mut self, digest: Digest) -> (actions: Vec<Action>)
        requires
            old(self).wf(),
        ensures
            final(self).wf(),
            final(self).fetch_failure_post(old(self), digest, actions@),
    {
        let mut actions: Vec<Action> = Vec::new();
        let ghost cache0 = self.cache@;
        let ghost jobs0 = self.jobs@;
        proof {
            self.cache.lemma_view_wf();
            cache0.lemma_fail_effect(digest);
        }
        let waiters = self.cache.got_artifact_failure(digest);
        proof {
            self.cache.lemma_view_wf();
            assert forall|i: int, x: Digest|
                0 <= i < jobs0.len() && #[trigger] jobs0[i].pending@.contains(x) && x
                    != digest implies self.cache@.is_fetching(x) && self.cache@.waiters(x).contains(
                jobs0[i].id,
            ) by {
                assert(cache0.is_fetching(x));
            }
        }
        self.artifact_lost(digest, &waiters, &mut actions);
        proof {
            let acts = loss_actions(jobs0, digest, cache0.waiters(digest));
            assert(Seq::<Action>::empty() + acts =~= acts);
        }
        actions
    }
}

} // verus!
