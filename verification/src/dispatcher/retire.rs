//! How a job leaves the worker.

use crate::cache::Cache;
use crate::cache_model::CacheView;
use crate::fs::Fs;
use crate::ids::{Digest, JobId};
use crate::job::{JobOutcome, JobStatus};
use crate::job_table::{
    find_job, holders, holds_one, Job, job_ids, job_wf, lemma_holders_remove, lemma_holders_update,
    same_but_status,
};
use crate::pool::PoolView;
use crate::seq_util::{lemma_remove_distinct, position_of_digest};
use super::{Action, Dispatcher, pending_ok, refs_ok, status_matches};
use vstd::prelude::*;

verus! {

/// The cache after one reference has been given back to each of the digests
/// `ds` that is not among `pending`, in the order of `ds`.
pub open spec fn release_list(cache: CacheView, ds: Seq<Digest>, pending: Seq<Digest>) -> CacheView
    decreases ds.len(),
{
    if ds.len() == 0 {
        cache
    } else if pending.contains(ds.last()) {
        release_list(cache, ds.drop_last(), pending)
    } else {
        release_list(cache, ds.drop_last(), pending).decrement_ref(ds.last())
    }
}

/// The cache after `job` has given back the references it holds, in the
/// order of its artifacts.
pub open spec fn released(cache: CacheView, job: Job) -> CacheView {
    release_list(cache, job.artifacts@, job.pending@)
}

/// Gives back the references that `job` holds. `rest` are the other jobs.
pub(crate) fn release_refs<F: Fs>(cache: &mut Cache<F>, job: &Job, Ghost(rest): Ghost<Seq<Job>>)
    requires
        old(cache).wf(),
        job_wf(*job),
        forall|d: Digest| #[trigger]
            old(cache)@.ref_count(d) == holders(rest, d) + holds_one(*job, d),
    ensures
        final(cache).wf(),
        final(cache).root_path() == old(cache).root_path(),
        refs_ok(final(cache)@, rest),
        final(cache)@ == released(old(cache)@, *job),
        forall|x: Digest| #[trigger] final(cache)@.is_fetching(x) == old(cache)@.is_fetching(x),
        forall|x: Digest| #[trigger] final(cache)@.waiters(x) == old(cache)@.waiters(x),
        forall|x: Digest| #[trigger] final(cache)@.is_resident(x) == old(cache)@.is_resident(x),
{
    let mut k: usize = 0;
    proof {
        assert(job.artifacts@.skip(0) =~= job.artifacts@);
        assert(job.artifacts@.take(0) =~= Seq::<Digest>::empty());
    }
    while k < job.artifacts.len()
        invariant
            k <= job.artifacts@.len(),
            cache.wf(),
            cache@ == release_list(old(cache)@, job.artifacts@.take(k as int), job.pending@),
            job_wf(*job),
            cache.root_path() == old(cache).root_path(),
            forall|d: Digest| #[trigger]
                cache@.ref_count(d) == holders(rest, d) + if job.artifacts@.skip(k as int).contains(
                    d,
                ) && !job.pending@.contains(d) {
                    1nat
                } else {
                    0nat
                },
            forall|x: Digest| #[trigger] cache@.is_fetching(x) == old(cache)@.is_fetching(x),
            forall|x: Digest| #[trigger] cache@.waiters(x) == old(cache)@.waiters(x),
            forall|x: Digest| #[trigger] cache@.is_resident(x) == old(cache)@.is_resident(x),
        decreases job.artifacts@.len() - k,
    {
        let d = job.artifacts[k];
        let ghost before = cache@;
        let ghost tail = job.artifacts@.skip(k as int);
        let ghost tail2 = job.artifacts@.skip(k as int + 1);
        proof {
            assert(job.artifacts@.take(k as int + 1).drop_last() =~= job.artifacts@.take(k as int));
            assert(job.artifacts@.take(k as int + 1).last() == d);
            assert(tail[0] == d);
            assert(tail2 =~= tail.remove(0));
            lemma_remove_distinct(tail, 0);
            assert(tail.no_duplicates()) by {
                assert forall|a: int, b: int|
                    0 <= a < tail.len() && 0 <= b < tail.len() && a != b implies tail[a]
                    != tail[b] by {
                    assert(tail[a] == job.artifacts@[a + k]);
                    assert(tail[b] == job.artifacts@[b + k]);
                }
            }
        }
        if position_of_digest(&job.pending, d).is_none() {
            proof {
                cache.lemma_view_wf();
                before.lemma_decrement_ref_effect(d);
                assert(tail.contains(d));
                assert(before.ref_count(d) > 0);
            }
            cache.decrement_ref(d);
        }
        proof {
            assert forall|x: Digest| #[trigger]
                cache@.ref_count(x) == holders(rest, x) + if tail2.contains(x)
                    && !job.pending@.contains(x) {
                    1nat
                } else {
                    0nat
                } by {
                assert(before.ref_count(x) == holders(rest, x) + if tail.contains(x)
                    && !job.pending@.contains(x) {
                    1nat
                } else {
                    0nat
                });
                assert(tail2.contains(x) <==> tail.contains(x) && x != d);
            }
        }
        k += 1;
    }
    proof {
        assert(job.artifacts@.skip(k as int) =~= Seq::empty());
        assert(job.artifacts@.take(k as int) =~= job.artifacts@);
    }
}

/// The ids of a table from which one job has been taken.
pub(crate) proof fn lemma_ids_remove(jobs: Seq<Job>, i: int)
    requires
        job_ids(jobs).no_duplicates(),
        0 <= i < jobs.len(),
    ensures
        job_ids(jobs.remove(i)) == job_ids(jobs).remove(i),
        job_ids(jobs.remove(i)).no_duplicates(),
        forall|x: JobId| #[trigger]
            job_ids(jobs.remove(i)).contains(x) <==> job_ids(jobs).contains(x) && x != jobs[i].id,
{
    assert(job_ids(jobs.remove(i)) =~= job_ids(jobs).remove(i));
    lemma_remove_distinct(job_ids(jobs), i);
}

/// A record that keeps its id keeps the ids of the table.
pub(crate) proof fn lemma_ids_update(jobs: Seq<Job>, i: int, job: Job)
    requires
        0 <= i < jobs.len(),
        job.id == jobs[i].id,
    ensures
        job_ids(jobs.update(i, job)) == job_ids(jobs),
{
    assert(job_ids(jobs.update(i, job)) =~= job_ids(jobs));
}

/// What the worker does when `job` ends with `outcome`: it tells the broker,
/// removes the sandbox if the job had one, and hands the place of the job to
/// the one that has waited longest for it.
pub open spec fn retire_actions(
    job: Job,
    outcome: JobOutcome,
    slots: PoolView,
    builds: PoolView,
) -> Seq<Action> {
    let told = seq![
        Action::JobStateTransition(job.id, outcome.spec_status()),
        Action::JobCompleted(job.id, outcome),
    ];
    match job.status {
        JobStatus::WaitingForLayers => {
            if builds.running.contains(job.id) && builds.next() is Some {
                told.push(Action::BuildLayers(builds.next()->0))
            } else {
                told
            }
        },
        JobStatus::Ready => told.push(Action::RemoveSandbox(job.id)),
        JobStatus::Executing => {
            if slots.next() is Some {
                told.push(Action::RemoveSandbox(job.id)).push(
                    Action::JobStateTransition(slots.next()->0, JobStatus::Executing),
                ).push(Action::StartJob(slots.next()->0))
            } else {
                told.push(Action::RemoveSandbox(job.id))
            }
        },
        _ => told,
    }
}

/// The slots after `job` has ended: a job that executed gives its slot to the
/// ready job that has waited longest, and a ready job leaves the line.
pub open spec fn slots_after_retire(job: Job, slots: PoolView) -> PoolView {
    match job.status {
        JobStatus::Ready => slots.withdraw(job.id),
        JobStatus::Executing => slots.release(job.id),
        _ => slots,
    }
}

/// The build places after `job` has ended: a job that was being built gives
/// its place to the one that has waited longest, and one that waited leaves
/// the line.
pub open spec fn builds_after_retire(job: Job, builds: PoolView) -> PoolView {
    match job.status {
        JobStatus::WaitingForLayers => if builds.running.contains(job.id) {
            builds.release(job.id)
        } else {
            builds.withdraw(job.id)
        },
        _ => builds,
    }
}

impl<F: Fs> Dispatcher<F> {
    /// Ends the job at index `i` with `outcome`: the job leaves the table,
    /// its references go back to the cache, and its place, if it had one,
    /// goes to the next in line.
    pub(crate) fn retire(&mut self, i: usize, outcome: JobOutcome, actions: &mut Vec<Action>)
        requires
            old(self).base_wf(),
            i < old(self).jobs_view().len(),
        ensures
            final(self).base_wf(),
            final(self).is_stopped() == old(self).is_stopped(),
            final(self).cache_root() == old(self).cache_root(),
            final(self).jobs_view().len() == old(self).jobs_view().len() - 1,
            forall|k: int|
                0 <= k < final(self).jobs_view().len() ==> same_but_status(
                    #[trigger] final(self).jobs_view()[k],
                    old(self).jobs_view().remove(i as int)[k],
                ),
            forall|x: JobId| #[trigger]
                final(self).is_live(x) <==> old(self).is_live(x) && x != old(self).jobs_view()[i as int].id,
            forall|x: Digest| #[trigger]
                final(self).cache_view().is_fetching(x) == old(self).cache_view().is_fetching(x),
            forall|x: Digest| #[trigger]
                final(self).cache_view().waiters(x) == old(self).cache_view().waiters(x),
            forall|x: Digest| #[trigger]
                final(self).cache_view().is_resident(x) == old(self).cache_view().is_resident(x),
            final(actions)@ == old(actions)@ + retire_actions(
                old(self).jobs_view()[i as int],
                outcome,
                old(self).slots_view(),
                old(self).builds_view(),
            ),
            !(old(self).jobs_view()[i as int].status is Executing) ==> final(self).jobs_view()
                == old(self).jobs_view().remove(i as int),
            final(self).cache_view() == released(
                old(self).cache_view(),
                old(self).jobs_view()[i as int],
            ),
            final(self).slots_view() == slots_after_retire(
                old(self).jobs_view()[i as int],
                old(self).slots_view(),
            ),
            final(self).builds_view() == builds_after_retire(
                old(self).jobs_view()[i as int],
                old(self).builds_view(),
            ),
    {
        let ghost jobs0 = self.jobs@;
        let ghost slots0 = self.slots@;
        let ghost builds0 = self.builds@;
        let ghost actions0 = actions@;
        proof {
            lemma_ids_remove(jobs0, i as int);
            assert forall|d: Digest| #[trigger]
                self.cache@.ref_count(d) == holders(jobs0.remove(i as int), d) + holds_one(
                    jobs0[i as int],
                    d,
                ) by {
                lemma_holders_remove(jobs0, i as int, d);
            }
            assert(job_wf(jobs0[i as int]));
            assert(status_matches(jobs0[i as int], slots0, builds0));
        }
        let job = self.jobs.remove(i);
        let ghost jobs1 = self.jobs@;
        assert(jobs1 == jobs0.remove(i as int));
        assert forall|k: int| 0 <= k < jobs1.len() implies job_wf(#[trigger] jobs1[k])
            && status_matches(jobs1[k], slots0, builds0) && jobs1[k].id != job.id by {
            let k0 = if k < i { k } else { k + 1 };
            assert(jobs1[k] == jobs0[k0]);
            assert(job_ids(jobs0)[k0] == jobs0[k0].id);
            assert(job_ids(jobs0)[i as int] == job.id);
        }
        release_refs(&mut self.cache, &job, Ghost(jobs1));
        proof {
            self.cache.lemma_view_wf();
        }
        let id = job.id;
        let status = outcome.status();
        actions.push(Action::JobStateTransition(id, status));
        actions.push(Action::JobCompleted(id, outcome));
        match job.status {
            JobStatus::WaitingForLayers => {
                proof {
                    slots0.lemma_withdraw(id);
                    builds0.lemma_release(id);
                    builds0.lemma_withdraw(id);
                }
                if self.builds.is_running(id) {
                    let next = self.builds.release(id);
                    match next {
                        Some(n) => {
                            actions.push(Action::BuildLayers(n));
                        },
                        None => {},
                    }
                } else {
                    self.builds.withdraw(id);
                }
                proof {
                    assert forall|k: int| 0 <= k < jobs1.len() implies status_matches(
                        #[trigger] jobs1[k],
                        self.slots@,
                        self.builds@,
                    ) by {
                        assert(status_matches(jobs1[k], slots0, builds0));
                    }
                    assert forall|j: JobId| #[trigger]
                        job_ids(jobs1).contains(j) || !(self.builds@.contains(j)
                            || self.slots@.contains(j)) by {
                        assert(job_ids(jobs0).contains(j) || !(builds0.contains(j)
                            || slots0.contains(j)));
                    }
                }
            },
            JobStatus::Ready => {
                proof {
                    slots0.lemma_withdraw(id);
                }
                self.slots.withdraw(id);
                actions.push(Action::RemoveSandbox(id));
                proof {
                    assert forall|k: int| 0 <= k < jobs1.len() implies status_matches(
                        #[trigger] jobs1[k],
                        self.slots@,
                        self.builds@,
                    ) by {
                        assert(status_matches(jobs1[k], slots0, builds0));
                    }
                    assert forall|j: JobId| #[trigger]
                        job_ids(jobs1).contains(j) || !(self.builds@.contains(j)
                            || self.slots@.contains(j)) by {
                        assert(job_ids(jobs0).contains(j) || !(builds0.contains(j)
                            || slots0.contains(j)));
                    }
                }
            },
            JobStatus::Executing => {
                proof {
                    slots0.lemma_release(id);
                }
                actions.push(Action::RemoveSandbox(id));
                let next = self.slots.release(id);
                match next {
                    Some(n) => {
                        proof {
                            assert(slots0.queue.contains(n));
                            assert(job_ids(jobs0).contains(n) || !(builds0.contains(n)
                                || slots0.contains(n)));
                            assert(job_ids(jobs1).contains(n));
                        }
                        match find_job(&self.jobs, n) {
                            Some(k) => {
                                proof {
                                    assert(status_matches(jobs1[k as int], slots0, builds0));
                                }
                                self.jobs[k].status = JobStatus::Executing;
                                proof {
                                    let jobs2 = self.jobs@;
                                    assert(jobs2 =~= jobs1.update(k as int, jobs2[k as int]));
                                    lemma_ids_update(jobs1, k as int, jobs2[k as int]);
                                    assert forall|d: Digest| #[trigger]
                                        self.cache@.ref_count(d) == holders(jobs2, d) by {
                                        lemma_holders_update(jobs1, k as int, jobs2[k as int], d);
                                        assert(holds_one(jobs2[k as int], d) == holds_one(
                                            jobs1[k as int],
                                            d,
                                        ));
                                    }
                                    assert forall|m: int| 0 <= m < jobs2.len() implies job_wf(
                                        #[trigger] jobs2[m],
                                    ) && status_matches(jobs2[m], self.slots@, self.builds@) by {
                                        if m != k {
                                            assert(jobs2[m] == jobs1[m]);
                                            assert(status_matches(jobs1[m], slots0, builds0));
                                            assert(job_ids(jobs1)[m] == jobs1[m].id);
                                            assert(job_ids(jobs1)[k as int] == n);
                                        }
                                    }
                                }
                                actions.push(Action::JobStateTransition(n, JobStatus::Executing));
                                actions.push(Action::StartJob(n));
                            },
                            None => {},
                        }
                    },
                    None => {
                        proof {
                            assert forall|m: int| 0 <= m < jobs1.len() implies status_matches(
                                #[trigger] jobs1[m],
                                self.slots@,
                                self.builds@,
                            ) by {
                                assert(status_matches(jobs1[m], slots0, builds0));
                            }
                        }
                    },
                }
                proof {
                    assert forall|j: JobId| #[trigger]
                        job_ids(self.jobs@).contains(j) || !(self.builds@.contains(j)
                            || self.slots@.contains(j)) by {
                        assert(job_ids(jobs0).contains(j) || !(builds0.contains(j)
                            || slots0.contains(j)));
                    }
                }
            },
            _ => {
                proof {
                    assert forall|k: int| 0 <= k < jobs1.len() implies status_matches(
                        #[trigger] jobs1[k],
                        self.slots@,
                        self.builds@,
                    ) by {
                        assert(status_matches(jobs1[k], slots0, builds0));
                    }
                    assert forall|j: JobId| #[trigger]
                        job_ids(jobs1).contains(j) || !(self.builds@.contains(j)
                            || self.slots@.contains(j)) by {
                        assert(job_ids(jobs0).contains(j) || !(builds0.contains(j)
                            || slots0.contains(j)));
                    }
                }
            },
        }
        proof {
            assert(actions@ =~= actions0 + retire_actions(jobs0[i as int], outcome, slots0, builds0));
        }
    }
}

/// After a job has left and the fetches are as they were, the jobs that
/// remain still wait only for artifacts that are being fetched for them.
pub(crate) proof fn lemma_pending_after_remove(
    cache0: CacheView,
    cache1: CacheView,
    jobs0: Seq<Job>,
    i: int,
    jobs1: Seq<Job>,
)
    requires
        pending_ok(cache0, jobs0),
        0 <= i < jobs0.len(),
        jobs1.len() == jobs0.len() - 1,
        forall|k: int|
            0 <= k < jobs1.len() ==> same_but_status(#[trigger] jobs1[k], jobs0.remove(i)[k]),
        forall|x: Digest| #[trigger] cache1.is_fetching(x) == cache0.is_fetching(x),
        forall|x: Digest| #[trigger] cache1.waiters(x) == cache0.waiters(x),
    ensures
        pending_ok(cache1, jobs1),
{
    assert forall|k: int, d: Digest|
        0 <= k < jobs1.len() && #[trigger] jobs1[k].pending@.contains(d) implies cache1.is_fetching(
        d,
    ) && cache1.waiters(d).contains(jobs1[k].id) by {
        let k0 = if k < i { k } else { k + 1 };
        assert(same_but_status(jobs1[k], jobs0.remove(i)[k]));
        assert(jobs0.remove(i)[k] == jobs0[k0]);
        assert(jobs0[k0].pending@.contains(d));
        assert(cache1.is_fetching(d) == cache0.is_fetching(d));
        assert(cache1.waiters(d) == cache0.waiters(d));
    }
}

impl<F: Fs> Dispatcher<F> {
    /// Whether `self` is `before` without the job `id`: the other jobs are
    /// as they were, but for where they stand, which the pools say, and the
    /// cache holds and fetches what it did.
    pub open spec fn without_job(&self, before: &Self, id: JobId) -> bool {
        let i = job_ids(before.jobs_view()).index_of(id);
        &&& !self.is_live(id)
        &&& self.jobs_view().len() == before.jobs_view().len() - 1
        &&& forall|k: int|
            0 <= k < self.jobs_view().len() ==> same_but_status(
                #[trigger] self.jobs_view()[k],
                before.jobs_view().remove(i)[k],
            )
        &&& self.slots_view() == slots_after_retire(before.job_of(id), before.slots_view())
        &&& self.builds_view() == builds_after_retire(before.job_of(id), before.builds_view())
        &&& self.cache_view() == released(before.cache_view(), before.job_of(id))
        &&& forall|x: Digest| #[trigger]
            self.cache_view().is_fetching(x) == before.cache_view().is_fetching(x)
        &&& forall|x: Digest| #[trigger]
            self.cache_view().waiters(x) == before.cache_view().waiters(x)
        &&& forall|x: Digest| #[trigger]
            self.cache_view().is_resident(x) == before.cache_view().is_resident(x)
    }
}

} // verus!
