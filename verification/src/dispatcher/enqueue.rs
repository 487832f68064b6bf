//! The arrival of a job.

use crate::cache::GetArtifact;
use crate::cache_model::{CacheView, Lookup};
use crate::fs::Fs;
use crate::ids::{Digest, JobId};
use crate::job::{collect_digests, JobSpec, JobStatus, lemma_distinct_digests};
use crate::job_table::{
    find_job, holders, Job, job_ids, job_wf, lemma_holders_bound, lemma_holders_push,
};
use crate::pool::PoolView;
use crate::seq_util::{lemma_push_distinct, lemma_remove_distinct};
use super::{Action, Dispatcher, FatalError, pending_ok, Reaction, status_matches};
use vstd::prelude::*;

verus! {

/// Those of the digests `ds` that are not resident in `cache`, in order.
pub open spec fn missing(cache: CacheView, ds: Seq<Digest>) -> Seq<Digest>
    decreases ds.len(),
{
    if ds.len() == 0 {
        Seq::empty()
    } else if cache.is_resident(ds.last()) {
        missing(cache, ds.drop_last())
    } else {
        missing(cache, ds.drop_last()).push(ds.last())
    }
}

/// A request to fetch each of the digests `ds` that `cache` does not know, in order.
pub open spec fn fetches(cache: CacheView, ds: Seq<Digest>) -> Seq<Action>
    decreases ds.len(),
{
    if ds.len() == 0 {
        Seq::empty()
    } else if cache.lookup(ds.last()) == Lookup::NeedFetch {
        fetches(cache, ds.drop_last()).push(Action::GetArtifact(ds.last()))
    } else {
        fetches(cache, ds.drop_last())
    }
}

/// The cache after the job `id` has asked for each of the digests `ds`, in order.
pub open spec fn request_all(cache: CacheView, ds: Seq<Digest>, id: JobId) -> CacheView
    decreases ds.len(),
{
    if ds.len() == 0 {
        cache
    } else {
        request_all(cache, ds.drop_last(), id).get_artifact(ds.last(), id)
    }
}

/// What the worker does when it accepts the job `id`: it tells the broker
/// that the job waits for its artifacts, asks for those that nobody has asked
/// for yet, and, if none is missing, goes on to the layers at once.
pub open spec fn enqueue_actions(
    id: JobId,
    ds: Seq<Digest>,
    cache: CacheView,
    builds: PoolView,
) -> Seq<Action> {
    let asked = seq![Action::JobStateTransition(id, JobStatus::WaitingForArtifacts)] + fetches(
        cache,
        ds,
    );
    if missing(cache, ds).len() > 0 {
        asked
    } else if builds.starts_at_once() {
        asked.push(Action::JobStateTransition(id, JobStatus::WaitingForLayers)).push(
            Action::BuildLayers(id),
        )
    } else {
        asked.push(Action::JobStateTransition(id, JobStatus::WaitingForLayers))
    }
}

/// What is missing is part of what was asked for, without repeats.
pub proof fn lemma_missing(cache: CacheView, ds: Seq<Digest>)
    requires
        ds.no_duplicates(),
    ensures
        missing(cache, ds).no_duplicates(),
        forall|d: Digest| #[trigger]
            missing(cache, ds).contains(d) <==> ds.contains(d) && !cache.is_resident(d),
    decreases ds.len(),
{
    if ds.len() > 0 {
        let init = ds.drop_last();
        let last = ds.last();
        assert(init =~= ds.remove(ds.len() - 1));
        lemma_remove_distinct(ds, ds.len() - 1);
        lemma_missing(cache, init);
        if !cache.is_resident(last) {
            lemma_push_distinct(missing(cache, init), last);
        }
        assert forall|d: Digest| #[trigger]
            missing(cache, ds).contains(d) <==> ds.contains(d) && !cache.is_resident(d) by {
            assert(init.contains(d) <==> ds.contains(d) && d != last);
            assert(ds[ds.len() - 1] == last);
        }
    }
}

impl<F: Fs> Dispatcher<F> {
    /// What the arrival of the job `id` makes of `before`.
    pub open spec fn enqueue_post(&self, before: &Self, id: JobId, spec: JobSpec, r: Reaction) -> bool {
        &&& self.cache_root() == before.cache_root()
        &&& before.is_stopped() ==> self.same_state(before) && r.actions@.len() == 0
            && r.fatal is None
        &&& !before.is_stopped() && (before.is_live(id) || before.jobs_view().len() >= usize::MAX)
            ==> {
            &&& r.fatal == if before.is_live(id) {
                Some(FatalError::DuplicateJob(id))
            } else {
                Some(FatalError::TableFull)
            }
            &&& self.shut_down_post(before, r.actions@)
        }
        &&& !before.is_stopped() && !before.is_live(id) && before.jobs_view().len() < usize::MAX
            ==> {
            let ds = crate::job::distinct_digests(spec.layers@);
            let job = self.job_of(id);
            &&& r.fatal is None
            &&& !self.is_stopped()
            &&& self.jobs_view().len() == before.jobs_view().len() + 1
            &&& self.jobs_view().drop_last() == before.jobs_view()
            &&& self.is_live(id)
            &&& job == self.jobs_view().last()
            &&& job.id == id
            &&& job.spec == spec
            &&& job.artifacts@ == ds
            &&& job.pending@ == missing(before.cache_view(), ds)
            &&& !job.cancel_requested
            &&& job.status == if job.pending@.len() > 0 {
                JobStatus::WaitingForArtifacts
            } else {
                JobStatus::WaitingForLayers
            }
            &&& self.cache_view() == request_all(before.cache_view(), ds, id)
            &&& self.slots_view() == before.slots_view()
            &&& self.builds_view() == if job.pending@.len() > 0 {
                before.builds_view()
            } else {
                before.builds_view().submit(id)
            }
            &&& r.actions@ == enqueue_actions(id, ds, before.cache_view(), before.builds_view())
        }
    }

    /// The broker sends the job `id`.
    ///
    /// After a shutdown no job is accepted. A job whose id is in use is a
    /// breach of the protocol: the message is dropped and the worker shuts
    /// down. Otherwise the job is recorded, and each of its artifacts is
    /// asked for once. Those that are resident gain a reference; for the
    /// others the job waits, and for those that nobody waits for yet a fetch
    /// is started. A job that waits for nothing goes on to its layers.
    pub fn receive_enqueue_job(&mut self, id: JobId, spec: JobSpec) -> (r: Reaction)
        requires
            old(self).wf(),
        ensures
            final(self).wf(),
            final(self).enqueue_post(old(self), id, spec, r),
    {
        let mut actions: Vec<Action> = Vec::new();
        if self.stopped {
            return Reaction { actions, fatal: None };
        }
        if let Some(i) = find_job(&self.jobs, id) {
            proof {
                self.lemma_job_of(i as int);
            }
            self.shut_down(&mut actions);
            return Reaction { actions, fatal: Some(FatalError::DuplicateJob(id)) };
        }
        if self.jobs.len() >= usize::MAX {
            self.shut_down(&mut actions);
            return Reaction { actions, fatal: Some(FatalError::TableFull) };
        }
        let ghost jobs0 = self.jobs@;
        let ghost cache0 = self.cache@;
        let ghost builds0 = self.builds@;
        let artifacts = collect_digests(&spec.layers);
        let ghost ds = artifacts@;
        proof {
            lemma_distinct_digests(spec.layers@);
        }
        let mut pending: Vec<Digest> = Vec::new();
        actions.push(Action::JobStateTransition(id, JobStatus::WaitingForArtifacts));
        let mut k: usize = 0;
        proof {
            assert(ds.take(0) =~= Seq::<Digest>::empty());
            assert(actions@ =~= seq![Action::JobStateTransition(id, JobStatus::WaitingForArtifacts)]
                + fetches(cache0, ds.take(0)));
        }
        while k < artifacts.len()
            invariant
                k <= ds.len(),
                ds == artifacts@,
                ds.no_duplicates(),
                self.cache.wf(),
                self.cache.root_path() == old(self).cache.root_path(),
                self.jobs@ == jobs0,
                self.slots@ == old(self).slots@,
                self.builds@ == builds0,
                self.stopped == old(self).stopped,
                jobs0.len() < usize::MAX,
                self.cache@ == request_all(cache0, ds.take(k as int), id),
                pending@ == missing(cache0, ds.take(k as int)),
                actions@ == seq![Action::JobStateTransition(id, JobStatus::WaitingForArtifacts)]
                    + fetches(cache0, ds.take(k as int)),
                forall|x: Digest| #[trigger]
                    self.cache@.ref_count(x) == holders(jobs0, x) + if ds.take(k as int).contains(x)
                        && !pending@.contains(x) {
                        1nat
                    } else {
                        0nat
                    },
                forall|x: Digest|
                    !ds.take(k as int).contains(x) ==> #[trigger] self.cache@.lookup(x)
                        == cache0.lookup(x),
                forall|x: Digest|
                    !ds.take(k as int).contains(x) ==> #[trigger] self.cache@.is_resident(x)
                        == cache0.is_resident(x),
                forall|x: Digest| #[trigger]
                    pending@.contains(x) ==> self.cache@.is_fetching(x) && self.cache@.waiters(
                        x,
                    ).contains(id),
                pending_ok(self.cache@, jobs0),
            decreases ds.len() - k,
        {
            let d = artifacts[k];
            let ghost before = self.cache@;
            let ghost pending0 = pending@;
            let ghost head = ds.take(k as int);
            let ghost head2 = ds.take(k as int + 1);
            proof {
                self.cache.lemma_view_wf();
                assert(head2.drop_last() =~= head);
                assert(head2.last() == d);
                assert(!head.contains(d)) by {
                    if head.contains(d) {
                        let a = head.index_of(d);
                        assert(ds[a] == d && ds[k as int] == d);
                    }
                }
                assert forall|x: Digest| #[trigger] head2.contains(x) <==> head.contains(x) || x
                    == d by {
                    if head.contains(x) {
                        let a = head.index_of(x);
                        assert(head2[a] == x);
                    }
                    if x == d {
                        assert(head2[k as int] == d);
                    }
                    if head2.contains(x) {
                        let a = head2.index_of(x);
                        if a < k {
                            assert(head[a] == x);
                        }
                    }
                }
                lemma_holders_bound(jobs0, d);
                lemma_missing(cache0, head);
                before.lemma_get_artifact_effect(d, id);
                assert(before.lookup(d) == cache0.lookup(d));
                assert(before.is_resident(d) == cache0.is_resident(d));
            }
            match self.cache.get_artifact(d, id) {
                GetArtifact::HaveIt { .. } => {},
                GetArtifact::Fetching => {
                    pending.push(d);
                },
                GetArtifact::NeedFetch => {
                    pending.push(d);
                    actions.push(Action::GetArtifact(d));
                },
            }
            proof {
                let after = self.cache@;
                if !cache0.is_resident(d) {
                    assert(!pending0.contains(d));
                    lemma_push_distinct(pending0, d);
                }
                assert forall|x: Digest| #[trigger]
                    after.ref_count(x) == holders(jobs0, x) + if head2.contains(x)
                        && !pending@.contains(x) {
                        1nat
                    } else {
                        0nat
                    } by {
                    assert(before.ref_count(x) == holders(jobs0, x) + if head.contains(x)
                        && !pending0.contains(x) {
                        1nat
                    } else {
                        0nat
                    });
                    assert(pending0.contains(x) ==> head.contains(x));
                }
                assert forall|x: Digest| !head2.contains(x) implies #[trigger] after.lookup(x)
                    == cache0.lookup(x) by {
                    assert(before.lookup(x) == cache0.lookup(x));
                    assert(after.is_resident(x) == before.is_resident(x));
                    assert(after.is_fetching(x) == (before.is_fetching(x) || (x == d
                        && !before.is_resident(d))));
                }
                assert forall|x: Digest| !head2.contains(x) implies #[trigger] after.is_resident(x)
                    == cache0.is_resident(x) by {
                    assert(before.is_resident(x) == cache0.is_resident(x));
                    assert(after.is_resident(x) == before.is_resident(x));
                }
                assert forall|x: Digest| #[trigger] pending@.contains(x) implies after.is_fetching(
                    x,
                ) && after.waiters(x).contains(id) by {
                    assert(after.is_fetching(x) == (before.is_fetching(x) || (x == d
                        && !before.is_resident(d))));
                    if x == d {
                        let w = before.waiters(d).push(id);
                        assert(w[w.len() - 1] == id);
                    } else {
                        assert(pending0.contains(x));
                        assert(after.waiters(x) == before.waiters(x));
                    }
                }
                assert forall|i: int, x: Digest|
                    0 <= i < jobs0.len() && #[trigger] jobs0[i].pending@.contains(
                        x,
                    ) implies after.is_fetching(x) && after.waiters(x).contains(jobs0[i].id) by {
                    assert(before.is_fetching(x) && before.waiters(x).contains(jobs0[i].id));
                    assert(after.is_fetching(x) == (before.is_fetching(x) || (x == d
                        && !before.is_resident(d))));
                    if x == d {
                        let a = before.waiters(d).index_of(jobs0[i].id);
                        assert(before.waiters(d).push(id)[a] == jobs0[i].id);
                    } else {
                        assert(after.waiters(x) == before.waiters(x));
                    }
                }
            }
            k += 1;
        }
        proof {
            assert(ds.take(k as int) =~= ds);
            lemma_missing(cache0, ds);
            self.cache.lemma_view_wf();
            assert(!job_ids(jobs0).contains(id));
            assert(job_ids(jobs0).contains(id) || !(builds0.contains(id) || self.slots@.contains(
                id,
            )));
            builds0.lemma_submit(id);
        }
        let waits = pending.len() > 0;
        let status = if waits {
            JobStatus::WaitingForArtifacts
        } else {
            JobStatus::WaitingForLayers
        };
        let job = Job { id, spec, status, artifacts, pending, cancel_requested: false };
        proof {
            assert(job_ids(jobs0.push(job)) =~= job_ids(jobs0).push(id));
            lemma_push_distinct(job_ids(jobs0), id);
            assert forall|x: Digest| #[trigger]
                self.cache@.ref_count(x) == holders(jobs0.push(job), x) by {
                lemma_holders_push(jobs0, job, x);
            }
        }
        self.jobs.push(job);
        if !waits {
            actions.push(Action::JobStateTransition(id, JobStatus::WaitingForLayers));
            if self.builds.submit(id) {
                actions.push(Action::BuildLayers(id));
            }
        }
        proof {
            let jobs1 = self.jobs@;
            assert(jobs1 == jobs0.push(job));
            assert(jobs1.drop_last() =~= jobs0);
            self.lemma_job_of(jobs0.len() as int);
            assert forall|m: int| 0 <= m < jobs1.len() implies job_wf(#[trigger] jobs1[m])
                && status_matches(jobs1[m], self.slots@, self.builds@) by {
                if m < jobs0.len() {
                    assert(jobs1[m] == jobs0[m]);
                    assert(job_wf(jobs0[m]));
                    assert(status_matches(jobs0[m], old(self).slots@, builds0));
                    assert(job_ids(jobs0)[m] == jobs0[m].id);
                }
            }
            assert forall|j: JobId| #[trigger]
                job_ids(jobs1).contains(j) || !(self.builds@.contains(j) || self.slots@.contains(
                    j,
                )) by {
                assert(job_ids(jobs0).contains(j) || !(builds0.contains(j)
                    || old(self).slots@.contains(j)));
            }
            assert forall|i: int, x: Digest|
                0 <= i < jobs1.len() && #[trigger] jobs1[i].pending@.contains(
                    x,
                ) implies self.cache@.is_fetching(x) && self.cache@.waiters(x).contains(
                jobs1[i].id,
            ) by {
                if i < jobs0.len() {
                    assert(jobs1[i] == jobs0[i]);
                    assert(jobs0[i].pending@.contains(x));
                }
            }
            assert(actions@ =~= enqueue_actions(id, ds, cache0, builds0));
        }
        Reaction { actions, fatal: None }
    }
}

} // verus!
