//! Shutting the worker down.

use crate::cache_model::CacheView;
use crate::fs::Fs;
use crate::ids::Digest;
use crate::job::{JobOutcome, JobStatus};
use crate::job_table::{Job, job_ids, job_wf};
use crate::pool::PoolView;
use super::retire::{release_refs, released};
use super::{Action, Dispatcher, FatalError, Reaction, refs_ok};
use vstd::prelude::*;

verus! {

/// What the worker does for one job when it shuts down: a job that runs is
/// stopped, the broker is told that the job is canceled, and the sandbox of
/// the job, if it had one, is removed.
pub open spec fn cancel_actions(job: Job) -> Seq<Action> {
    let stop = if job.status is Executing {
        seq![Action::CancelExecution(job.id)]
    } else {
        Seq::<Action>::empty()
    };
    let told = stop.push(Action::JobStateTransition(job.id, JobStatus::Canceled)).push(
        Action::JobCompleted(job.id, JobOutcome::Canceled),
    );
    if job.status is Ready || job.status is Executing {
        told.push(Action::RemoveSandbox(job.id))
    } else {
        told
    }
}

/// What the worker does when it shuts down, the job that arrived last first.
pub open spec fn shutdown_actions(jobs: Seq<Job>) -> Seq<Action>
    decreases jobs.len(),
{
    if jobs.len() == 0 {
        Seq::empty()
    } else {
        cancel_actions(jobs.last()) + shutdown_actions(jobs.drop_last())
    }
}

/// The cache after every job has given back the references it holds, the
/// job that arrived last first.
pub open spec fn released_all(cache: CacheView, jobs: Seq<Job>) -> CacheView
    decreases jobs.len(),
{
    if jobs.len() == 0 {
        cache
    } else {
        released_all(released(cache, jobs.last()), jobs.drop_last())
    }
}

impl<F: Fs> Dispatcher<F> {
    /// What a shutdown makes of `before`.
    pub open spec fn shut_down_post(&self, before: &Self, actions: Seq<Action>) -> bool {
        &&& self.is_stopped()
        &&& self.cache_root() == before.cache_root()
        &&& self.jobs_view().len() == 0
        &&& self.slots_view() == (PoolView {
            limit: before.slots_view().limit,
            running: Seq::empty(),
            queue: Seq::empty(),
        })
        &&& self.builds_view() == (PoolView {
            limit: before.builds_view().limit,
            running: Seq::empty(),
            queue: Seq::empty(),
        })
        &&& self.cache_view() == released_all(before.cache_view(), before.jobs_view())
        &&& forall|x: Digest| #[trigger]
            self.cache_view().is_fetching(x) == before.cache_view().is_fetching(x)
        &&& forall|x: Digest| #[trigger]
            self.cache_view().waiters(x) == before.cache_view().waiters(x)
        &&& forall|x: Digest| #[trigger]
            self.cache_view().is_resident(x) == before.cache_view().is_resident(x)
        &&& actions == shutdown_actions(before.jobs_view())
    }

    /// Stops the worker: every job ends as canceled and gives its references
    /// back, every slot and build place is free, and no new job is accepted
    /// from now on. Fetches in flight are left alone.
    pub(crate) fn shut_down(&mut self, actions: &mut Vec<Action>)
        requires
            old(self).wf(),
            old(actions)@.len() == 0,
        ensures
            final(self).wf(),
            final(self).shut_down_post(old(self), final(actions)@),
    {
        let ghost jobs0 = self.jobs@;
        while self.jobs.len() > 0
            invariant
                self.cache.wf(),
                self.cache.root_path() == old(self).cache.root_path(),
                refs_ok(self.cache@, self.jobs@),
                forall|k: int| 0 <= k < self.jobs@.len() ==> job_wf(#[trigger] self.jobs@[k]),
                forall|x: Digest| #[trigger]
                    self.cache@.is_fetching(x) == old(self).cache@.is_fetching(x),
                forall|x: Digest| #[trigger] self.cache@.waiters(x) == old(self).cache@.waiters(x),
                forall|x: Digest| #[trigger]
                    self.cache@.is_resident(x) == old(self).cache@.is_resident(x),
                self.slots@.limit == old(self).slots@.limit,
                self.builds@.limit == old(self).builds@.limit,
                actions@ + shutdown_actions(self.jobs@) == old(actions)@ + shutdown_actions(jobs0),
                released_all(self.cache@, self.jobs@) == released_all(old(self).cache@, jobs0),
            decreases self.jobs@.len(),
        {
            let ghost before = self.jobs@;
            let ghost acts = actions@;
            assert(job_wf(before[before.len() - 1]));
            let job = match self.jobs.pop() {
                Some(job) => job,
                None => {
                    return ;
                },
            };
            assert(self.jobs@ =~= before.drop_last());
            assert(job == before.last());
            release_refs(&mut self.cache, &job, Ghost(self.jobs@));
            let id = job.id;
            match job.status {
                JobStatus::Executing => {
                    actions.push(Action::CancelExecution(id));
                },
                _ => {},
            }
            actions.push(Action::JobStateTransition(id, JobStatus::Canceled));
            actions.push(Action::JobCompleted(id, JobOutcome::Canceled));
            match job.status {
                JobStatus::Ready | JobStatus::Executing => {
                    actions.push(Action::RemoveSandbox(id));
                },
                _ => {},
            }
            proof {
                assert(actions@ =~= acts + cancel_actions(job));
                assert((acts + cancel_actions(job)) + shutdown_actions(self.jobs@) =~= acts + (
                cancel_actions(job) + shutdown_actions(self.jobs@)));
            }
        }
        self.slots.clear();
        self.builds.clear();
        self.stopped = true;
        proof {
            self.cache.lemma_view_wf();
            assert(job_ids(self.jobs@) =~= Seq::empty());
            assert(actions@ + Seq::<Action>::empty() =~= actions@);
            assert(Seq::<Action>::empty() + shutdown_actions(jobs0) =~= shutdown_actions(jobs0));
            assert(self.slots@.running =~= Seq::empty());
        }
    }

    /// The worker is told to stop, for the reason given. Every job ends as
    /// canceled, and the reason comes back as the error to stop for.
    pub fn receive_shut_down(&mut self, reason: String) -> (r: Reaction)
        requires
            old(self).wf(),
        ensures
            final(self).wf(),
            final(self).shut_down_post(old(self), r.actions@),
            r.fatal == Some(FatalError::ShutDown(reason)),
    {
        let mut actions: Vec<Action> = Vec::new();
        self.shut_down(&mut actions);
        Reaction { actions, fatal: Some(FatalError::ShutDown(reason)) }
    }
}

} // verus!
