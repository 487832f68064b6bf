//! Reports of the layer assembler and the executor.

use crate::fs::Fs;
use crate::ids::{Digest, JobId};
use crate::job::{JobFailure, JobOutcome, JobStatus};
use crate::job_table::{
    find_job, holders, holds_one, Job, job_ids, job_wf, lemma_holders_update, same_but_status,
};
use crate::pool::PoolView;
use super::retire::{lemma_ids_update, lemma_pending_after_remove, retire_actions};
use super::{Action, Dispatcher, JobUpdate, status_matches};
use vstd::prelude::*;

verus! {

/// What the worker does when the layers of `job` are built: the job is
/// ready, and runs at once if a slot is free; the build place goes to the
/// next in line.
pub open spec fn layers_built_actions(id: JobId, slots: PoolView, builds: PoolView) -> Seq<
    Action,
> {
    let ready = seq![Action::JobStateTransition(id, JobStatus::Ready)];
    let run = if slots.starts_at_once() {
        ready.push(Action::JobStateTransition(id, JobStatus::Executing)).push(Action::StartJob(id))
    } else {
        ready
    };
    if builds.next() is Some {
        run.push(Action::BuildLayers(builds.next()->0))
    } else {
        run
    }
}

/// How a job that has run to its end is reported: as canceled if the broker
/// asked for that while it ran, else as the executor found it.
pub open spec fn reported_outcome(job: Job, outcome: JobOutcome) -> JobOutcome {
    if job.cancel_requested {
        JobOutcome::Canceled
    } else {
        outcome
    }
}

impl<F: Fs> Dispatcher<F> {
    /// Whether the layers of the job `id` are being built.
    pub open spec fn is_building(&self, id: JobId) -> bool {
        self.is_live(id) && self.job_of(id).status is WaitingForLayers
            && self.builds_view().running.contains(id)
    }

    /// Whether the job `id` executes.
    pub open spec fn is_executing(&self, id: JobId) -> bool {
        self.is_live(id) && self.job_of(id).status is Executing
    }

    /// Whether `update` is news of the job `id` as it stands: the end of a
    /// layer build for a job that is being built, the end of a run for a job
    /// that executes. Anything else is stale and is ignored.
    pub open spec fn update_applies(&self, id: JobId, update: JobUpdate) -> bool {
        match update {
            JobUpdate::LayersBuilt => self.is_building(id),
            JobUpdate::LayersFailed(_) => self.is_building(id),
            JobUpdate::Finished(_) => self.is_executing(id),
        }
    }

    /// What a report on the job `id` makes of `before`.
    pub open spec fn update_post(
        &self,
        before: &Self,
        id: JobId,
        update: JobUpdate,
        actions: Seq<Action>,
    ) -> bool {
        &&& self.is_stopped() == before.is_stopped()
        &&& self.cache_root() == before.cache_root()
        &&& !before.update_applies(id, update) ==> self.same_state(before) && actions.len() == 0
        &&& before.update_applies(id, update) ==> match update {
            JobUpdate::LayersBuilt => {
                &&& self.is_live(id)
                &&& self.job_of(id).status == if before.slots_view().starts_at_once() {
                    JobStatus::Executing
                } else {
                    JobStatus::Ready
                }
                &&& self.cache_view() == before.cache_view()
                &&& self.jobs_view().len() == before.jobs_view().len()
                &&& forall|k: int|
                    0 <= k < self.jobs_view().len() ==> (#[trigger] self.jobs_view()[k])
                        == before.jobs_view()[k] || (before.jobs_view()[k].id == id
                        && same_but_status(self.jobs_view()[k], before.jobs_view()[k]))
                &&& self.slots_view() == before.slots_view().submit(id)
                &&& self.builds_view() == before.builds_view().release(id)
                &&& actions == layers_built_actions(id, before.slots_view(), before.builds_view())
            },
            JobUpdate::LayersFailed(detail) => {
                &&& self.without_job(before, id)
                &&& actions == retire_actions(
                    before.job_of(id),
                    JobOutcome::Failed(JobFailure::System(detail)),
                    before.slots_view(),
                    before.builds_view(),
                )
            },
            JobUpdate::Finished(outcome) => {
                &&& self.without_job(before, id)
                &&& actions == retire_actions(
                    before.job_of(id),
                    reported_outcome(before.job_of(id), outcome),
                    before.slots_view(),
                    before.builds_view(),
                )
            },
        }
        &&& forall|x: JobId| x != id ==> (#[trigger] self.is_live(x) <==> before.is_live(x))
    }

    /// The layer assembler or the executor reports on the job `id`.
    ///
    /// When its layers are built the job is ready; it takes a slot and runs
    /// if one is free, else it joins the line of ready jobs. When the build
    /// has failed the job fails. When the job has run to its end it ends
    /// with the outcome reported, or as canceled if that was asked for.
    pub fn receive_job_update(&mut self, id: JobId, update: JobUpdate) -> (actions: Vec<Action>)
        requires
            old(self).wf(),
        ensures
            final(self).wf(),
            final(self).update_post(old(self), id, update, actions@),
    {
        let mut actions: Vec<Action> = Vec::new();
        let i = match find_job(&self.jobs, id) {
            None => {
                return actions;
            },
            Some(i) => i,
        };
        proof {
            self.lemma_job_of(i as int);
        }
        let ghost jobs0 = self.jobs@;
        let ghost cache0 = self.cache@;
        let ghost slots0 = self.slots@;
        let ghost builds0 = self.builds@;
        assert(status_matches(jobs0[i as int], slots0, builds0));
        assert(job_wf(jobs0[i as int]));
        match update {
            JobUpdate::LayersBuilt => {
                let building = match self.jobs[i].status {
                    JobStatus::WaitingForLayers => self.builds.is_running(id),
                    _ => false,
                };
                if !building {
                    return actions;
                }
                proof {
                    builds0.lemma_release(id);
                    slots0.lemma_submit(id);
                }
                let next_build = self.builds.release(id);
                actions.push(Action::JobStateTransition(id, JobStatus::Ready));
                let started = self.slots.submit(id);
                if started {
                    self.jobs[i].status = JobStatus::Executing;
                    actions.push(Action::JobStateTransition(id, JobStatus::Executing));
                    actions.push(Action::StartJob(id));
                } else {
                    self.jobs[i].status = JobStatus::Ready;
                }
                match next_build {
                    Some(n) => {
                        actions.push(Action::BuildLayers(n));
                    },
                    None => {},
                }
                proof {
                    let jobs2 = self.jobs@;
                    assert(jobs2 =~= jobs0.update(i as int, jobs2[i as int]));
                    lemma_ids_update(jobs0, i as int, jobs2[i as int]);
                    self.lemma_job_of(i as int);
                    assert forall|d: Digest| #[trigger]
                        self.cache@.ref_count(d) == holders(jobs2, d) by {
                        lemma_holders_update(jobs0, i as int, jobs2[i as int], d);
                        assert(holds_one(jobs2[i as int], d) == holds_one(jobs0[i as int], d));
                    }
                    assert forall|m: int| 0 <= m < jobs2.len() implies job_wf(#[trigger] jobs2[m])
                        && status_matches(jobs2[m], self.slots@, self.builds@) by {
                        assert(job_wf(jobs0[m]));
                        assert(status_matches(jobs0[m], slots0, builds0));
                        if m != i {
                            assert(job_ids(jobs0)[m] == jobs0[m].id);
                            assert(job_ids(jobs0)[i as int] == id);
                        }
                    }
                    assert forall|j: JobId| #[trigger]
                        job_ids(jobs2).contains(j) || !(self.builds@.contains(j)
                            || self.slots@.contains(j)) by {
                        assert(job_ids(jobs0).contains(j) || !(builds0.contains(j)
                            || slots0.contains(j)));
                        assert(job_ids(jobs0).contains(id));
                    }
                    assert forall|k: int, d: Digest|
                        0 <= k < jobs2.len() && #[trigger] jobs2[k].pending@.contains(
                            d,
                        ) implies self.cache@.is_fetching(d) && self.cache@.waiters(d).contains(
                        jobs2[k].id,
                    ) by {
                        assert(jobs0[k].pending@.contains(d));
                    }
                    assert(actions@ =~= layers_built_actions(id, slots0, builds0));
                    assert forall|k: int| 0 <= k < jobs2.len() implies (#[trigger] jobs2[k])
                        == jobs0[k] || (jobs0[k].id == id && same_but_status(
                        jobs2[k],
                        jobs0[k],
                    )) by {
                        if k != i {
                            assert(jobs2[k] == jobs0[k]);
                        }
                    }
                }
            },
            JobUpdate::LayersFailed(detail) => {
                let building = match self.jobs[i].status {
                    JobStatus::WaitingForLayers => self.builds.is_running(id),
                    _ => false,
                };
                if !building {
                    return actions;
                }
                let outcome = JobOutcome::Failed(JobFailure::System(detail));
                self.retire(i, outcome, &mut actions);
                proof {
                    lemma_pending_after_remove(cache0, self.cache@, jobs0, i as int, self.jobs@);
                    assert(actions@ =~= retire_actions(jobs0[i as int], outcome, slots0, builds0));
                }
            },
            JobUpdate::Finished(outcome) => {
                let executing = match self.jobs[i].status {
                    JobStatus::Executing => true,
                    _ => false,
                };
                if !executing {
                    return actions;
                }
                let reported = if self.jobs[i].cancel_requested {
                    JobOutcome::Canceled
                } else {
                    outcome
                };
                self.retire(i, reported, &mut actions);
                proof {
                    lemma_pending_after_remove(cache0, self.cache@, jobs0, i as int, self.jobs@);
                    assert(actions@ =~= retire_actions(jobs0[i as int], reported, slots0, builds0));
                }
            },
        }
        actions
    }
}

} // verus!
