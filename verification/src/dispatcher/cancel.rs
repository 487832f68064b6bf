//! Requests to cancel a job.

use crate::fs::Fs;
use crate::ids::{Digest, JobId};
use crate::job::{JobOutcome, JobStatus};
use crate::job_table::{find_job, holders, holds_one, job_wf, lemma_holders_update, same_but_status};
use super::retire::{lemma_ids_update, lemma_pending_after_remove, retire_actions};
use super::{Action, Dispatcher, status_matches};
use vstd::prelude::*;

verus! {

impl<F: Fs> Dispatcher<F> {
    /// What a request to cancel the job `id` makes of `before`.
    pub open spec fn cancel_post(&self, before: &Self, id: JobId, actions: Seq<Action>) -> bool {
        &&& self.is_stopped() == before.is_stopped()
        &&& self.cache_root() == before.cache_root()
        &&& !before.is_live(id) ==> self.same_state(before) && actions.len() == 0
        &&& before.is_live(id) && before.job_of(id).status is Executing ==> {
            &&& self.same_surroundings(before)
            &&& self.is_live(id)
            &&& self.job_of(id).status is Executing
            &&& self.job_of(id).cancel_requested
            &&& self.jobs_view().len() == before.jobs_view().len()
            &&& forall|k: int|
                0 <= k < self.jobs_view().len() ==> (#[trigger] self.jobs_view()[k])
                    == before.jobs_view()[k] || (before.jobs_view()[k].id == id
                    && same_but_status(self.jobs_view()[k], before.jobs_view()[k]))
            &&& actions == if before.job_of(id).cancel_requested {
                Seq::<Action>::empty()
            } else {
                seq![Action::CancelExecution(id)]
            }
        }
        &&& before.is_live(id) && !(before.job_of(id).status is Executing) ==> {
            &&& self.without_job(before, id)
            &&& actions == retire_actions(
                before.job_of(id),
                JobOutcome::Canceled,
                before.slots_view(),
                before.builds_view(),
            )
        }
        &&& forall|x: JobId| x != id ==> (#[trigger] self.is_live(x) <==> before.is_live(x))
    }

    /// The broker asks for the job `id` to be canceled.
    ///
    /// A job the worker does not hold is none of its business: nothing
    /// happens. A job that executes is told to stop, once; it ends as
    /// canceled when the executor reports its end. Any other job ends as
    /// canceled at once.
    pub fn receive_cancel_job(&mut self, id: JobId) -> (actions: Vec<Action>)
        requires
            old(self).wf(),
        ensures
            final(self).wf(),
            final(self).cancel_post(old(self), id, actions@),
    {
        let mut actions: Vec<Action> = Vec::new();
        match find_job(&self.jobs, id) {
            None => {},
            Some(i) => {
                proof {
                    self.lemma_job_of(i as int);
                }
                let ghost jobs0 = self.jobs@;
                match self.jobs[i].status {
                    JobStatus::Executing => {
                        if !self.jobs[i].cancel_requested {
                            actions.push(Action::CancelExecution(id));
                        }
                        self.jobs[i].cancel_requested = true;
                        proof {
                            let jobs2 = self.jobs@;
                            assert(jobs2 =~= jobs0.update(i as int, jobs2[i as int]));
                            lemma_ids_update(jobs0, i as int, jobs2[i as int]);
                            self.lemma_job_of(i as int);
                            assert forall|d: Digest| #[trigger]
                                self.cache@.ref_count(d) == holders(jobs2, d) by {
                                lemma_holders_update(jobs0, i as int, jobs2[i as int], d);
                                assert(holds_one(jobs2[i as int], d) == holds_one(
                                    jobs0[i as int],
                                    d,
                                ));
                            }
                            assert forall|m: int| 0 <= m < jobs2.len() implies job_wf(
                                #[trigger] jobs2[m],
                            ) && status_matches(jobs2[m], self.slots@, self.builds@) by {
                                assert(job_wf(jobs0[m]));
                                assert(status_matches(jobs0[m], self.slots@, self.builds@));
                            }
                            assert forall|k: int, d: Digest|
                                0 <= k < jobs2.len() && #[trigger] jobs2[k].pending@.contains(
                                    d,
                                ) implies self.cache@.is_fetching(d) && self.cache@.waiters(
                                d,
                            ).contains(jobs2[k].id) by {
                                assert(jobs0[k].pending@.contains(d));
                            }
                            assert forall|k: int| 0 <= k < jobs2.len() implies (
                            #[trigger] jobs2[k]) == jobs0[k] || (jobs0[k].id == id
                                && same_but_status(jobs2[k], jobs0[k])) by {
                                if k != i {
                                    assert(jobs2[k] == jobs0[k]);
                                }
                            }
                        }
                    },
                    _ => {
                        let ghost cache0 = self.cache@;
                        self.retire(i, JobOutcome::Canceled, &mut actions);
                        proof {
                            lemma_pending_after_remove(
                                cache0,
                                self.cache@,
                                jobs0,
                                i as int,
                                self.jobs@,
                            );
                            assert(actions@ =~= retire_actions(
                                jobs0[i as int],
                                JobOutcome::Canceled,
                                old(self).slots_view(),
                                old(self).builds_view(),
                            ));
                        }
                    },
                }
            },
        }
        actions
    }
}

} // verus!
