//! What holds of the dispatcher between any two messages.

use crate::cache_model::{CacheView, Lookup};
use crate::dispatcher::{
    Action, after_loss, arrival_actions, BrokerMessage, cancel_actions, Dispatcher, fetches,
    JobUpdate, loss_actions, Message, Reaction, request_all, retire_actions, shutdown_actions,
    waits_for,
};
use crate::fs::Fs;
use crate::ids::{Digest, JobId};
use crate::job::JobOutcome;
use crate::job_table::{holders, Job, job_ids, job_wf, lemma_holders_are_users, users};
use crate::pool::PoolView;
use vstd::prelude::*;

verus! {

/// Slot conservation. The slots in use and the free slots add up to the
/// number of slots, and the slots in use are those of the jobs that execute:
/// a job executes exactly while it holds a slot, no slot is held twice, and a
/// job is ready exactly while it waits for one. Nobody waits while a slot is
/// free.
pub proof fn law_slot_conservation<F: Fs>(d: &Dispatcher<F>)
    requires
        d.wf(),
    ensures
        d.slots_view().in_use() + d.slots_view().available() == d.slots_view().limit,
        d.slots_view().available() >= 0,
        d.slots_view().running.no_duplicates(),
        d.slots_view().queue.len() > 0 ==> d.slots_view().available() == 0,
        forall|i: int|
            0 <= i < d.jobs_view().len() ==> ((#[trigger] d.jobs_view()[i]).status is Executing
                <==> d.slots_view().running.contains(d.jobs_view()[i].id)),
        forall|i: int|
            0 <= i < d.jobs_view().len() ==> ((#[trigger] d.jobs_view()[i]).status is Ready
                <==> d.slots_view().queue.contains(d.jobs_view()[i].id)),
        forall|j: JobId| #[trigger] d.slots_view().contains(j) ==> d.is_live(j),
{
    assert forall|j: JobId| #[trigger] d.slots_view().contains(j) implies d.is_live(j) by {
        assert(job_ids(d.jobs_view()).contains(j) || !(d.builds_view().contains(j)
            || d.slots_view().contains(j)));
    }
}

/// The number of slots is fixed: no message changes it.
pub proof fn law_slots_fixed<F: Fs>(
    before: &Dispatcher<F>,
    after: &Dispatcher<F>,
    msg: Message<F::TempFile>,
    r: Reaction,
)
    requires
        before.wf(),
        after.wf(),
        after.message_post(before, msg, r),
    ensures
        after.slots_view().limit == before.slots_view().limit,
{
}

/// Reference counts. The references to a digest are as many as the jobs that
/// hold it. For an artifact that is on disk these are the jobs that use it;
/// when no job is left, no artifact is referenced and every one on disk may
/// be evicted.
pub proof fn law_ref_counts<F: Fs>(d: &Dispatcher<F>, x: Digest)
    requires
        d.wf(),
    ensures
        d.cache_view().ref_count(x) == holders(d.jobs_view(), x),
        d.cache_view().is_resident(x) ==> d.cache_view().ref_count(x) == users(d.jobs_view(), x),
        d.jobs_view().len() == 0 ==> d.cache_view().ref_count(x) == 0,
        d.jobs_view().len() == 0 && d.cache_view().is_resident(x) ==> d.cache_view().entries[x] is InHeap,
{
    let jobs = d.jobs_view();
    assert(d.cache_view().ref_count(x) == holders(jobs, x));
    if d.cache_view().is_resident(x) {
        assert forall|i: int| 0 <= i < jobs.len() implies !(#[trigger] jobs[i]).pending@.contains(
            x,
        ) by {
            if jobs[i].pending@.contains(x) {
                assert(d.cache_view().is_fetching(x));
            }
        }
        lemma_holders_are_users(jobs, x);
    }
}

/// A job waits for an artifact only while a fetch of it is in flight, and is
/// then among those who are told when the fetch ends. A job that waits for
/// any artifact has not gone on: it still waits for its artifacts.
pub proof fn law_waiters_are_told<F: Fs>(d: &Dispatcher<F>, i: int, x: Digest)
    requires
        d.wf(),
        0 <= i < d.jobs_view().len(),
        d.jobs_view()[i].pending@.contains(x),
    ensures
        d.cache_view().is_fetching(x),
        d.cache_view().waiters(x).contains(d.jobs_view()[i].id),
        d.jobs_view()[i].status is WaitingForArtifacts,
        !d.cache_view().is_resident(x),
{
    assert(job_wf(d.jobs_view()[i]));
}

/// Canceling twice. Once a job has been canceled, a second request to
/// cancel it changes nothing and asks for nothing, whether the job is gone
/// or still runs and has been told to stop.
pub proof fn law_cancel_twice<F: Fs>(
    s0: &Dispatcher<F>,
    s1: &Dispatcher<F>,
    s2: &Dispatcher<F>,
    id: JobId,
    first: Seq<Action>,
    second: Seq<Action>,
)
    requires
        s0.wf(),
        s1.wf(),
        s2.wf(),
        s1.cancel_post(s0, id, first),
        s2.cancel_post(s1, id, second),
    ensures
        second.len() == 0,
        s2.same_surroundings(s1),
        !s1.is_live(id) ==> s2.same_state(s1),
        s2.is_live(id) == s1.is_live(id),
{
    if s0.is_live(id) {
        if s0.job_of(id).status is Executing {
            assert(s1.is_live(id) && s1.job_of(id).status is Executing);
            assert(s1.job_of(id).cancel_requested);
            assert(second =~= Seq::empty());
        }
    }
}

/// A request to cancel a job the worker does not hold, because it has ended
/// or never came, changes nothing and asks for nothing.
pub proof fn law_cancel_unknown<F: Fs>(
    before: &Dispatcher<F>,
    after: &Dispatcher<F>,
    id: JobId,
    actions: Seq<Action>,
)
    requires
        before.wf(),
        !before.is_live(id),
        after.cancel_post(before, id, actions),
    ensures
        after.same_state(before),
        actions.len() == 0,
{
}

/// Whether `a` tells the broker how the job `j` ended.
pub open spec fn completes(a: Action, j: JobId) -> bool {
    a matches Action::JobCompleted(x, _) && x == j
}

/// How often `actions` tell the broker how the job `j` ended.
pub open spec fn completions(actions: Seq<Action>, j: JobId) -> nat
    decreases actions.len(),
{
    if actions.len() == 0 {
        0
    } else {
        completions(actions.drop_last(), j) + if completes(actions.last(), j) {
            1nat
        } else {
            0nat
        }
    }
}

proof fn lemma_completions_push(actions: Seq<Action>, a: Action, j: JobId)
    ensures
        completions(actions.push(a), j) == completions(actions, j) + if completes(a, j) {
            1nat
        } else {
            0nat
        },
{
    assert(actions.push(a).drop_last() =~= actions);
}

proof fn lemma_completions_concat(a: Seq<Action>, b: Seq<Action>, j: JobId)
    ensures
        completions(a + b, j) == completions(a, j) + completions(b, j),
    decreases b.len(),
{
    if b.len() == 0 {
        assert(a + b =~= a);
    } else {
        assert((a + b).drop_last() =~= a + b.drop_last());
        lemma_completions_concat(a, b.drop_last(), j);
    }
}

proof fn lemma_completions_retire(
    job: Job,
    outcome: JobOutcome,
    slots: PoolView,
    builds: PoolView,
    j: JobId,
)
    ensures
        completions(retire_actions(job, outcome, slots, builds), j) == if job.id == j {
            1nat
        } else {
            0nat
        },
{
    let e = Seq::<Action>::empty();
    let a = Action::JobStateTransition(job.id, outcome.spec_status());
    let b = Action::JobCompleted(job.id, outcome);
    let told = seq![a, b];
    assert(told =~= e.push(a).push(b));
    lemma_completions_push(e, a, j);
    lemma_completions_push(e.push(a), b, j);
    let r = Action::RemoveSandbox(job.id);
    lemma_completions_push(told, r, j);
    if builds.next() is Some {
        lemma_completions_push(told, Action::BuildLayers(builds.next()->0), j);
    }
    if slots.next() is Some {
        let n = slots.next()->0;
        let x = Action::JobStateTransition(n, crate::job::JobStatus::Executing);
        lemma_completions_push(told.push(r), x, j);
        lemma_completions_push(told.push(r).push(x), Action::StartJob(n), j);
    }
}

proof fn lemma_completions_cancel(job: Job, j: JobId)
    ensures
        completions(cancel_actions(job), j) == if job.id == j {
            1nat
        } else {
            0nat
        },
{
    let e = Seq::<Action>::empty();
    let c = Action::CancelExecution(job.id);
    let stop = if job.status is Executing {
        seq![c]
    } else {
        e
    };
    assert(seq![c] =~= e.push(c));
    lemma_completions_push(e, c, j);
    let a = Action::JobStateTransition(job.id, crate::job::JobStatus::Canceled);
    let b = Action::JobCompleted(job.id, JobOutcome::Canceled);
    lemma_completions_push(stop, a, j);
    lemma_completions_push(stop.push(a), b, j);
    lemma_completions_push(stop.push(a).push(b), Action::RemoveSandbox(job.id), j);
}

proof fn lemma_completions_shutdown(jobs: Seq<Job>, j: JobId)
    requires
        job_ids(jobs).no_duplicates(),
    ensures
        completions(shutdown_actions(jobs), j) == if job_ids(jobs).contains(j) {
            1nat
        } else {
            0nat
        },
    decreases jobs.len(),
{
    if jobs.len() > 0 {
        let init = jobs.drop_last();
        let last = jobs.last();
        assert(job_ids(init) =~= job_ids(jobs).drop_last());
        assert(job_ids(jobs).drop_last() =~= job_ids(jobs).remove(jobs.len() - 1));
        crate::seq_util::lemma_remove_distinct(job_ids(jobs), jobs.len() - 1);
        lemma_completions_shutdown(init, j);
        lemma_completions_cancel(last, j);
        lemma_completions_concat(cancel_actions(last), shutdown_actions(init), j);
        assert(job_ids(jobs)[jobs.len() - 1] == last.id);
    } else {
        assert(job_ids(jobs) =~= Seq::empty());
    }
}

proof fn lemma_completions_fetches(cache: CacheView, ds: Seq<Digest>, j: JobId)
    ensures
        completions(fetches(cache, ds), j) == 0,
    decreases ds.len(),
{
    if ds.len() > 0 {
        lemma_completions_fetches(cache, ds.drop_last(), j);
        lemma_completions_push(
            fetches(cache, ds.drop_last()),
            Action::GetArtifact(ds.last()),
            j,
        );
    }
}

proof fn lemma_completions_arrival(
    jobs: Seq<Job>,
    d: Digest,
    waiters: Seq<JobId>,
    builds: PoolView,
    j: JobId,
)
    ensures
        completions(arrival_actions(jobs, d, waiters, builds), j) == 0,
    decreases waiters.len(),
{
    if waiters.len() > 0 {
        let before = arrival_actions(jobs, d, waiters.drop_last(), builds);
        lemma_completions_arrival(jobs, d, waiters.drop_last(), builds, j);
        let a = Action::JobStateTransition(
            waiters.last(),
            crate::job::JobStatus::WaitingForLayers,
        );
        lemma_completions_push(before, a, j);
        lemma_completions_push(before.push(a), Action::BuildLayers(waiters.last()), j);
    }
}

proof fn lemma_completions_loss(jobs: Seq<Job>, d: Digest, waiters: Seq<JobId>, j: JobId)
    ensures
        completions(loss_actions(jobs, d, waiters), j) == if waits_for(jobs, j, d)
            && waiters.contains(j) {
            1nat
        } else {
            0nat
        },
    decreases waiters.len(),
{
    if waiters.len() > 0 {
        let init = waiters.drop_last();
        let w = waiters.last();
        let before = loss_actions(jobs, d, init);
        lemma_completions_loss(jobs, d, init, j);
        let a = Action::JobStateTransition(w, crate::job::JobStatus::Failed);
        let b = Action::JobCompleted(w, JobOutcome::Failed(crate::job::JobFailure::ArtifactFetch));
        lemma_completions_push(before, a, j);
        lemma_completions_push(before.push(a), b, j);
        assert(waiters.contains(j) <==> init.contains(j) || j == w) by {
            if init.contains(j) {
                let i = init.index_of(j);
                assert(waiters[i] == j);
            }
            if j == w {
                assert(waiters[waiters.len() - 1] == j);
            }
            if waiters.contains(j) {
                let i = waiters.index_of(j);
                if i < init.len() {
                    assert(init[i] == j);
                }
            }
        }
    } else {
        assert(!waiters.contains(j));
    }
}

proof fn lemma_live_after_loss(before: Seq<Job>, after: Seq<Job>, d: Digest, j: JobId)
    requires
        job_ids(before).no_duplicates(),
        after_loss(before, after, d),
    ensures
        job_ids(after).contains(j) <==> job_ids(before).contains(j) && !waits_for(before, j, d),
{
    if job_ids(after).contains(j) {
        let k = job_ids(after).index_of(j);
        assert(after[k].id == j);
        assert(before.contains(after[k]));
        let k0 = before.index_of(after[k]);
        assert(job_ids(before)[k0] == j);
        if waits_for(before, j, d) {
            let k1 = choose|k1: int|
                0 <= k1 < before.len() && (#[trigger] before[k1]).id == j
                    && before[k1].pending@.contains(d);
            assert(job_ids(before)[k1] == j);
            assert(k1 == k0);
        }
    }
    if job_ids(before).contains(j) && !waits_for(before, j, d) {
        let k0 = job_ids(before).index_of(j);
        assert(before[k0].id == j);
        assert(after.contains(before[k0]));
        let k = after.index_of(before[k0]);
        assert(job_ids(after)[k] == j);
    }
}

/// One completion for each job. In answer to any message the worker tells
/// the broker how a job ended exactly once if the job has ended with that
/// message, and not at all otherwise. So a job that has ended is never
/// reported again, and none ends without report.
pub proof fn law_completed_once<F: Fs>(
    before: &Dispatcher<F>,
    after: &Dispatcher<F>,
    msg: Message<F::TempFile>,
    r: Reaction,
    j: JobId,
)
    requires
        before.wf(),
        after.wf(),
        after.message_post(before, msg, r),
    ensures
        completions(r.actions@, j) == if before.is_live(j) && !after.is_live(j) {
            1nat
        } else {
            0nat
        },
{
    let jobs = before.jobs_view();
    let slots = before.slots_view();
    let builds = before.builds_view();
    let cache = before.cache_view();
    match msg {
        Message::Broker(BrokerMessage::EnqueueJob(id, spec)) => {
            if before.is_stopped() {
            } else if before.is_live(id) || jobs.len() >= usize::MAX {
                lemma_completions_shutdown(jobs, j);
                assert(job_ids(after.jobs_view()) =~= Seq::empty());
            } else {
                let ds = crate::job::distinct_digests(spec.layers@);
                let first = seq![
                    Action::JobStateTransition(id, crate::job::JobStatus::WaitingForArtifacts),
                ];
                let e = Seq::<Action>::empty();
                assert(first =~= e.push(first[0]));
                lemma_completions_push(e, first[0], j);
                lemma_completions_fetches(cache, ds, j);
                lemma_completions_concat(first, fetches(cache, ds), j);
                let asked = first + fetches(cache, ds);
                let a = Action::JobStateTransition(id, crate::job::JobStatus::WaitingForLayers);
                lemma_completions_push(asked, a, j);
                lemma_completions_push(asked.push(a), Action::BuildLayers(id), j);
                let now = after.jobs_view();
                assert(job_ids(now).drop_last() =~= job_ids(jobs));
                if before.is_live(j) {
                    let i = job_ids(jobs).index_of(j);
                    assert(job_ids(now)[i] == j);
                }
            }
        },
        Message::Broker(BrokerMessage::CancelJob(id)) => {
            if before.is_live(id) {
                if before.job_of(id).status is Executing {
                    let e = Seq::<Action>::empty();
                    let c = Action::CancelExecution(id);
                    assert(seq![c] =~= e.push(c));
                    lemma_completions_push(e, c, j);
                } else {
                    lemma_completions_retire(before.job_of(id), JobOutcome::Canceled, slots, builds, j);
                    lemma_job_of_id(jobs, id);
                }
            }
        },
        Message::Broker(BrokerMessage::ArtifactTransferred(d, _)) => {
            lemma_artifact(before, after, d, r.actions@, j);
        },
        Message::ArtifactFetchCompleted(d, Ok(_)) => {
            lemma_artifact(before, after, d, r.actions@, j);
        },
        Message::ArtifactFetchCompleted(d, Err(_)) => {
            lemma_completions_loss(jobs, d, cache.waiters(d), j);
            lemma_live_after_loss(jobs, after.jobs_view(), d, j);
            lemma_waiting_is_listed(before, d, j);
        },
        Message::JobUpdate(id, update) => {
            if before.update_applies(id, update) {
                lemma_job_of_id(jobs, id);
                match update {
                    JobUpdate::LayersBuilt => {
                        let e = Seq::<Action>::empty();
                        let a = Action::JobStateTransition(id, crate::job::JobStatus::Ready);
                        let b = Action::JobStateTransition(id, crate::job::JobStatus::Executing);
                        let c = Action::StartJob(id);
                        assert(seq![a] =~= e.push(a));
                        lemma_completions_push(e, a, j);
                        lemma_completions_push(seq![a], b, j);
                        lemma_completions_push(seq![a].push(b), c, j);
                        let run = if slots.starts_at_once() {
                            seq![a].push(b).push(c)
                        } else {
                            seq![a]
                        };
                        if builds.next() is Some {
                            lemma_completions_push(run, Action::BuildLayers(builds.next()->0), j);
                        }
                    },
                    JobUpdate::LayersFailed(detail) => {
                        lemma_completions_retire(
                            before.job_of(id),
                            JobOutcome::Failed(crate::job::JobFailure::System(detail)),
                            slots,
                            builds,
                            j,
                        );
                    },
                    JobUpdate::Finished(outcome) => {
                        lemma_completions_retire(
                            before.job_of(id),
                            crate::dispatcher::reported_outcome(before.job_of(id), outcome),
                            slots,
                            builds,
                            j,
                        );
                    },
                }
            }
        },
        Message::ShutDown(reason) => {
            lemma_completions_shutdown(jobs, j);
            assert(job_ids(after.jobs_view()) =~= Seq::empty());
        },
    }
}

proof fn lemma_job_of_id(jobs: Seq<Job>, id: JobId)
    requires
        job_ids(jobs).contains(id),
    ensures
        jobs[job_ids(jobs).index_of(id)].id == id,
{
    let k = job_ids(jobs).index_of(id);
    assert(job_ids(jobs)[k] == id);
}

proof fn lemma_waiting_is_listed<F: Fs>(before: &Dispatcher<F>, d: Digest, j: JobId)
    requires
        before.wf(),
    ensures
        waits_for(before.jobs_view(), j, d) ==> before.cache_view().waiters(d).contains(j)
            && before.is_live(j),
{
    let jobs = before.jobs_view();
    if waits_for(jobs, j, d) {
        let k = choose|k: int|
            0 <= k < jobs.len() && (#[trigger] jobs[k]).id == j && jobs[k].pending@.contains(d);
        assert(job_ids(jobs)[k] == j);
    }
}

proof fn lemma_artifact<F: Fs>(
    before: &Dispatcher<F>,
    after: &Dispatcher<F>,
    d: Digest,
    actions: Seq<Action>,
    j: JobId,
)
    requires
        before.wf(),
        after.wf(),
        after.artifact_post(before, d, actions),
    ensures
        completions(actions, j) == if before.is_live(j) && !after.is_live(j) {
            1nat
        } else {
            0nat
        },
{
    let jobs = before.jobs_view();
    let now = after.jobs_view();
    let waiters = before.cache_view().waiters(d);
    if before.cache_view().is_resident(d) {
    } else if after.cache_view().is_resident(d) {
        lemma_completions_arrival(jobs, d, waiters, before.builds_view(), j);
        assert(job_ids(now) =~= job_ids(jobs)) by {
            assert forall|k: int| 0 <= k < jobs.len() implies job_ids(now)[k] == job_ids(
                jobs,
            )[k] by {
                assert(crate::dispatcher::after_arrival(jobs[k], now[k], d));
            }
        }
    } else {
        lemma_completions_loss(jobs, d, waiters, j);
        lemma_live_after_loss(jobs, now, d, j);
        lemma_waiting_is_listed(before, d, j);
    }
}

/// How often `actions` ask for the artifact `d` to be fetched.
pub open spec fn fetch_requests(actions: Seq<Action>, d: Digest) -> nat
    decreases actions.len(),
{
    if actions.len() == 0 {
        0
    } else {
        fetch_requests(actions.drop_last(), d) + if actions.last() == Action::GetArtifact(d) {
            1nat
        } else {
            0nat
        }
    }
}

proof fn lemma_requests_push(actions: Seq<Action>, a: Action, d: Digest)
    ensures
        fetch_requests(actions.push(a), d) == fetch_requests(actions, d) + if a
            == Action::GetArtifact(d) {
            1nat
        } else {
            0nat
        },
{
    assert(actions.push(a).drop_last() =~= actions);
}

proof fn lemma_requests_concat(a: Seq<Action>, b: Seq<Action>, d: Digest)
    ensures
        fetch_requests(a + b, d) == fetch_requests(a, d) + fetch_requests(b, d),
    decreases b.len(),
{
    if b.len() == 0 {
        assert(a + b =~= a);
    } else {
        assert((a + b).drop_last() =~= a + b.drop_last());
        lemma_requests_concat(a, b.drop_last(), d);
    }
}

proof fn lemma_requests_retire(
    job: Job,
    outcome: JobOutcome,
    slots: PoolView,
    builds: PoolView,
    d: Digest,
)
    ensures
        fetch_requests(retire_actions(job, outcome, slots, builds), d) == 0,
{
    let e = Seq::<Action>::empty();
    let a = Action::JobStateTransition(job.id, outcome.spec_status());
    let b = Action::JobCompleted(job.id, outcome);
    let told = seq![a, b];
    assert(told =~= e.push(a).push(b));
    lemma_requests_push(e, a, d);
    lemma_requests_push(e.push(a), b, d);
    let r = Action::RemoveSandbox(job.id);
    lemma_requests_push(told, r, d);
    if builds.next() is Some {
        lemma_requests_push(told, Action::BuildLayers(builds.next()->0), d);
    }
    if slots.next() is Some {
        let n = slots.next()->0;
        let x = Action::JobStateTransition(n, crate::job::JobStatus::Executing);
        lemma_requests_push(told.push(r), x, d);
        lemma_requests_push(told.push(r).push(x), Action::StartJob(n), d);
    }
}

proof fn lemma_requests_shutdown(jobs: Seq<Job>, d: Digest)
    ensures
        fetch_requests(shutdown_actions(jobs), d) == 0,
    decreases jobs.len(),
{
    if jobs.len() > 0 {
        let job = jobs.last();
        lemma_requests_shutdown(jobs.drop_last(), d);
        let e = Seq::<Action>::empty();
        let c = Action::CancelExecution(job.id);
        let stop = if job.status is Executing {
            seq![c]
        } else {
            e
        };
        assert(seq![c] =~= e.push(c));
        lemma_requests_push(e, c, d);
        let a = Action::JobStateTransition(job.id, crate::job::JobStatus::Canceled);
        let b = Action::JobCompleted(job.id, JobOutcome::Canceled);
        lemma_requests_push(stop, a, d);
        lemma_requests_push(stop.push(a), b, d);
        lemma_requests_push(stop.push(a).push(b), Action::RemoveSandbox(job.id), d);
        lemma_requests_concat(cancel_actions(job), shutdown_actions(jobs.drop_last()), d);
    }
}

proof fn lemma_requests_arrival(
    jobs: Seq<Job>,
    x: Digest,
    waiters: Seq<JobId>,
    builds: PoolView,
    d: Digest,
)
    ensures
        fetch_requests(arrival_actions(jobs, x, waiters, builds), d) == 0,
    decreases waiters.len(),
{
    if waiters.len() > 0 {
        let before = arrival_actions(jobs, x, waiters.drop_last(), builds);
        lemma_requests_arrival(jobs, x, waiters.drop_last(), builds, d);
        let a = Action::JobStateTransition(
            waiters.last(),
            crate::job::JobStatus::WaitingForLayers,
        );
        lemma_requests_push(before, a, d);
        lemma_requests_push(before.push(a), Action::BuildLayers(waiters.last()), d);
    }
}

proof fn lemma_requests_loss(jobs: Seq<Job>, x: Digest, waiters: Seq<JobId>, d: Digest)
    ensures
        fetch_requests(loss_actions(jobs, x, waiters), d) == 0,
    decreases waiters.len(),
{
    if waiters.len() > 0 {
        let w = waiters.last();
        let before = loss_actions(jobs, x, waiters.drop_last());
        lemma_requests_loss(jobs, x, waiters.drop_last(), d);
        let a = Action::JobStateTransition(w, crate::job::JobStatus::Failed);
        let b = Action::JobCompleted(w, JobOutcome::Failed(crate::job::JobFailure::ArtifactFetch));
        lemma_requests_push(before, a, d);
        lemma_requests_push(before.push(a), b, d);
    }
}

proof fn lemma_requests_fetches(cache: CacheView, ds: Seq<Digest>, d: Digest)
    requires
        ds.no_duplicates(),
    ensures
        fetch_requests(fetches(cache, ds), d) == if ds.contains(d) && cache.lookup(d)
            == Lookup::NeedFetch {
            1nat
        } else {
            0nat
        },
    decreases ds.len(),
{
    if ds.len() > 0 {
        let init = ds.drop_last();
        assert(init =~= ds.remove(ds.len() - 1));
        crate::seq_util::lemma_remove_distinct(ds, ds.len() - 1);
        lemma_requests_fetches(cache, init, d);
        lemma_requests_push(fetches(cache, init), Action::GetArtifact(ds.last()), d);
        assert(ds[ds.len() - 1] == ds.last());
        assert(ds.contains(d) <==> init.contains(d) || d == ds.last());
    } else {
        assert(!ds.contains(d));
    }
}

proof fn lemma_request_all(cache: CacheView, ds: Seq<Digest>, id: JobId, d: Digest)
    requires
        cache.wf(),
    ensures
        request_all(cache, ds, id).wf(),
        request_all(cache, ds, id).is_resident(d) == cache.is_resident(d),
        request_all(cache, ds, id).is_fetching(d) == (cache.is_fetching(d) || (ds.contains(d)
            && !cache.is_resident(d))),
    decreases ds.len(),
{
    if ds.len() > 0 {
        let init = ds.drop_last();
        let mid = request_all(cache, init, id);
        lemma_request_all(cache, init, id, d);
        lemma_request_all(cache, init, id, ds.last());
        mid.lemma_get_artifact_wf(ds.last(), id);
        mid.lemma_get_artifact_effect(ds.last(), id);
        assert(ds[ds.len() - 1] == ds.last());
        assert(ds.contains(d) <==> init.contains(d) || d == ds.last()) by {
            if init.contains(d) {
                let i = init.index_of(d);
                assert(ds[i] == d);
            }
            if ds.contains(d) {
                let i = ds.index_of(d);
                if i < init.len() {
                    assert(init[i] == d);
                }
            }
        }
    } else {
        assert(!ds.contains(d));
    }
}

/// Single flight. In answer to any message the worker asks for an artifact
/// to be fetched at most once, and only if the artifact was neither on disk
/// nor being fetched; from then on it is being fetched, so that it is not
/// asked for again before that fetch has ended.
pub proof fn law_fetch_started_once<F: Fs>(
    before: &Dispatcher<F>,
    after: &Dispatcher<F>,
    msg: Message<F::TempFile>,
    r: Reaction,
    d: Digest,
)
    requires
        before.wf(),
        after.wf(),
        after.message_post(before, msg, r),
    ensures
        fetch_requests(r.actions@, d) <= 1,
        fetch_requests(r.actions@, d) == 1 ==> before.cache_view().lookup(d) == Lookup::NeedFetch
            && after.cache_view().is_fetching(d),
        before.cache_view().is_fetching(d) && after.cache_view().is_fetching(d) ==> fetch_requests(
            r.actions@,
            d,
        ) == 0,
{
    let jobs = before.jobs_view();
    let slots = before.slots_view();
    let builds = before.builds_view();
    let cache = before.cache_view();
    match msg {
        Message::Broker(BrokerMessage::EnqueueJob(id, spec)) => {
            if before.is_stopped() {
            } else if before.is_live(id) || jobs.len() >= usize::MAX {
                lemma_requests_shutdown(jobs, d);
            } else {
                let ds = crate::job::distinct_digests(spec.layers@);
                crate::job::lemma_distinct_digests(spec.layers@);
                let first = seq![
                    Action::JobStateTransition(id, crate::job::JobStatus::WaitingForArtifacts),
                ];
                let e = Seq::<Action>::empty();
                assert(first =~= e.push(first[0]));
                lemma_requests_push(e, first[0], d);
                lemma_requests_fetches(cache, ds, d);
                lemma_requests_concat(first, fetches(cache, ds), d);
                let asked = first + fetches(cache, ds);
                let a = Action::JobStateTransition(id, crate::job::JobStatus::WaitingForLayers);
                lemma_requests_push(asked, a, d);
                lemma_requests_push(asked.push(a), Action::BuildLayers(id), d);
                lemma_request_all(cache, ds, id, d);
            }
        },
        Message::Broker(BrokerMessage::CancelJob(id)) => {
            if before.is_live(id) {
                if before.job_of(id).status is Executing {
                    let e = Seq::<Action>::empty();
                    let c = Action::CancelExecution(id);
                    assert(seq![c] =~= e.push(c));
                    lemma_requests_push(e, c, d);
                } else {
                    lemma_requests_retire(before.job_of(id), JobOutcome::Canceled, slots, builds, d);
                }
            }
        },
        Message::Broker(BrokerMessage::ArtifactTransferred(x, _)) => {
            lemma_requests_arrival(jobs, x, cache.waiters(x), builds, d);
            lemma_requests_loss(jobs, x, cache.waiters(x), d);
        },
        Message::ArtifactFetchCompleted(x, Ok(_)) => {
            lemma_requests_arrival(jobs, x, cache.waiters(x), builds, d);
            lemma_requests_loss(jobs, x, cache.waiters(x), d);
        },
        Message::ArtifactFetchCompleted(x, Err(_)) => {
            lemma_requests_loss(jobs, x, cache.waiters(x), d);
        },
        Message::JobUpdate(id, update) => {
            if before.update_applies(id, update) {
                match update {
                    JobUpdate::LayersBuilt => {
                        let e = Seq::<Action>::empty();
                        let a = Action::JobStateTransition(id, crate::job::JobStatus::Ready);
                        let b = Action::JobStateTransition(id, crate::job::JobStatus::Executing);
                        let c = Action::StartJob(id);
                        assert(seq![a] =~= e.push(a));
                        lemma_requests_push(e, a, d);
                        lemma_requests_push(seq![a], b, d);
                        lemma_requests_push(seq![a].push(b), c, d);
                        let run = if slots.starts_at_once() {
                            seq![a].push(b).push(c)
                        } else {
                            seq![a]
                        };
                        if builds.next() is Some {
                            lemma_requests_push(run, Action::BuildLayers(builds.next()->0), d);
                        }
                    },
                    JobUpdate::LayersFailed(detail) => {
                        lemma_requests_retire(
                            before.job_of(id),
                            JobOutcome::Failed(crate::job::JobFailure::System(detail)),
                            slots,
                            builds,
                            d,
                        );
                    },
                    JobUpdate::Finished(outcome) => {
                        lemma_requests_retire(
                            before.job_of(id),
                            crate::dispatcher::reported_outcome(before.job_of(id), outcome),
                            slots,
                            builds,
                            d,
                        );
                    },
                }
            }
        },
        Message::ShutDown(reason) => {
            lemma_requests_shutdown(jobs, d);
        },
    }
}

} // verus!
