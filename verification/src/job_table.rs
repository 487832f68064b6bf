//! The jobs the worker holds, and the references they have into the cache.

use crate::ids::{Digest, JobId};
use crate::job::{JobSpec, JobStatus};
use vstd::prelude::*;

verus! {

/// A job the worker has accepted and not yet finished.
pub struct Job {
    pub id: JobId,
    pub spec: JobSpec,
    pub status: JobStatus,
    /// The digests of the job's layers, each once.
    pub artifacts: Vec<Digest>,
    /// Those of them that are not on disk yet.
    pub pending: Vec<Digest>,
    /// Whether the broker has asked for the job to be canceled while it runs.
    pub cancel_requested: bool,
}

/// Whether `job` holds a reference to `d`: it uses `d` and does not wait for it.
pub open spec fn job_holds(job: Job, d: Digest) -> bool {
    job.artifacts@.contains(d) && !job.pending@.contains(d)
}

/// Whether `d` is among the artifacts of `job`.
pub open spec fn job_uses(job: Job, d: Digest) -> bool {
    job.artifacts@.contains(d)
}

/// A record is consistent: no digest is listed twice, a job waits only for
/// artifacts it uses, it waits for artifacts exactly as long as some are
/// missing, and it is in no final state.
pub open spec fn job_wf(job: Job) -> bool {
    &&& job.artifacts@.no_duplicates()
    &&& job.pending@.no_duplicates()
    &&& forall|d: Digest| #[trigger] job.pending@.contains(d) ==> job.artifacts@.contains(d)
    &&& !job.status.spec_is_terminal()
    &&& (job.status is WaitingForArtifacts <==> job.pending@.len() > 0)
    &&& (job.cancel_requested ==> job.status is Executing)
}

/// Two records of the same job that differ at most in where the job stands.
pub open spec fn same_but_status(a: Job, b: Job) -> bool {
    &&& a.id == b.id
    &&& a.spec == b.spec
    &&& a.artifacts == b.artifacts
    &&& a.pending == b.pending
}

/// The ids of the jobs, in order.
pub open spec fn job_ids(jobs: Seq<Job>) -> Seq<JobId> {
    jobs.map_values(|j: Job| j.id)
}

/// The number of jobs that hold a reference to `d`.
pub open spec fn holders(jobs: Seq<Job>, d: Digest) -> nat
    decreases jobs.len(),
{
    if jobs.len() == 0 {
        0
    } else {
        holders(jobs.drop_last(), d) + if job_holds(jobs.last(), d) {
            1nat
        } else {
            0nat
        }
    }
}

/// The number of jobs that use `d`.
pub open spec fn users(jobs: Seq<Job>, d: Digest) -> nat
    decreases jobs.len(),
{
    if jobs.len() == 0 {
        0
    } else {
        users(jobs.drop_last(), d) + if job_uses(jobs.last(), d) {
            1nat
        } else {
            0nat
        }
    }
}

/// One for a job that holds `d`, zero for one that does not.
pub open spec fn holds_one(job: Job, d: Digest) -> nat {
    if job_holds(job, d) {
        1
    } else {
        0
    }
}

/// A new job adds its own references.
pub proof fn lemma_holders_push(jobs: Seq<Job>, job: Job, d: Digest)
    ensures
        holders(jobs.push(job), d) == holders(jobs, d) + holds_one(job, d),
{
    assert(jobs.push(job).drop_last() =~= jobs);
}

/// A job that leaves takes its own references with it.
pub proof fn lemma_holders_remove(jobs: Seq<Job>, i: int, d: Digest)
    requires
        0 <= i < jobs.len(),
    ensures
        holders(jobs.remove(i), d) + holds_one(jobs[i], d) == holders(jobs, d),
    decreases jobs.len(),
{
    let r = jobs.remove(i);
    if i == jobs.len() - 1 {
        assert(r =~= jobs.drop_last());
    } else {
        assert(r.drop_last() =~= jobs.drop_last().remove(i));
        assert(r.last() == jobs.last());
        lemma_holders_remove(jobs.drop_last(), i, d);
    }
}

/// A job whose record changes gives up what it held and adds what it holds.
pub proof fn lemma_holders_update(jobs: Seq<Job>, i: int, job: Job, d: Digest)
    requires
        0 <= i < jobs.len(),
    ensures
        holders(jobs.update(i, job), d) + holds_one(jobs[i], d) == holders(jobs, d) + holds_one(
            job,
            d,
        ),
    decreases jobs.len(),
{
    let r = jobs.update(i, job);
    if i == jobs.len() - 1 {
        assert(r.drop_last() =~= jobs.drop_last());
    } else {
        assert(r.drop_last() =~= jobs.drop_last().update(i, job));
        lemma_holders_update(jobs.drop_last(), i, job, d);
    }
}

/// No digest has more holders than there are jobs.
pub proof fn lemma_holders_bound(jobs: Seq<Job>, d: Digest)
    ensures
        holders(jobs, d) <= jobs.len(),
    decreases jobs.len(),
{
    if jobs.len() > 0 {
        lemma_holders_bound(jobs.drop_last(), d);
    }
}

/// Where no job waits for `d`, its holders are its users.
pub proof fn lemma_holders_are_users(jobs: Seq<Job>, d: Digest)
    requires
        forall|i: int| 0 <= i < jobs.len() ==> !(#[trigger] jobs[i]).pending@.contains(d),
    ensures
        holders(jobs, d) == users(jobs, d),
    decreases jobs.len(),
{
    if jobs.len() > 0 {
        let init = jobs.drop_last();
        assert forall|i: int| 0 <= i < init.len() implies !(#[trigger] init[i]).pending@.contains(
            d,
        ) by {
            assert(init[i] == jobs[i]);
        }
        lemma_holders_are_users(init, d);
        assert(jobs.last() == jobs[jobs.len() - 1]);
    }
}

/// Where the table holds the job `id`, if it does.
pub fn find_job(jobs: &Vec<Job>, id: JobId) -> (r: Option<usize>)
    ensures
        match r {
            Some(i) => i < jobs@.len() && jobs@[i as int].id == id,
            None => !job_ids(jobs@).contains(id),
        },
{
    let mut i: usize = 0;
    while i < jobs.len()
        invariant
            i <= jobs@.len(),
            forall|k: int| 0 <= k < i ==> jobs@[k].id != id,
        decreases jobs@.len() - i,
    {
        if jobs[i].id == id {
            return Some(i);
        }
        i += 1;
    }
    proof {
        if job_ids(jobs@).contains(id) {
            let k = job_ids(jobs@).index_of(id);
            assert(job_ids(jobs@)[k] == jobs@[k].id);
        }
    }
    None
}

} // verus!
