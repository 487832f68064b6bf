//! The dispatcher: the one place where the state of the worker changes.
//!
//! It takes one message at a time and answers with the actions the rest of
//! the worker is to perform. Between two messages the state is consistent.

pub mod artifacts;
pub mod cancel;
pub mod enqueue;
pub mod retire;
pub mod shutdown;
pub mod update;

pub use self::artifacts::{
    after_arrival, after_loss, arrival_actions, builds_after_arrival, cache_after_loss,
    decrement_n, job_with, loss_actions, remaining, survivors, waits_for, waits_only_for,
};
pub use self::enqueue::{enqueue_actions, fetches, lemma_missing, missing, request_all};
pub use self::retire::{
    builds_after_retire, release_list, released, retire_actions, slots_after_retire,
};
pub use self::shutdown::{cancel_actions, released_all, shutdown_actions};
pub use self::update::{layers_built_actions, reported_outcome};
use crate::cache::Cache;
use crate::cache_model::CacheView;
use crate::fs::Fs;
use crate::ids::{Digest, JobId};
use crate::job::{JobOutcome, JobSpec, JobStatus};
use crate::job_table::{find_job, holders, Job, job_ids, job_wf};
use crate::pool::{Pool, PoolView};
use vstd::prelude::*;

verus! {

/// What the executor and the layer assembler report of a job.
#[derive(Debug)]
pub enum JobUpdate {
    /// The layers of the job are built.
    LayersBuilt,
    /// The layers of the job could not be built.
    LayersFailed(String),
    /// The job has run to its end, one way or another.
    Finished(JobOutcome),
}

/// What the broker sends. `T` is the type of a temporary file.
pub enum BrokerMessage<T> {
    EnqueueJob(JobId, JobSpec),
    CancelJob(JobId),
    /// The broker has pushed an artifact, which now lies in a temporary file.
    ArtifactTransferred(Digest, T),
}

/// What the dispatcher is fed.
pub enum Message<T> {
    Broker(BrokerMessage<T>),
    /// A fetch has ended, with the file it filled or with what went wrong.
    ArtifactFetchCompleted(Digest, Result<T, String>),
    JobUpdate(JobId, JobUpdate),
    /// The worker is to stop, for the reason given.
    ShutDown(String),
}

/// What the dispatcher asks the rest of the worker to do.
#[derive(Debug, PartialEq, Eq)]
pub enum Action {
    /// Fetch the artifact from the broker.
    GetArtifact(Digest),
    /// Tell the broker where the job stands.
    JobStateTransition(JobId, JobStatus),
    /// Tell the broker how the job ended.
    JobCompleted(JobId, JobOutcome),
    /// Build the layers of the job.
    BuildLayers(JobId),
    /// Run the job.
    StartJob(JobId),
    /// Stop the job, which is running.
    CancelExecution(JobId),
    /// Remove the sandbox directories of the job, in the background.
    RemoveSandbox(JobId),
}

/// Why the worker must stop.
#[derive(Debug, PartialEq, Eq)]
pub enum FatalError {
    /// The broker has sent a job whose id is in use.
    DuplicateJob(JobId),
    /// The table of jobs is full.
    TableFull,
    /// A shutdown was asked for, with this reason.
    ShutDown(String),
}

/// The answer to one message: what to do, and whether to stop afterwards.
#[derive(Debug)]
pub struct Reaction {
    pub actions: Vec<Action>,
    pub fatal: Option<FatalError>,
}

/// Every reference in the cache belongs to a job that holds it.
pub open spec fn refs_ok(cache: CacheView, jobs: Seq<Job>) -> bool {
    forall|d: Digest| #[trigger] cache.ref_count(d) == holders(jobs, d)
}

/// Every artifact a job waits for is being fetched, and the job is among
/// those who will be told when the fetch ends.
pub open spec fn pending_ok(cache: CacheView, jobs: Seq<Job>) -> bool {
    forall|i: int, d: Digest|
        0 <= i < jobs.len() && #[trigger] jobs[i].pending@.contains(d) ==> cache.is_fetching(d)
            && cache.waiters(d).contains(jobs[i].id)
}

/// Where a job stands agrees with the pools: it waits for layers exactly
/// while the build pool knows it, is ready exactly while it waits for a slot,
/// and executes exactly while it holds one.
pub open spec fn status_matches(job: Job, slots: PoolView, builds: PoolView) -> bool {
    &&& job.status is WaitingForLayers <==> builds.contains(job.id)
    &&& job.status is Ready <==> slots.queue.contains(job.id)
    &&& job.status is Executing <==> slots.running.contains(job.id)
}

/// The pools know exactly the jobs of the table that belong in them.
pub open spec fn pools_ok(slots: PoolView, builds: PoolView, jobs: Seq<Job>) -> bool {
    &&& forall|i: int| 0 <= i < jobs.len() ==> status_matches(#[trigger] jobs[i], slots, builds)
    &&& forall|j: JobId| #[trigger]
        job_ids(jobs).contains(j) || !(builds.contains(j) || slots.contains(j))
}

/// Every record of the table is consistent.
pub open spec fn jobs_wf(jobs: Seq<Job>) -> bool {
    &&& job_ids(jobs).no_duplicates()
    &&& forall|i: int| 0 <= i < jobs.len() ==> job_wf(#[trigger] jobs[i])
}

/// The dispatcher. It owns the cache, the table of jobs, the slots in which
/// jobs execute, and the places in which layers are built.
pub struct Dispatcher<F: Fs> {
    cache: Cache<F>,
    jobs: Vec<Job>,
    slots: Pool,
    builds: Pool,
    stopped: bool,
}

impl<F: Fs> Dispatcher<F> {
    /// The cache, as a mathematical object.
    pub closed spec fn cache_view(&self) -> CacheView {
        self.cache@
    }

    /// The jobs the worker holds, in the order in which they arrived.
    pub closed spec fn jobs_view(&self) -> Seq<Job> {
        self.jobs@
    }

    /// The slots: who executes, and who is ready and waits.
    pub closed spec fn slots_view(&self) -> PoolView {
        self.slots@
    }

    /// The layer builds: who is being built, and who waits for a build.
    pub closed spec fn builds_view(&self) -> PoolView {
        self.builds@
    }

    /// Whether the dispatcher has been shut down.
    pub closed spec fn is_stopped(&self) -> bool {
        self.stopped
    }

    /// The index of the cache is consistent. Of its contents, the views say all.
    pub closed spec fn cache_wf(&self) -> bool {
        self.cache.wf()
    }

    /// The directory that holds the cache.
    pub closed spec fn cache_root(&self) -> Seq<char> {
        self.cache.root_path()
    }

    /// Whether the worker holds a job with this id.
    pub open spec fn is_live(&self, id: JobId) -> bool {
        job_ids(self.jobs_view()).contains(id)
    }

    /// All that holds between two messages, but for what jobs wait for.
    pub open spec fn base_wf(&self) -> bool {
        &&& self.cache_wf()
        &&& self.cache_view().wf()
        &&& self.slots_view().wf()
        &&& self.builds_view().wf()
        &&& jobs_wf(self.jobs_view())
        &&& refs_ok(self.cache_view(), self.jobs_view())
        &&& pools_ok(self.slots_view(), self.builds_view(), self.jobs_view())
    }

    /// All that holds between two messages.
    pub open spec fn wf(&self) -> bool {
        &&& self.base_wf()
        &&& pending_ok(self.cache_view(), self.jobs_view())
        &&& self.is_stopped() ==> self.jobs_view().len() == 0
    }

    /// A dispatcher with no jobs, `slots` slots and `max_builds` places for
    /// layer builds, on top of `cache`.
    pub fn new(cache: Cache<F>, slots: u16, max_builds: usize) -> (d: Self)
        requires
            cache.wf(),
            forall|x: Digest| cache@.ref_count(x) == 0,
            cache@.wf(),
        ensures
            d.wf(),
            d.cache_view() == cache@,
            d.cache_root() == cache.root_path(),
            d.jobs_view().len() == 0,
            d.slots_view() == (PoolView {
                limit: slots as nat,
                running: Seq::empty(),
                queue: Seq::empty(),
            }),
            d.builds_view() == (PoolView {
                limit: max_builds as nat,
                running: Seq::empty(),
                queue: Seq::empty(),
            }),
            !d.is_stopped(),
    {
        let d = Dispatcher {
            cache,
            jobs: Vec::new(),
            slots: Pool::new(slots as usize),
            builds: Pool::new(max_builds),
            stopped: false,
        };
        assert(job_ids(d.jobs@) =~= Seq::empty());
        d
    }

    /// The record of the job `id`.
    pub open spec fn job_of(&self, id: JobId) -> Job
        recommends
            self.is_live(id),
    {
        self.jobs_view()[job_ids(self.jobs_view()).index_of(id)]
    }

    /// Whether nothing but the table of jobs may differ between `self` and `other`.
    pub open spec fn same_surroundings(&self, other: &Self) -> bool {
        &&& self.cache_view() == other.cache_view()
        &&& self.cache_root() == other.cache_root()
        &&& self.slots_view() == other.slots_view()
        &&& self.builds_view() == other.builds_view()
        &&& self.is_stopped() == other.is_stopped()
    }

    /// Whether `self` and `other` are in the same state.
    pub open spec fn same_state(&self, other: &Self) -> bool {
        &&& self.same_surroundings(other)
        &&& self.jobs_view() == other.jobs_view()
    }

    pub(crate) proof fn lemma_job_of(&self, i: int)
        requires
            job_ids(self.jobs_view()).no_duplicates(),
            0 <= i < self.jobs_view().len(),
        ensures
            self.is_live(self.jobs_view()[i].id),
            self.job_of(self.jobs_view()[i].id) == self.jobs_view()[i],
            job_ids(self.jobs_view()).index_of(self.jobs_view()[i].id) == i,
    {
        let ids = job_ids(self.jobs_view());
        assert(ids[i] == self.jobs_view()[i].id);
        let k = ids.index_of(ids[i]);
        assert(ids[k] == ids[i]);
    }

    /// What `msg` makes of `before`, and what the worker is to do about it.
    pub open spec fn message_post(&self, before: &Self, msg: Message<F::TempFile>, r: Reaction) -> bool {
        match msg {
            Message::Broker(BrokerMessage::EnqueueJob(id, spec)) => self.enqueue_post(
                before,
                id,
                spec,
                r,
            ),
            Message::Broker(BrokerMessage::CancelJob(id)) => self.cancel_post(before, id, r.actions@)
                && r.fatal is None,
            Message::Broker(BrokerMessage::ArtifactTransferred(d, _)) => self.artifact_post(
                before,
                d,
                r.actions@,
            ) && r.fatal is None,
            Message::ArtifactFetchCompleted(d, Ok(_)) => self.artifact_post(before, d, r.actions@)
                && r.fatal is None,
            Message::ArtifactFetchCompleted(d, Err(_)) => self.fetch_failure_post(
                before,
                d,
                r.actions@,
            ) && r.fatal is None,
            Message::JobUpdate(id, update) => self.update_post(before, id, update, r.actions@)
                && r.fatal is None,
            Message::ShutDown(reason) => self.shut_down_post(before, r.actions@) && r.fatal == Some(
                FatalError::ShutDown(reason),
            ),
        }
    }

    /// Takes one message and says what the worker is to do about it. When the
    /// answer names a fatal error the worker is to stop once it has done so.
    pub fn receive_message(&mut self, msg: Message<F::TempFile>) -> (r: Reaction)
        requires
            old(self).wf(),
        ensures
            final(self).wf(),
            final(self).message_post(old(self), msg, r),
    {
        match msg {
            Message::Broker(BrokerMessage::EnqueueJob(id, spec)) => self.receive_enqueue_job(
                id,
                spec,
            ),
            Message::Broker(BrokerMessage::CancelJob(id)) => Reaction {
                actions: self.receive_cancel_job(id),
                fatal: None,
            },
            Message::Broker(BrokerMessage::ArtifactTransferred(digest, temp_file)) => Reaction {
                actions: self.receive_artifact(digest, temp_file),
                fatal: None,
            },
            Message::ArtifactFetchCompleted(digest, Ok(temp_file)) => Reaction {
                actions: self.receive_artifact(digest, temp_file),
                fatal: None,
            },
            Message::ArtifactFetchCompleted(digest, Err(_)) => Reaction {
                actions: self.receive_artifact_failure(digest),
                fatal: None,
            },
            Message::JobUpdate(id, update) => Reaction {
                actions: self.receive_job_update(id, update),
                fatal: None,
            },
            Message::ShutDown(reason) => self.receive_shut_down(reason),
        }
    }

    /// The cache.
    pub fn cache(&self) -> (c: &Cache<F>)
        ensures
            c@ == self.cache_view(),
            c.wf() == self.cache_wf(),
            c.root_path() == self.cache_root(),
    {
        &self.cache
    }

    /// The number of jobs the worker holds.
    pub fn job_count(&self) -> (n: usize)
        ensures
            n == self.jobs_view().len(),
    {
        self.jobs.len()
    }

    /// Where the job `id` stands, if the worker holds it.
    pub fn status_of(&self, id: JobId) -> (s: Option<JobStatus>)
        requires
            self.wf(),
        ensures
            s is Some == self.is_live(id),
            self.is_live(id) ==> s == Some(self.job_of(id).status),
    {
        match find_job(&self.jobs, id) {
            Some(i) => {
                proof {
                    self.lemma_job_of(i as int);
                }
                Some(self.jobs[i].status)
            },
            None => None,
        }
    }

    /// The record of the job `id`, if the worker holds it.
    pub fn job(&self, id: JobId) -> (r: Option<&Job>)
        requires
            self.wf(),
        ensures
            r is Some == self.is_live(id),
            self.is_live(id) ==> r == Some(&self.job_of(id)),
    {
        match find_job(&self.jobs, id) {
            Some(i) => {
                proof {
                    self.lemma_job_of(i as int);
                }
                Some(&self.jobs[i])
            },
            None => None,
        }
    }

    /// The number of artifacts the job `id` still waits for; zero for a job
    /// the worker does not hold.
    pub fn pending_count(&self, id: JobId) -> (n: usize)
        requires
            self.wf(),
        ensures
            self.is_live(id) ==> n == self.job_of(id).pending@.len(),
            !self.is_live(id) ==> n == 0,
    {
        match find_job(&self.jobs, id) {
            Some(i) => {
                proof {
                    self.lemma_job_of(i as int);
                }
                self.jobs[i].pending.len()
            },
            None => 0,
        }
    }

    /// The number of slots.
    pub fn slots(&self) -> (n: usize)
        ensures
            n == self.slots_view().limit,
    {
        self.slots.limit()
    }

    /// The number of slots in use.
    pub fn slots_in_use(&self) -> (n: usize)
        ensures
            n == self.slots_view().in_use(),
    {
        self.slots.in_use()
    }

    /// The number of free slots.
    pub fn slots_available(&self) -> (n: usize)
        requires
            self.wf(),
        ensures
            n == self.slots_view().available(),
            n + self.slots_view().in_use() == self.slots_view().limit,
    {
        self.slots.available()
    }

    /// The number of jobs that are ready and wait for a slot.
    pub fn ready_count(&self) -> (n: usize)
        ensures
            n == self.slots_view().queue.len(),
    {
        self.slots.waiting()
    }

    /// Whether the dispatcher has been shut down.
    pub fn stopped(&self) -> (b: bool)
        ensures
            b == self.is_stopped(),
    {
        self.stopped
    }
}

} // verus!
