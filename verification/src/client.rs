//! What a client process and its front ends exchange.

use crate::job::{JobNetwork, JobOutcome, JobSpec};
use crate::root::RootBuf;
use vstd::prelude::*;

verus! {

/// The project directory. Relative paths in layer specifications are
/// resolved against it, and the lock file of container tags is looked for
/// in it.
pub struct ProjectDir;

/// The state directory: what should outlive a restart but is not worth
/// carrying to another machine. For the client, its log files.
pub struct StateDir;

/// The cache directory of the client. The cache of a local worker lives
/// inside it, and so does the manifest cache.
pub struct CacheDir;

/// The directory of manifests, below the cache directory.
pub const MANIFEST_DIR: &'static str = "manifests";

/// The directory of stub manifests, below the cache directory.
pub const STUB_MANIFEST_DIR: &'static str = "manifests/stubs";

/// The directory of symlink manifests, below the cache directory.
pub const SYMLINK_MANIFEST_DIR: &'static str = "manifests/symlinks";

/// The directory of shared-object listings, below the cache directory.
pub const SO_LISTINGS_DIR: &'static str = "so_listings";

/// The directory in which images of containers are kept.
pub struct ContainerImageDepotDir;

/// How far a transfer has come.
#[derive(Clone, Debug, PartialEq, Eq)]
pub struct RemoteProgress {
    pub name: String,
    pub size: u64,
    pub progress: u64,
}

/// Whether the certificate of a container registry is accepted unchecked.
#[derive(Clone, Copy, Debug, PartialEq, Eq, Structural)]
pub struct AcceptInvalidRemoteContainerTlsCerts(pub bool);

impl AcceptInvalidRemoteContainerTlsCerts {
    /// The flag as a plain truth value.
    pub fn into_inner(self) -> (b: bool)
        ensures
            b == self.0,
    {
        self.0
    }

    /// The flag that stands for `b`.
    pub fn from_bool(b: bool) -> (f: Self)
        ensures
            f.0 == b,
    {
        AcceptInvalidRemoteContainerTlsCerts(b)
    }

    /// The flag as it is printed: as the truth value it holds.
    pub fn describe(&self) -> (s: &'static str)
        ensures
            s@ == if self.0 {
                "true"@
            } else {
                "false"@
            },
    {
        if self.0 {
            "true"
        } else {
            "false"
        }
    }
}

/// One key of a log record with its value.
#[derive(Clone, Debug, PartialEq, Eq)]
pub struct RpcLogKeyValue {
    pub key: String,
    pub value: String,
}

/// How grave a log record is, the gravest first.
#[derive(Clone, Copy, Debug, PartialEq, Eq, Structural)]
pub enum LogLevel {
    Critical,
    Error,
    Warning,
    Info,
    Debug,
    Trace,
}

/// A log record of the client process, to be logged again by its front end.
#[derive(Clone, Debug)]
pub struct RpcLogMessage {
    pub message: String,
    pub level: LogLevel,
    pub tag: String,
    pub key_values: Vec<RpcLogKeyValue>,
}

/// The text under which a record of the client process is logged again.
pub open spec fn spec_relayed(message: Seq<char>) -> Seq<char> {
    "[client-process] "@ + message
}

impl RpcLogMessage {
    /// The text under which the record is logged again: the message, marked
    /// as coming from the client process.
    pub fn relayed_message(&self) -> (s: String)
        ensures
            s@ == spec_relayed(self.message@),
    {
        let mut s = String::from_str("[client-process] ");
        s.append(self.message.as_str());
        s
    }
}

/// A container: where its file system comes from and how a job sees it.
#[derive(Clone, Debug)]
pub struct ContainerSpec {
    pub image: Option<String>,
    pub layers: Vec<String>,
    pub environment: Vec<(String, String)>,
    pub working_directory: Option<String>,
    pub enable_writable_file_system: Option<bool>,
    pub network: Option<JobNetwork>,
    pub user: Option<u32>,
    pub group: Option<u32>,
}

/// A request to run a job.
#[derive(Clone, Debug)]
pub struct RunJobRequest {
    pub spec: JobSpec,
}

/// A request to make a container known under a name.
#[derive(Clone, Debug)]
pub struct AddContainerRequest {
    pub name: String,
    pub container: ContainerSpec,
}

/// Where a job stands as the broker counts it.
#[derive(Clone, Copy, Debug, PartialEq, Eq, Structural, Hash)]
pub enum JobState {
    WaitingForArtifacts,
    Pending,
    Running,
    Complete,
}

/// How many jobs stand where.
#[derive(Clone, Copy, Debug, PartialEq, Eq, Structural)]
pub struct JobStateCounts {
    pub waiting_for_artifacts: u64,
    pub pending: u64,
    pub running: u64,
    pub complete: u64,
}

impl JobStateCounts {
    /// The number of jobs in the state `state`.
    pub open spec fn spec_get(self, state: JobState) -> u64 {
        match state {
            JobState::WaitingForArtifacts => self.waiting_for_artifacts,
            JobState::Pending => self.pending,
            JobState::Running => self.running,
            JobState::Complete => self.complete,
        }
    }

    /// The number of jobs in the state `state`.
    pub fn get(&self, state: JobState) -> (n: u64)
        ensures
            n == self.spec_get(state),
    {
        match state {
            JobState::WaitingForArtifacts => self.waiting_for_artifacts,
            JobState::Pending => self.pending,
            JobState::Running => self.running,
            JobState::Complete => self.complete,
        }
    }

    /// Sets the number of jobs in the state `state`, and no other.
    pub fn set(&mut self, state: JobState, n: u64)
        ensures
            final(self).spec_get(state) == n,
            forall|other: JobState|
                other != state ==> #[trigger] final(self).spec_get(other) == old(self).spec_get(
                    other,
                ),
    {
        match state {
            JobState::WaitingForArtifacts => {
                self.waiting_for_artifacts = n;
            },
            JobState::Pending => {
                self.pending = n;
            },
            JobState::Running => {
                self.running = n;
            },
            JobState::Complete => {
                self.complete = n;
            },
        }
    }
}

/// What a client process says of itself when asked.
#[derive(Clone, Debug)]
pub struct IntrospectResponse {
    pub job_state_counts: JobStateCounts,
    pub artifact_uploads: Vec<RemoteProgress>,
    pub image_downloads: Vec<RemoteProgress>,
}

/// Where a job stands at a worker.
#[derive(Clone, Copy, Debug, PartialEq, Eq, Structural, PartialOrd, Ord)]
pub enum JobWorkerStatus {
    WaitingForLayers,
    WaitingToExecute,
    Executing,
}

/// Where a job stands at the broker.
#[derive(Clone, Copy, Debug, PartialEq, Eq, Structural, PartialOrd, Ord)]
pub enum JobBrokerStatus {
    WaitingForLayers,
    WaitingForWorker,
    AtWorker(u32, JobWorkerStatus),
}

/// Where a job that has not ended stands.
#[derive(Clone, Copy, Debug, PartialEq, Eq, Structural, PartialOrd, Ord)]
pub enum JobRunningStatus {
    AtBroker(JobBrokerStatus),
    AtLocalWorker(JobWorkerStatus),
}

/// Where a job stands, as a client is told.
#[derive(Clone, Debug, PartialEq, Eq)]
pub enum JobStatus {
    Running(JobRunningStatus),
    Completed { client_job_id: u32, result: JobOutcome },
}

impl JobStatus {
    /// Whether the job has ended.
    pub fn is_completed(&self) -> (b: bool)
        ensures
            b == (*self is Completed),
    {
        match self {
            JobStatus::Completed { .. } => true,
            JobStatus::Running(_) => false,
        }
    }
}

/// What a front end hands to the client process to start it.
pub struct StartRequest {
    /// The address of the broker; without one, all jobs run locally.
    pub broker_addr: Option<String>,
    pub project_dir: RootBuf<ProjectDir>,
    pub state_dir: RootBuf<StateDir>,
    pub container_image_depot_dir: RootBuf<ContainerImageDepotDir>,
    pub cache_dir: RootBuf<CacheDir>,
    pub cache_size: u64,
    pub inline_limit: u64,
    pub slots: u16,
    pub accept_invalid_remote_container_tls_certs: AcceptInvalidRemoteContainerTlsCerts,
}

} // verus!
