//! Jobs: what the broker asks for, the states a job goes through on the
//! worker, and how it ends.

use crate::ids::{ArtifactType, Digest};
use vstd::prelude::*;

verus! {

/// The network a job sees.
#[derive(Clone, Copy, Debug, PartialEq, Eq, Structural)]
pub enum JobNetwork {
    Disabled,
    Loopback,
    Local,
}

/// What to run and in which surroundings. A specification never changes once
/// the broker has sent it.
#[derive(Clone, Debug)]
pub struct JobSpec {
    pub program: String,
    pub arguments: Vec<String>,
    pub environment: Vec<String>,
    /// The layers of the root file system, the lowest first.
    pub layers: Vec<(Digest, ArtifactType)>,
    /// Seconds after which the job is killed; zero for no limit.
    pub timeout: u32,
    /// Bytes of each of the two output streams that are kept.
    pub capture_limit: u64,
    pub network: JobNetwork,
    pub enable_writable_file_system: bool,
    pub working_directory: String,
    pub user: u32,
    pub group: u32,
    pub allocate_tty: bool,
}

/// Where a job stands. The first four are the states of a job the worker
/// still holds; the last three are final.
#[derive(Clone, Copy, Debug, PartialEq, Eq, Structural)]
pub enum JobStatus {
    WaitingForArtifacts,
    WaitingForLayers,
    Ready,
    Executing,
    Completed,
    Canceled,
    Failed,
}

impl JobStatus {
    /// Whether no transition leaves this state.
    pub open spec fn spec_is_terminal(self) -> bool {
        self is Completed || self is Canceled || self is Failed
    }

    /// Whether no transition leaves this state.
    pub fn is_terminal(&self) -> (b: bool)
        ensures
            b == self.spec_is_terminal(),
    {
        match self {
            JobStatus::Completed | JobStatus::Canceled | JobStatus::Failed => true,
            _ => false,
        }
    }
}

/// How a process ended.
#[derive(Clone, Copy, Debug, PartialEq, Eq, Structural)]
pub enum ExitStatus {
    Exited(u8),
    Signaled(u8),
}

/// What was captured of one output stream.
#[derive(Clone, Debug, PartialEq, Eq)]
pub enum JobOutput {
    /// The stream was empty.
    Empty,
    /// All of the stream.
    Inline(Vec<u8>),
    /// The first bytes of the stream, and how many more were dropped.
    Truncated { first: Vec<u8>, truncated: u64 },
}

/// What a job left behind besides its exit status.
#[derive(Clone, Debug, PartialEq, Eq)]
pub struct JobEffects {
    pub stdout: JobOutput,
    pub stderr: JobOutput,
    pub duration_ms: u64,
}

/// Why a job failed without running to its end.
#[derive(Clone, Debug, PartialEq, Eq)]
pub enum JobFailure {
    /// An artifact of the job could not be fetched or stored.
    ArtifactFetch,
    /// The program could not be started, or its sandbox could not be set up.
    Execution(String),
    /// The worker itself failed: a layer build, or a call into the system.
    System(String),
}

/// How a job ended.
#[derive(Clone, Debug, PartialEq, Eq)]
pub enum JobOutcome {
    Completed { status: ExitStatus, effects: JobEffects },
    TimedOut { effects: JobEffects },
    Canceled,
    Failed(JobFailure),
}

impl JobOutcome {
    /// The final state that goes with the outcome. A job that timed out has
    /// run to its end.
    pub open spec fn spec_status(self) -> JobStatus {
        match self {
            JobOutcome::Completed { .. } => JobStatus::Completed,
            JobOutcome::TimedOut { .. } => JobStatus::Completed,
            JobOutcome::Canceled => JobStatus::Canceled,
            JobOutcome::Failed(_) => JobStatus::Failed,
        }
    }

    /// The final state that goes with the outcome.
    pub fn status(&self) -> (s: JobStatus)
        ensures
            s == self.spec_status(),
            s.spec_is_terminal(),
    {
        match self {
            JobOutcome::Completed { .. } => JobStatus::Completed,
            JobOutcome::TimedOut { .. } => JobStatus::Completed,
            JobOutcome::Canceled => JobStatus::Canceled,
            JobOutcome::Failed(_) => JobStatus::Failed,
        }
    }
}

/// Captures an output stream under a limit: an empty stream is `Empty`, one
/// within the limit is kept whole, and of a longer one the first `limit`
/// bytes are kept and the others counted.
pub fn capture_output(bytes: Vec<u8>, limit: u64) -> (out: JobOutput)
    ensures
        match out {
            JobOutput::Empty => bytes@.len() == 0,
            JobOutput::Inline(all) => 0 < bytes@.len() <= limit && all@ == bytes@,
            JobOutput::Truncated { first, truncated } => bytes@.len() > limit && first@
                == bytes@.take(limit as int) && truncated == bytes@.len() - limit,
        },
{
    let len = bytes.len();
    if len == 0 {
        JobOutput::Empty
    } else if len as u64 <= limit {
        JobOutput::Inline(bytes)
    } else {
        let mut first = bytes;
        first.truncate(limit as usize);
        JobOutput::Truncated { first, truncated: len as u64 - limit }
    }
}

/// The digests of a list of layers, each once, in the order in which they
/// first occur.
pub open spec fn distinct_digests(layers: Seq<(Digest, ArtifactType)>) -> Seq<Digest>
    decreases layers.len(),
{
    if layers.len() == 0 {
        Seq::empty()
    } else {
        let rest = distinct_digests(layers.drop_last());
        if rest.contains(layers.last().0) {
            rest
        } else {
            rest.push(layers.last().0)
        }
    }
}

/// The list of distinct digests has no repeats and holds exactly the digests
/// of the layers.
pub proof fn lemma_distinct_digests(layers: Seq<(Digest, ArtifactType)>)
    ensures
        distinct_digests(layers).no_duplicates(),
        forall|d: Digest| #[trigger]
            distinct_digests(layers).contains(d) <==> exists|i: int|
                0 <= i < layers.len() && layers[i].0 == d,
    decreases layers.len(),
{
    if layers.len() > 0 {
        let init = layers.drop_last();
        lemma_distinct_digests(init);
        let rest = distinct_digests(init);
        let last = layers.last().0;
        let all = distinct_digests(layers);
        if !rest.contains(last) {
            crate::seq_util::lemma_push_distinct(rest, last);
        }
        assert forall|d: Digest| #[trigger] all.contains(d) <==> exists|i: int|
            0 <= i < layers.len() && layers[i].0 == d by {
            if all.contains(d) {
                if rest.contains(d) {
                    let i = choose|i: int| 0 <= i < init.len() && init[i].0 == d;
                    assert(layers[i].0 == d);
                } else {
                    assert(layers[layers.len() - 1].0 == d);
                }
            }
            if exists|i: int| 0 <= i < layers.len() && layers[i].0 == d {
                let i = choose|i: int| 0 <= i < layers.len() && layers[i].0 == d;
                if i < layers.len() - 1 {
                    assert(init[i].0 == d);
                }
            }
        }
    }
}

/// Collects the digests of a list of layers, each once, in the order in
/// which they first occur.
pub fn collect_digests(layers: &Vec<(Digest, ArtifactType)>) -> (digests: Vec<Digest>)
    ensures
        digests@ == distinct_digests(layers@),
{
    let mut digests: Vec<Digest> = Vec::new();
    let mut i: usize = 0;
    while i < layers.len()
        invariant
            i <= layers@.len(),
            digests@ == distinct_digests(layers@.take(i as int)),
        decreases layers@.len() - i,
    {
        let d = layers[i].0;
        proof {
            assert(layers@.take(i as int + 1).drop_last() =~= layers@.take(i as int));
        }
        if crate::seq_util::position_of_digest(&digests, d).is_none() {
            digests.push(d);
        }
        i += 1;
    }
    assert(layers@.take(i as int) =~= layers@);
    digests
}

} // verus!
