//! The front end that runs jobs from the command line: what it shows of a
//! job that has ended, and with which code it exits.

use crate::job::{ExitStatus, JobEffects, JobFailure, JobOutcome, JobOutput, JobSpec};
use crate::text::{decimal, u64_to_decimal};
use vstd::prelude::*;

verus! {

/// The exit code of success.
pub const SUCCESS: u8 = 0;

/// The exit code of a failure that has no code of its own.
pub const FAILURE: u8 = 1;

/// The two ways to run a single job.
#[derive(Clone, Copy, Debug, PartialEq, Eq, Structural)]
pub struct OneOrTty {
    /// Run only the first job.
    pub one: bool,
    /// Run only the first job, on a terminal.
    pub tty: bool,
}

impl OneOrTty {
    /// Whether a single job is to be run, one way or the other.
    pub fn any(&self) -> (b: bool)
        ensures
            b == (self.one || self.tty),
    {
        self.one || self.tty
    }
}

/// The options of the command line that are not part of the configuration.
#[derive(Clone, Debug)]
pub struct ExtraCommandLineOptions {
    /// The file to read the job specifications from, in place of standard input.
    pub file: Option<String>,
    pub one_or_tty: OneOrTty,
    /// The program and its arguments, to be run in place of those of the
    /// job specification.
    pub args: Vec<String>,
}

/// Replaces the program and the arguments of `spec` by `args`, the program
/// first. Without `args` the specification stays as it is.
pub fn override_program(spec: JobSpec, args: Vec<String>) -> (r: JobSpec)
    ensures
        args@.len() == 0 ==> r == spec,
        args@.len() > 0 ==> r.program == args@[0] && r.arguments@ == args@.skip(1) && r.layers
            == spec.layers && r.environment == spec.environment && r.timeout == spec.timeout
            && r.capture_limit == spec.capture_limit && r.network == spec.network
            && r.enable_writable_file_system == spec.enable_writable_file_system
            && r.working_directory == spec.working_directory && r.user == spec.user && r.group
            == spec.group && r.allocate_tty == spec.allocate_tty,
{
    if args.len() == 0 {
        return spec;
    }
    let mut args = args;
    let arguments = args.split_off(1);
    let program = args.remove(0);
    let mut r = spec;
    r.program = program;
    r.arguments = arguments;
    r
}

/// One thing the front end writes.
#[derive(Debug, PartialEq, Eq)]
pub enum Output {
    /// Bytes for standard output.
    Stdout(Vec<u8>),
    /// Bytes for standard error.
    Stderr(Vec<u8>),
    /// Standard output is to be flushed.
    FlushStdout,
    /// A line for standard error.
    Diagnostic(String),
}

/// One thing the front end writes, as a mathematical object.
pub enum OutputView {
    Stdout(Seq<u8>),
    Stderr(Seq<u8>),
    FlushStdout,
    Diagnostic(Seq<char>),
}

impl View for Output {
    type V = OutputView;

    open spec fn view(&self) -> OutputView {
        match self {
            Output::Stdout(bytes) => OutputView::Stdout(bytes@),
            Output::Stderr(bytes) => OutputView::Stderr(bytes@),
            Output::FlushStdout => OutputView::FlushStdout,
            Output::Diagnostic(line) => OutputView::Diagnostic(line@),
        }
    }
}

/// What is written, as mathematical objects.
pub open spec fn views(out: Seq<Output>) -> Seq<OutputView> {
    out.map_values(|o: Output| o@)
}

/// How a diagnostic names the job it is about: not at all if there is only one.
pub open spec fn spec_job_prefix(cjid: Option<u32>) -> Seq<char> {
    match cjid {
        Some(n) => "job "@ + decimal(n as nat) + ": "@,
        None => Seq::empty(),
    }
}

/// The diagnostic for a stream of which `lost` bytes were dropped.
pub open spec fn spec_truncated(cjid: Option<u32>, stream: Seq<char>, lost: u64) -> Seq<char> {
    spec_job_prefix(cjid) + stream + " truncated, "@ + decimal(lost as nat) + " bytes lost"@
}

/// What is written for the captured standard output of a job.
pub open spec fn spec_stdout(cjid: Option<u32>, stdout: JobOutput) -> Seq<OutputView> {
    match stdout {
        JobOutput::Empty => Seq::empty(),
        JobOutput::Inline(bytes) => seq![OutputView::Stdout(bytes@)],
        JobOutput::Truncated { first, truncated } => seq![
            OutputView::Stdout(first@),
            OutputView::FlushStdout,
            OutputView::Diagnostic(spec_truncated(cjid, "stdout"@, truncated)),
        ],
    }
}

/// What is written for the captured standard error of a job.
pub open spec fn spec_stderr(cjid: Option<u32>, stderr: JobOutput) -> Seq<OutputView> {
    match stderr {
        JobOutput::Empty => Seq::empty(),
        JobOutput::Inline(bytes) => seq![OutputView::Stderr(bytes@)],
        JobOutput::Truncated { first, truncated } => seq![
            OutputView::Stderr(first@),
            OutputView::Diagnostic(spec_truncated(cjid, "stderr"@, truncated)),
        ],
    }
}

/// What is written for what a job left behind: its output, then its errors.
pub open spec fn spec_effects(cjid: Option<u32>, effects: JobEffects) -> Seq<OutputView> {
    spec_stdout(cjid, effects.stdout) + spec_stderr(cjid, effects.stderr)
}

fn job_prefix(cjid: Option<u32>) -> (s: String)
    ensures
        s@ == spec_job_prefix(cjid),
{
    match cjid {
        Some(n) => {
            let mut s = String::from_str("job ");
            let number = u64_to_decimal(n as u64);
            s.append(number.as_str());
            s.append(": ");
            s
        },
        None => String::new(),
    }
}

fn diagnostic(cjid: Option<u32>, what: &str) -> (o: Output)
    ensures
        o@ == OutputView::Diagnostic(spec_job_prefix(cjid) + what@),
{
    let mut s = job_prefix(cjid);
    s.append(what);
    Output::Diagnostic(s)
}

fn diagnostic_with(cjid: Option<u32>, what: &str, detail: &str) -> (o: Output)
    ensures
        o@ == OutputView::Diagnostic(spec_job_prefix(cjid) + what@ + detail@),
{
    let mut s = job_prefix(cjid);
    s.append(what);
    s.append(detail);
    Output::Diagnostic(s)
}

fn truncated(cjid: Option<u32>, stream: &str, lost: u64) -> (o: Output)
    ensures
        o@ == OutputView::Diagnostic(spec_truncated(cjid, stream@, lost)),
{
    let mut s = job_prefix(cjid);
    s.append(stream);
    s.append(" truncated, ");
    let number = u64_to_decimal(lost);
    s.append(number.as_str());
    s.append(" bytes lost");
    Output::Diagnostic(s)
}

/// Lists what is to be written for what a job left behind.
pub fn print_effects(cjid: Option<u32>, effects: JobEffects) -> (out: Vec<Output>)
    ensures
        views(out@) == spec_effects(cjid, effects),
{
    let mut out: Vec<Output> = Vec::new();
    let JobEffects { stdout, stderr, duration_ms: _ } = effects;
    match stdout {
        JobOutput::Empty => {},
        JobOutput::Inline(bytes) => {
            out.push(Output::Stdout(bytes));
        },
        JobOutput::Truncated { first, truncated: lost } => {
            out.push(Output::Stdout(first));
            out.push(Output::FlushStdout);
            out.push(truncated(cjid, "stdout", lost));
        },
    }
    assert(views(out@) =~= spec_stdout(cjid, effects.stdout));
    let ghost before = out@;
    match stderr {
        JobOutput::Empty => {},
        JobOutput::Inline(bytes) => {
            out.push(Output::Stderr(bytes));
        },
        JobOutput::Truncated { first, truncated: lost } => {
            out.push(Output::Stderr(first));
            out.push(truncated(cjid, "stderr", lost));
        },
    }
    assert(views(out@) =~= views(before) + spec_stderr(cjid, effects.stderr));
    out
}

/// The exit code that stands for how a job of many ended: its own code if
/// it exited, and that of failure in every other case.
pub open spec fn spec_exit_code(outcome: JobOutcome) -> u8 {
    match outcome {
        JobOutcome::Completed { status: ExitStatus::Exited(code), .. } => code,
        _ => FAILURE,
    }
}

/// What is written about how a job ended, after what it left behind.
pub open spec fn spec_verdict(cjid: Option<u32>, outcome: JobOutcome) -> Seq<OutputView> {
    match outcome {
        JobOutcome::Completed { status: ExitStatus::Exited(code), .. } => if code == 0 {
            Seq::empty()
        } else {
            seq![
                OutputView::FlushStdout,
                OutputView::Diagnostic(
                    spec_job_prefix(cjid) + "exited with code "@ + decimal(code as nat),
                ),
            ]
        },
        JobOutcome::Completed { status: ExitStatus::Signaled(signal), .. } => seq![
            OutputView::FlushStdout,
            OutputView::Diagnostic(
                spec_job_prefix(cjid) + "killed by signal "@ + decimal(signal as nat),
            ),
        ],
        JobOutcome::TimedOut { .. } => seq![
            OutputView::FlushStdout,
            OutputView::Diagnostic(spec_job_prefix(cjid) + "timed out"@),
        ],
        JobOutcome::Canceled => seq![OutputView::Diagnostic(spec_job_prefix(cjid) + "canceled"@)],
        JobOutcome::Failed(JobFailure::ArtifactFetch) => seq![
            OutputView::Diagnostic(
                spec_job_prefix(cjid) + "system error: "@ + "artifact fetch failed"@,
            ),
        ],
        JobOutcome::Failed(JobFailure::Execution(detail)) => seq![
            OutputView::Diagnostic(spec_job_prefix(cjid) + "execution error: "@ + detail@),
        ],
        JobOutcome::Failed(JobFailure::System(detail)) => seq![
            OutputView::Diagnostic(spec_job_prefix(cjid) + "system error: "@ + detail@),
        ],
    }
}

/// What a job that ran left behind, if it ran.
pub open spec fn spec_effects_of(cjid: Option<u32>, outcome: JobOutcome) -> Seq<OutputView> {
    match outcome {
        JobOutcome::Completed { effects, .. } => spec_effects(cjid, effects),
        JobOutcome::TimedOut { effects } => spec_effects(cjid, effects),
        _ => Seq::empty(),
    }
}

/// Says what is to be written for the job `cjid`, one of many, that has
/// ended, and with which exit code it counts.
pub fn visitor(cjid: u32, outcome: JobOutcome) -> (r: (u8, Vec<Output>))
    ensures
        r.0 == spec_exit_code(outcome),
        views(r.1@) == spec_effects_of(Some(cjid), outcome) + spec_verdict(Some(cjid), outcome),
{
    let id = Some(cjid);
    match outcome {
        JobOutcome::Completed { status, effects } => {
            let mut out = print_effects(id, effects);
            let ghost before = out@;
            let code = match status {
                ExitStatus::Exited(code) => {
                    if code != 0 {
                        out.push(Output::FlushStdout);
                        let number = u64_to_decimal(code as u64);
                        out.push(diagnostic_with(id, "exited with code ", number.as_str()));
                    }
                    code
                },
                ExitStatus::Signaled(signal) => {
                    out.push(Output::FlushStdout);
                    let number = u64_to_decimal(signal as u64);
                    out.push(diagnostic_with(id, "killed by signal ", number.as_str()));
                    FAILURE
                },
            };
            assert(views(out@) =~= views(before) + spec_verdict(id, outcome));
            (code, out)
        },
        JobOutcome::TimedOut { effects } => {
            let mut out = print_effects(id, effects);
            let ghost before = out@;
            out.push(Output::FlushStdout);
            out.push(diagnostic(id, "timed out"));
            assert(views(out@) =~= views(before) + spec_verdict(id, outcome));
            (FAILURE, out)
        },
        other => {
            let mut out: Vec<Output> = Vec::new();
            out.push(failure_diagnostic(id, &other));
            assert(views(out@) =~= spec_effects_of(id, outcome) + spec_verdict(id, outcome));
            (FAILURE, out)
        },
    }
}

fn failure_diagnostic(cjid: Option<u32>, outcome: &JobOutcome) -> (o: Output)
    requires
        !(outcome is Completed),
        !(outcome is TimedOut),
    ensures
        seq![o@] == spec_verdict(cjid, *outcome),
{
    match outcome {
        JobOutcome::Failed(JobFailure::Execution(detail)) => diagnostic_with(
            cjid,
            "execution error: ",
            detail.as_str(),
        ),
        JobOutcome::Failed(JobFailure::System(detail)) => diagnostic_with(
            cjid,
            "system error: ",
            detail.as_str(),
        ),
        JobOutcome::Failed(JobFailure::ArtifactFetch) => diagnostic_with(
            cjid,
            "system error: ",
            "artifact fetch failed",
        ),
        _ => diagnostic(cjid, "canceled"),
    }
}

/// Says what is to be written when the front end could not learn how a job
/// ended: the error it got instead.
pub fn remote_error(detail: &str) -> (r: (u8, Vec<Output>))
    ensures
        r.0 == FAILURE,
        views(r.1@) == seq![OutputView::Diagnostic("remote error: "@ + detail@)],
{
    let mut s = String::from_str("remote error: ");
    s.append(detail);
    let mut out: Vec<Output> = Vec::new();
    out.push(Output::Diagnostic(s));
    assert(views(out@) =~= seq![OutputView::Diagnostic("remote error: "@ + detail@)]);
    (FAILURE, out)
}

/// How the front end ends when it stands in for its one job.
#[derive(Clone, Copy, Debug, PartialEq, Eq, Structural)]
pub enum Ending {
    /// It exits with this code.
    Exit(u8),
    /// It dies of this signal, as the job did.
    Signal(u8),
}

/// How the front end ends for a job that ended with `outcome`.
pub open spec fn spec_ending(outcome: JobOutcome) -> Ending {
    match outcome {
        JobOutcome::Completed { status: ExitStatus::Exited(code), .. } => Ending::Exit(code),
        JobOutcome::Completed { status: ExitStatus::Signaled(signal), .. } => Ending::Signal(
            signal,
        ),
        _ => Ending::Exit(FAILURE),
    }
}

/// What is written about how the one job ended, after what it left behind.
/// A job that ran to its end speaks for itself.
pub open spec fn spec_last_words(outcome: JobOutcome) -> Seq<OutputView> {
    match outcome {
        JobOutcome::Completed { .. } => Seq::empty(),
        _ => spec_verdict(None, outcome),
    }
}

/// Says what is to be written for the one job the front end stands in for,
/// and how the front end is to end: as the job did.
pub fn mimic_child_death(outcome: JobOutcome) -> (r: (Ending, Vec<Output>))
    ensures
        r.0 == spec_ending(outcome),
        views(r.1@) == spec_effects_of(None, outcome) + spec_last_words(outcome),
{
    match outcome {
        JobOutcome::Completed { status, effects } => {
            let out = print_effects(None, effects);
            assert(views(out@) + Seq::<OutputView>::empty() =~= views(out@));
            let ending = match status {
                ExitStatus::Exited(code) => Ending::Exit(code),
                ExitStatus::Signaled(signal) => Ending::Signal(signal),
            };
            (ending, out)
        },
        JobOutcome::TimedOut { effects } => {
            let mut out = print_effects(None, effects);
            let ghost before = out@;
            out.push(Output::FlushStdout);
            out.push(diagnostic(None, "timed out"));
            assert(views(out@) =~= views(before) + spec_verdict(None, outcome));
            (Ending::Exit(FAILURE), out)
        },
        other => {
            let mut out: Vec<Output> = Vec::new();
            out.push(failure_diagnostic(None, &other));
            assert(views(out@) =~= spec_effects_of(None, outcome) + spec_last_words(outcome));
            (Ending::Exit(FAILURE), out)
        },
    }
}

/// Keeps count of the jobs that are under way and of the exit code they add
/// up to: that of the first job that did not succeed.
#[derive(Clone, Copy, Debug, PartialEq, Eq, Structural)]
pub struct JobTracker {
    pub outstanding: usize,
    pub exit_code: u8,
}

impl JobTracker {
    /// A tracker with no job under way and nothing failed.
    pub fn new() -> (t: Self)
        ensures
            t == (JobTracker { outstanding: 0, exit_code: SUCCESS }),
    {
        JobTracker { outstanding: 0, exit_code: SUCCESS }
    }

    /// Counts one more job as under way. Returns false, and counts nothing,
    /// if the count is at its limit.
    pub fn add_outstanding(&mut self) -> (counted: bool)
        ensures
            counted == (old(self).outstanding < usize::MAX),
            counted ==> *final(self) == (JobTracker {
                outstanding: (old(self).outstanding + 1) as usize,
                ..*old(self)
            }),
            !counted ==> *final(self) == *old(self),
    {
        if self.outstanding < usize::MAX {
            self.outstanding = self.outstanding + 1;
            true
        } else {
            false
        }
    }

    /// Counts one job as ended with `exit_code`. The first code that is not
    /// success is kept.
    pub fn job_completed(&mut self, exit_code: u8)
        requires
            old(self).outstanding > 0,
        ensures
            final(self).outstanding == old(self).outstanding - 1,
            final(self).exit_code == if old(self).exit_code == SUCCESS {
                exit_code
            } else {
                old(self).exit_code
            },
    {
        self.outstanding = self.outstanding - 1;
        if self.exit_code == SUCCESS {
            self.exit_code = exit_code;
        }
    }

    /// Whether no job is under way.
    pub fn is_done(&self) -> (b: bool)
        ensures
            b == (self.outstanding == 0),
    {
        self.outstanding == 0
    }
}

/// What happens while the front end runs its one job on a terminal.
#[derive(Debug)]
pub enum TtyEvent {
    /// Something went wrong: with the client, or while the job connected.
    Error(String),
    /// The job has ended.
    JobCompleted(JobOutcome),
    /// The job has connected to the socket the front end listens on.
    JobConnected,
    /// The job has written these bytes to its terminal.
    JobOutput(Vec<u8>),
}

/// What the front end is to do on its terminal.
#[derive(Debug, PartialEq, Eq)]
pub enum TtyAction {
    /// Write a line to standard output.
    Print(String),
    /// Put the terminal into raw mode.
    EnableRawMode,
    /// Start to pass bytes between the terminal and the job, both ways.
    StartRelay,
    /// Write bytes to standard output and flush it.
    Write(Vec<u8>),
    /// Take the terminal out of raw mode.
    DisableRawMode,
}

/// What the front end is to do on its terminal, as a mathematical object.
pub enum TtyActionView {
    Print(Seq<char>),
    EnableRawMode,
    StartRelay,
    Write(Seq<u8>),
    DisableRawMode,
}

impl View for TtyAction {
    type V = TtyActionView;

    open spec fn view(&self) -> TtyActionView {
        match self {
            TtyAction::Print(line) => TtyActionView::Print(line@),
            TtyAction::EnableRawMode => TtyActionView::EnableRawMode,
            TtyAction::StartRelay => TtyActionView::StartRelay,
            TtyAction::Write(bytes) => TtyActionView::Write(bytes@),
            TtyAction::DisableRawMode => TtyActionView::DisableRawMode,
        }
    }
}

/// Whether the session goes on, and if not how it ended.
#[derive(Debug, PartialEq, Eq)]
pub enum TtyVerdict {
    /// The session goes on.
    Continue,
    /// The job has ended; the front end is to end as the job did.
    Done(JobOutcome),
    /// The session has failed.
    Failed(String),
}

/// The session of a job on a terminal: whether the terminal is in raw mode.
#[derive(Clone, Copy, Debug, PartialEq, Eq, Structural)]
pub struct TtySession {
    pub in_raw_mode: bool,
}

/// The actions, as mathematical objects.
pub open spec fn tty_views(actions: Seq<TtyAction>) -> Seq<TtyActionView> {
    actions.map_values(|a: TtyAction| a@)
}

/// What is done when the session ends: the terminal leaves raw mode if it
/// was put into it.
pub open spec fn spec_leave(session: TtySession) -> Seq<TtyActionView> {
    if session.in_raw_mode {
        seq![TtyActionView::DisableRawMode]
    } else {
        Seq::empty()
    }
}

impl TtySession {
    /// Begins a session: the terminal is as it was, and the user is told
    /// that the job has yet to start.
    pub fn start() -> (r: (TtySession, Vec<TtyAction>))
        ensures
            !r.0.in_raw_mode,
            tty_views(r.1@) == seq![TtyActionView::Print("waiting for job to start"@)],
    {
        let mut actions: Vec<TtyAction> = Vec::new();
        actions.push(TtyAction::Print(String::from_str("waiting for job to start")));
        assert(tty_views(actions@) =~= seq![TtyActionView::Print("waiting for job to start"@)]);
        (TtySession { in_raw_mode: false }, actions)
    }

    /// Takes one event. When the job connects, the terminal goes into raw
    /// mode and bytes start to flow. What the job writes is written. When
    /// the job ends or something fails, the terminal leaves raw mode if it
    /// was in it, and the session is over.
    pub fn receive(&mut self, event: TtyEvent) -> (r: (Vec<TtyAction>, TtyVerdict))
        ensures
            match event {
                TtyEvent::Error(error) => {
                    &&& r.1 == TtyVerdict::Failed(error)
                    &&& tty_views(r.0@) == spec_leave(*old(self))
                    &&& !final(self).in_raw_mode
                },
                TtyEvent::JobCompleted(outcome) => {
                    &&& r.1 == TtyVerdict::Done(outcome)
                    &&& tty_views(r.0@) == spec_leave(*old(self))
                    &&& !final(self).in_raw_mode
                },
                TtyEvent::JobConnected => {
                    &&& r.1 == TtyVerdict::Continue
                    &&& tty_views(r.0@) == seq![
                        TtyActionView::Print("job started, going into raw mode"@),
                        TtyActionView::EnableRawMode,
                        TtyActionView::StartRelay,
                    ]
                    &&& final(self).in_raw_mode
                },
                TtyEvent::JobOutput(bytes) => {
                    &&& r.1 == TtyVerdict::Continue
                    &&& tty_views(r.0@) == seq![TtyActionView::Write(bytes@)]
                    &&& *final(self) == *old(self)
                },
            },
    {
        let mut actions: Vec<TtyAction> = Vec::new();
        match event {
            TtyEvent::Error(error) => {
                if self.in_raw_mode {
                    actions.push(TtyAction::DisableRawMode);
                }
                assert(tty_views(actions@) =~= spec_leave(*old(self)));
                self.in_raw_mode = false;
                (actions, TtyVerdict::Failed(error))
            },
            TtyEvent::JobCompleted(outcome) => {
                if self.in_raw_mode {
                    actions.push(TtyAction::DisableRawMode);
                }
                assert(tty_views(actions@) =~= spec_leave(*old(self)));
                self.in_raw_mode = false;
                (actions, TtyVerdict::Done(outcome))
            },
            TtyEvent::JobConnected => {
                actions.push(TtyAction::Print(String::from_str("job started, going into raw mode")));
                actions.push(TtyAction::EnableRawMode);
                actions.push(TtyAction::StartRelay);
                self.in_raw_mode = true;
                assert(tty_views(actions@) =~= seq![
                    TtyActionView::Print("job started, going into raw mode"@),
                    TtyActionView::EnableRawMode,
                    TtyActionView::StartRelay,
                ]);
                (actions, TtyVerdict::Continue)
            },
            TtyEvent::JobOutput(bytes) => {
                actions.push(TtyAction::Write(bytes));
                assert(tty_views(actions@) =~= seq![TtyActionView::Write(bytes@)]);
                (actions, TtyVerdict::Continue)
            },
        }
    }
}

/// What the front end is asked to do.
#[derive(Clone, Copy, Debug, PartialEq, Eq, Structural)]
pub enum RunMode {
    /// Run every job that is specified.
    All,
    /// Run the first job and end as it does.
    One,
    /// Run the first job on a terminal and end as it does.
    Tty,
}

impl OneOrTty {
    /// How the jobs are to be run. The terminal wins over `one`.
    pub fn mode(&self) -> (m: RunMode)
        ensures
            m == if self.tty {
                RunMode::Tty
            } else if self.one {
                RunMode::One
            } else {
                RunMode::All
            },
    {
        if self.tty {
            RunMode::Tty
        } else if self.one {
            RunMode::One
        } else {
            RunMode::All
        }
    }
}

/// What keeps the front end from running a job on a terminal, if anything:
/// both its standard input and its standard output must be terminals, and
/// the input is looked at first.
pub fn tty_obstacle(mode: RunMode, stdin_is_terminal: bool, stdout_is_terminal: bool) -> (r: Option<
    &'static str,
>)
    ensures
        match r {
            None => !(mode is Tty) || (stdin_is_terminal && stdout_is_terminal),
            Some(message) => mode is Tty && if !stdin_is_terminal {
                message@ == "error: standard input is not a terminal"@
            } else {
                !stdout_is_terminal && message@ == "error: standard output is not a terminal"@
            },
        },
{
    match mode {
        RunMode::Tty => {
            if !stdin_is_terminal {
                Some("error: standard input is not a terminal")
            } else if !stdout_is_terminal {
                Some("error: standard output is not a terminal")
            } else {
                None
            }
        },
        _ => None,
    }
}

} // verus!
