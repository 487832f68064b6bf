use maelstrom_worker::client::{
    AcceptInvalidRemoteContainerTlsCerts, JobRunningStatus, JobState, JobStateCounts,
    JobWorkerStatus, LogLevel, RpcLogMessage, MANIFEST_DIR, SO_LISTINGS_DIR, STUB_MANIFEST_DIR,
    SYMLINK_MANIFEST_DIR,
};
use maelstrom_worker::client::JobStatus as ClientJobStatus;
use maelstrom_worker::fs::{dir_size, FileType, Metadata};
use maelstrom_worker::ids::{Digest, JobId};
use maelstrom_worker::job::{
    capture_output, collect_digests, ExitStatus, JobEffects, JobFailure, JobNetwork, JobOutcome,
    JobOutput, JobSpec, JobStatus,
};
use maelstrom_worker::ids::ArtifactType;
use maelstrom_worker::layer_table::{
    entry_position, file_position, next_attributes_id, next_file_id, AttributesTableHeader,
    FileId, FileTableHeader, LayerFsVersion,
};
use maelstrom_worker::layout::{WorkerCacheDir, WorkerDirs};
use maelstrom_worker::limits::{check_open_file_limit, round_to_multiple, FileBudget};
use maelstrom_worker::pool::Pool;
use maelstrom_worker::root::RootBuf;
use maelstrom_worker::run::{
    mimic_child_death, override_program, print_effects, remote_error, tty_obstacle, visitor,
    Ending, JobTracker, OneOrTty, Output, RunMode, TtyAction, TtyEvent, TtySession, TtyVerdict,
    FAILURE, SUCCESS,
};
use maelstrom_worker::test_runner::{
    collection_messages, maybe_print_build_error, CollectionMessage, RunError,
};
use maelstrom_worker::text::{u128_to_decimal, u64_to_decimal, u64_to_hex};

fn jid(n: u32) -> JobId {
    JobId { cid: 7, cjid: n }
}

#[test]
fn round_to_multiple_rounds_up() {
    assert_eq!(round_to_multiple(0, 1024), 0);
    assert_eq!(round_to_multiple(1, 1024), 1024);
    assert_eq!(round_to_multiple(1024, 1024), 1024);
    assert_eq!(round_to_multiple(1025, 1024), 2048);
    assert_eq!(round_to_multiple(7, 1), 7);
    assert_eq!(round_to_multiple(10, 3), 12);
    assert_eq!(round_to_multiple(u64::MAX, 5), u64::MAX);
}

#[test]
fn open_file_max_follows_the_formula() {
    let budget = FileBudget::standard();
    assert_eq!(budget.open_file_max(0), 3 + 512 + 10 + 30);
    assert_eq!(budget.open_file_max(1), 3 + 512 + 10 + 1030 + 30);
    assert_eq!(budget.open_file_max(24), 3 + 512 + 10 + 1030 * 24 + 30);
    let odd = FileBudget {
        reader_cache: 2,
        max_fetches: 3,
        per_slot: 5,
        max_layer_builds: 7,
        per_build: 11,
    };
    assert_eq!(odd.open_file_max(13), 3 + 4 + 3 + 65 + 77);
    let huge = FileBudget {
        reader_cache: u32::MAX,
        max_fetches: u32::MAX,
        per_slot: u32::MAX,
        max_layer_builds: u16::MAX,
        per_build: u32::MAX,
    };
    assert_eq!(FileBudget::for_queue().open_file_max(1), 3 + 512 + 1 + 1030 + 30);
    assert_eq!(
        huge.open_file_max(u16::MAX) as u128,
        3 + 3 * (u32::MAX as u128) + 2 * (u32::MAX as u128) * (u16::MAX as u128)
    );
}

#[test]
fn open_file_limit_is_checked_against_the_estimate() {
    let budget = FileBudget::standard();
    let need = budget.open_file_max(4);
    assert_eq!(need, 4675);
    assert_eq!(check_open_file_limit(need, &budget, 4, 0), Ok(()));
    assert_eq!(check_open_file_limit(u64::MAX, &budget, 4, 0), Ok(()));
    assert_eq!(
        check_open_file_limit(need - 1, &budget, 4, 0),
        Err("Open file limit is too low. Increase limit by running `ulimit -n 5120`".to_string())
    );
    assert_eq!(
        check_open_file_limit(need, &budget, 4, 1),
        Err("Open file limit is too low. Increase limit by running `ulimit -n 5120`".to_string())
    );
    assert_eq!(
        check_open_file_limit(1024, &budget, 4, 445),
        Err("Open file limit is too low. Increase limit by running `ulimit -n 5120`".to_string())
    );
    assert_eq!(
        check_open_file_limit(u64::MAX, &budget, 4, u64::MAX),
        Err(
            "Open file limit is too low. Increase limit by running `ulimit -n 18446744073709556736`"
                .to_string()
        )
    );
}

#[test]
fn numbers_as_text() {
    assert_eq!(u64_to_decimal(0), "0");
    assert_eq!(u64_to_decimal(9), "9");
    assert_eq!(u64_to_decimal(10), "10");
    assert_eq!(u64_to_decimal(1905), "1905");
    assert_eq!(u64_to_decimal(u64::MAX), "18446744073709551615");
    assert_eq!(u128_to_decimal(u128::MAX), "340282366920938463463374607431768211455");
    assert_eq!(u64_to_hex(0), "0000000000000000");
    assert_eq!(u64_to_hex(0xdeadbeef), "00000000deadbeef");
    assert_eq!(u64_to_hex(u64::MAX), "ffffffffffffffff");
}

#[test]
fn digests_are_ordered_as_numbers() {
    let small = Digest { w0: 0, w1: 9, w2: 9, w3: 9 };
    let large = Digest { w0: 1, w1: 0, w2: 0, w3: 0 };
    assert!(small.lt(&large));
    assert!(!large.lt(&small));
    assert!(!small.lt(&small));
    assert!(Digest::from_u64(1).lt(&Digest::from_u64(2)));
    assert_eq!(small < large, small.lt(&large));
    assert_eq!(
        Digest::from_u64(255).to_hex(),
        "00000000000000000000000000000000000000000000000000000000000000ff"
    );
    assert!(jid(1).lt(&jid(2)));
    assert!(JobId { cid: 1, cjid: 9 }.lt(&JobId { cid: 2, cjid: 0 }));
    assert!(!jid(2).lt(&jid(2)));
}

#[test]
fn metadata_constructors() {
    assert_eq!(Metadata::directory(1), Metadata { type_: FileType::Directory, size: 1 });
    assert_eq!(Metadata::file(2), Metadata { type_: FileType::File, size: 2 });
    assert_eq!(Metadata::symlink(3), Metadata { type_: FileType::Symlink, size: 3 });
    assert_eq!(FileType::from_flags(true, true, true), FileType::Directory);
    assert_eq!(FileType::from_flags(false, true, true), FileType::File);
    assert_eq!(FileType::from_flags(false, false, true), FileType::Symlink);
    assert_eq!(FileType::from_flags(false, false, false), FileType::Other);
    assert_eq!(Metadata::from_host(false, false, false, 9), Metadata { type_: FileType::Other, size: 9 });
    assert_eq!(FileType::Directory.name(), "Directory");
    assert_eq!(FileType::File.name(), "File");
    assert_eq!(FileType::Symlink.name(), "Symlink");
    assert_eq!(FileType::Other.name(), "Other");
}

#[test]
fn output_is_captured_up_to_the_limit() {
    assert_eq!(capture_output(vec![], 0), JobOutput::Empty);
    assert_eq!(capture_output(vec![], 5), JobOutput::Empty);
    assert_eq!(capture_output(vec![1, 2, 3], 3), JobOutput::Inline(vec![1, 2, 3]));
    assert_eq!(
        capture_output(vec![1, 2, 3, 4], 3),
        JobOutput::Truncated { first: vec![1, 2, 3], truncated: 1 }
    );
    assert_eq!(
        capture_output(vec![1, 2], 0),
        JobOutput::Truncated { first: vec![], truncated: 2 }
    );
}

#[test]
fn outcome_status_and_terminal_states() {
    let effects = JobEffects { stdout: JobOutput::Empty, stderr: JobOutput::Empty, duration_ms: 0 };
    assert_eq!(
        JobOutcome::Completed { status: ExitStatus::Exited(3), effects: effects.clone() }.status(),
        JobStatus::Completed
    );
    assert_eq!(JobOutcome::TimedOut { effects }.status(), JobStatus::Completed);
    assert_eq!(JobOutcome::Canceled.status(), JobStatus::Canceled);
    assert_eq!(JobOutcome::Failed(JobFailure::ArtifactFetch).status(), JobStatus::Failed);
    for s in [JobStatus::Completed, JobStatus::Canceled, JobStatus::Failed] {
        assert!(s.is_terminal());
    }
    for s in [
        JobStatus::WaitingForArtifacts,
        JobStatus::WaitingForLayers,
        JobStatus::Ready,
        JobStatus::Executing,
    ] {
        assert!(!s.is_terminal());
    }
}

#[test]
fn digests_are_collected_once_in_order() {
    let d = |n| (Digest::from_u64(n), ArtifactType::Tar);
    assert_eq!(collect_digests(&vec![]), vec![]);
    assert_eq!(
        collect_digests(&vec![d(3), d(1), d(3), (Digest::from_u64(1), ArtifactType::Manifest), d(2)]),
        vec![Digest::from_u64(3), Digest::from_u64(1), Digest::from_u64(2)]
    );
}

#[test]
fn pool_gives_places_first_come_first_served() {
    let mut pool = Pool::new(2);
    assert!(pool.submit(jid(1)));
    assert!(pool.submit(jid(2)));
    assert!(!pool.submit(jid(3)));
    assert!(!pool.submit(jid(4)));
    assert!(!pool.submit(jid(5)));
    assert_eq!((pool.in_use(), pool.available(), pool.waiting(), pool.limit()), (2, 0, 3, 2));
    assert!(pool.is_running(jid(1)) && pool.is_queued(jid(3)) && !pool.is_queued(jid(1)));
    assert!(pool.withdraw(jid(4)));
    assert!(!pool.withdraw(jid(4)));
    assert!(!pool.withdraw(jid(1)));
    assert_eq!(pool.release(jid(9)), None);
    assert_eq!(pool.release(jid(3)), None);
    assert_eq!(pool.release(jid(2)), Some(jid(3)));
    assert_eq!(pool.release(jid(1)), Some(jid(5)));
    assert_eq!(pool.release(jid(3)), None);
    assert_eq!((pool.in_use(), pool.available(), pool.waiting()), (1, 1, 0));
    pool.clear();
    assert_eq!((pool.in_use(), pool.available(), pool.waiting()), (0, 2, 0));
    let mut none = Pool::new(0);
    assert!(!none.submit(jid(1)));
    assert_eq!(none.available(), 0);
}

#[test]
fn worker_directories() {
    let root: RootBuf<WorkerCacheDir> = RootBuf::new("/var/cache/worker".to_string());
    let dirs = WorkerDirs::new(&root);
    assert_eq!(dirs.artifacts.as_str(), "/var/cache/worker/artifacts");
    assert_eq!(dirs.blobs.as_str(), "/var/cache/worker/artifacts/sha256/blob");
    assert_eq!(dirs.staging.as_str(), "/var/cache/worker/artifacts/tmp");
    assert_eq!(dirs.mount.as_str(), "/var/cache/worker/mount");
    assert_eq!(dirs.upper.as_str(), "/var/cache/worker/upper");
    assert_eq!(WorkerDirs::job_dir(&dirs.mount, 17).into_string(), "/var/cache/worker/mount/17");
}

#[test]
fn layer_table_positions_and_ids() {
    assert_eq!(FileTableHeader::new().version, LayerFsVersion::V0);
    assert_eq!(AttributesTableHeader::new().version, LayerFsVersion::V0);
    assert_eq!(entry_position(8, 1), Some(8));
    assert_eq!(entry_position(8, 5), Some(12));
    assert_eq!(entry_position(8, 0), None);
    assert_eq!(entry_position(u64::MAX, 1), Some(u64::MAX));
    assert_eq!(entry_position(u64::MAX, 2), None);
    assert_eq!(next_attributes_id(8, 8), Some(1));
    assert_eq!(next_attributes_id(8, 20), Some(13));
    assert_eq!(next_attributes_id(8, 7), None);
    assert_eq!(next_attributes_id(0, u64::MAX), None);
    assert_eq!(next_file_id(3, 8, 8), Some(FileId { layer: 3, offset: 1 }));
    assert_eq!(next_file_id(3, 8, 8 + 0xffff_fffe), Some(FileId { layer: 3, offset: u32::MAX }));
    assert_eq!(next_file_id(3, 8, 8 + 0xffff_ffff), None);
    assert_eq!(next_file_id(3, 8, 0), None);
    let id = next_file_id(3, 8, 100).unwrap();
    assert_eq!(file_position(3, 8, id), Some(100));
    assert_eq!(file_position(4, 8, id), None);
    assert_eq!(file_position(3, 8, FileId { layer: 3, offset: 0 }), None);
}

#[test]
fn client_values() {
    assert!(AcceptInvalidRemoteContainerTlsCerts::from_bool(true).into_inner());
    assert!(!AcceptInvalidRemoteContainerTlsCerts(false).into_inner());
    assert_eq!(AcceptInvalidRemoteContainerTlsCerts(true).describe(), "true");
    assert_eq!(AcceptInvalidRemoteContainerTlsCerts(false).describe(), "false");
    let message = RpcLogMessage {
        message: "hello".to_string(),
        level: LogLevel::Info,
        tag: String::new(),
        key_values: vec![],
    };
    assert_eq!(message.relayed_message(), "[client-process] hello");
    assert_eq!(MANIFEST_DIR, "manifests");
    assert_eq!(STUB_MANIFEST_DIR, "manifests/stubs");
    assert_eq!(SYMLINK_MANIFEST_DIR, "manifests/symlinks");
    assert_eq!(SO_LISTINGS_DIR, "so_listings");
}

fn effects(stdout: JobOutput, stderr: JobOutput) -> JobEffects {
    JobEffects { stdout, stderr, duration_ms: 1 }
}

#[test]
fn one_or_tty_any() {
    assert!(!OneOrTty { one: false, tty: false }.any());
    assert!(OneOrTty { one: true, tty: false }.any());
    assert!(OneOrTty { one: false, tty: true }.any());
    assert!(OneOrTty { one: true, tty: true }.any());
}

#[test]
fn effects_are_written_stdout_first() {
    assert_eq!(print_effects(None, effects(JobOutput::Empty, JobOutput::Empty)), vec![]);
    assert_eq!(
        print_effects(
            Some(3),
            effects(
                JobOutput::Truncated { first: vec![1], truncated: 12 },
                JobOutput::Inline(vec![2])
            )
        ),
        vec![
            Output::Stdout(vec![1]),
            Output::FlushStdout,
            Output::Diagnostic("job 3: stdout truncated, 12 bytes lost".to_string()),
            Output::Stderr(vec![2]),
        ]
    );
    assert_eq!(
        print_effects(
            None,
            effects(
                JobOutput::Inline(vec![9]),
                JobOutput::Truncated { first: vec![], truncated: 1 }
            )
        ),
        vec![
            Output::Stdout(vec![9]),
            Output::Stderr(vec![]),
            Output::Diagnostic("stderr truncated, 1 bytes lost".to_string()),
        ]
    );
}

#[test]
fn visitor_reports_each_ending() {
    let quiet = || effects(JobOutput::Empty, JobOutput::Empty);
    assert_eq!(
        visitor(1, JobOutcome::Completed { status: ExitStatus::Exited(0), effects: quiet() }),
        (SUCCESS, vec![])
    );
    assert_eq!(
        visitor(2, JobOutcome::Completed { status: ExitStatus::Exited(42), effects: quiet() }),
        (
            42,
            vec![
                Output::FlushStdout,
                Output::Diagnostic("job 2: exited with code 42".to_string())
            ]
        )
    );
    assert_eq!(
        visitor(2, JobOutcome::Completed { status: ExitStatus::Signaled(9), effects: quiet() }),
        (
            FAILURE,
            vec![
                Output::FlushStdout,
                Output::Diagnostic("job 2: killed by signal 9".to_string())
            ]
        )
    );
    assert_eq!(
        visitor(5, JobOutcome::TimedOut { effects: effects(JobOutput::Inline(vec![7]), JobOutput::Empty) }),
        (
            FAILURE,
            vec![
                Output::Stdout(vec![7]),
                Output::FlushStdout,
                Output::Diagnostic("job 5: timed out".to_string())
            ]
        )
    );
    assert_eq!(
        visitor(5, JobOutcome::Failed(JobFailure::Execution("no such file".to_string()))),
        (FAILURE, vec![Output::Diagnostic("job 5: execution error: no such file".to_string())])
    );
    assert_eq!(
        visitor(5, JobOutcome::Failed(JobFailure::System("oops".to_string()))),
        (FAILURE, vec![Output::Diagnostic("job 5: system error: oops".to_string())])
    );
    assert_eq!(
        visitor(5, JobOutcome::Failed(JobFailure::ArtifactFetch)),
        (
            FAILURE,
            vec![Output::Diagnostic("job 5: system error: artifact fetch failed".to_string())]
        )
    );
    assert_eq!(
        visitor(5, JobOutcome::Canceled),
        (FAILURE, vec![Output::Diagnostic("job 5: canceled".to_string())])
    );
    assert_eq!(
        remote_error("gone"),
        (FAILURE, vec![Output::Diagnostic("remote error: gone".to_string())])
    );
}

#[test]
fn front_end_ends_as_its_job_did() {
    let quiet = || effects(JobOutput::Empty, JobOutput::Empty);
    assert_eq!(
        mimic_child_death(JobOutcome::Completed { status: ExitStatus::Exited(3), effects: quiet() }),
        (Ending::Exit(3), vec![])
    );
    assert_eq!(
        mimic_child_death(JobOutcome::Completed {
            status: ExitStatus::Signaled(15),
            effects: effects(JobOutput::Empty, JobOutput::Inline(vec![1]))
        }),
        (Ending::Signal(15), vec![Output::Stderr(vec![1])])
    );
    assert_eq!(
        mimic_child_death(JobOutcome::TimedOut { effects: quiet() }),
        (
            Ending::Exit(FAILURE),
            vec![Output::FlushStdout, Output::Diagnostic("timed out".to_string())]
        )
    );
    assert_eq!(
        mimic_child_death(JobOutcome::Failed(JobFailure::System("x".to_string()))),
        (Ending::Exit(FAILURE), vec![Output::Diagnostic("system error: x".to_string())])
    );
    assert_eq!(
        mimic_child_death(JobOutcome::Failed(JobFailure::Execution("y".to_string()))),
        (Ending::Exit(FAILURE), vec![Output::Diagnostic("execution error: y".to_string())])
    );
}

#[test]
fn program_override() {
    let spec = JobSpec {
        program: "/bin/sh".to_string(),
        arguments: vec!["-c".to_string()],
        environment: vec!["A=1".to_string()],
        layers: vec![],
        timeout: 3,
        capture_limit: 10,
        network: JobNetwork::Local,
        enable_writable_file_system: true,
        working_directory: "/w".to_string(),
        user: 1,
        group: 2,
        allocate_tty: false,
    };
    let same = override_program(spec.clone(), vec![]);
    assert_eq!((same.program.as_str(), same.arguments.len()), ("/bin/sh", 1));
    let one = override_program(spec.clone(), vec!["ls".to_string()]);
    assert_eq!(one.program, "ls");
    assert_eq!(one.arguments, Vec::<String>::new());
    let more = override_program(spec, vec!["ls".to_string(), "-l".to_string(), "/".to_string()]);
    assert_eq!(more.program, "ls");
    assert_eq!(more.arguments, vec!["-l", "/"]);
    assert_eq!(more.environment, vec!["A=1"]);
    assert_eq!((more.timeout, more.user, more.group), (3, 1, 2));
}

#[test]
fn tracker_keeps_the_first_failure() {
    let mut t = JobTracker::new();
    assert!(t.is_done());
    assert!(t.add_outstanding());
    assert!(t.add_outstanding());
    assert!(t.add_outstanding());
    assert!(!t.is_done());
    t.job_completed(SUCCESS);
    assert_eq!(t.exit_code, SUCCESS);
    t.job_completed(7);
    t.job_completed(9);
    assert_eq!(t.exit_code, 7);
    assert!(t.is_done());
    let mut full = JobTracker { outstanding: usize::MAX, exit_code: 0 };
    assert!(!full.add_outstanding());
    assert_eq!(full.outstanding, usize::MAX);
}

#[test]
fn digest_bytes_round_trip() {
    let d = Digest { w0: 0x0102030405060708, w1: 0, w2: u64::MAX, w3: 0x00000000000000ff };
    let bytes = d.to_bytes();
    assert_eq!(bytes.len(), 32);
    assert_eq!(&bytes[..8], &[1, 2, 3, 4, 5, 6, 7, 8]);
    assert_eq!(&bytes[8..16], &[0; 8]);
    assert_eq!(&bytes[16..24], &[255; 8]);
    assert_eq!(&bytes[24..], &[0, 0, 0, 0, 0, 0, 0, 255]);
    assert_eq!(Digest::from_bytes(&bytes), Some(d));
    assert_eq!(Digest::from_bytes(&bytes[..31]), None);
    assert_eq!(Digest::from_bytes(&[0; 33]), None);
    assert_eq!(Digest::from_bytes(&[0; 32]), Some(Digest::from_u64(0)));
    let hex: String = bytes.iter().map(|b| format!("{b:02x}")).collect();
    assert_eq!(d.to_hex(), hex);
}

#[test]
fn terminal_session() {
    let (mut session, first) = TtySession::start();
    assert_eq!(first, vec![TtyAction::Print("waiting for job to start".to_string())]);
    assert!(!session.in_raw_mode);
    assert_eq!(
        session.receive(TtyEvent::JobOutput(vec![1, 2])),
        (vec![TtyAction::Write(vec![1, 2])], TtyVerdict::Continue)
    );
    assert_eq!(
        session.receive(TtyEvent::JobConnected),
        (
            vec![
                TtyAction::Print("job started, going into raw mode".to_string()),
                TtyAction::EnableRawMode,
                TtyAction::StartRelay,
            ],
            TtyVerdict::Continue
        )
    );
    assert!(session.in_raw_mode);
    assert_eq!(
        session.receive(TtyEvent::JobCompleted(JobOutcome::Canceled)),
        (vec![TtyAction::DisableRawMode], TtyVerdict::Done(JobOutcome::Canceled))
    );
    assert!(!session.in_raw_mode);
    let (mut early, _) = TtySession::start();
    assert_eq!(
        early.receive(TtyEvent::Error("client error".to_string())),
        (vec![], TtyVerdict::Failed("client error".to_string()))
    );
    let mut raw = TtySession { in_raw_mode: true };
    assert_eq!(
        raw.receive(TtyEvent::Error("x".to_string())),
        (vec![TtyAction::DisableRawMode], TtyVerdict::Failed("x".to_string()))
    );
    assert_eq!(OneOrTty { one: true, tty: true }.mode(), RunMode::Tty);
    assert_eq!(OneOrTty { one: true, tty: false }.mode(), RunMode::One);
    assert_eq!(OneOrTty { one: false, tty: false }.mode(), RunMode::All);
    assert_eq!(tty_obstacle(RunMode::Tty, true, true), None);
    assert_eq!(tty_obstacle(RunMode::One, false, false), None);
    assert_eq!(
        tty_obstacle(RunMode::Tty, false, false),
        Some("error: standard input is not a terminal")
    );
    assert_eq!(
        tty_obstacle(RunMode::Tty, true, false),
        Some("error: standard output is not a terminal")
    );
}

#[test]
fn directory_size_is_the_sum() {
    assert_eq!(dir_size(&vec![]), Some(0));
    assert_eq!(
        dir_size(&vec![
            ("a".to_string(), Metadata::file(5)),
            ("b".to_string(), Metadata::directory(7)),
            ("c".to_string(), Metadata::symlink(30)),
        ]),
        Some(42)
    );
    assert_eq!(
        dir_size(&vec![
            ("a".to_string(), Metadata::file(u64::MAX)),
            ("b".to_string(), Metadata::file(0)),
        ]),
        Some(u64::MAX)
    );
    assert_eq!(
        dir_size(&vec![
            ("a".to_string(), Metadata::file(u64::MAX)),
            ("b".to_string(), Metadata::file(1)),
        ]),
        None
    );
}

#[test]
fn collection_reports_up_to_the_first_failure() {
    let ok = |n: u32| -> Result<u32, String> { Ok(n) };
    assert_eq!(
        collection_messages(vec![ok(1), ok(2)], Ok(())),
        vec![
            CollectionMessage::ArtifactBuilt { artifact: 1 },
            CollectionMessage::ArtifactBuilt { artifact: 2 },
            CollectionMessage::CollectionFinished,
        ]
    );
    assert_eq!(
        collection_messages(vec![ok(1), Err("bad".to_string()), ok(3)], Ok(())),
        vec![
            CollectionMessage::ArtifactBuilt { artifact: 1 },
            CollectionMessage::FatalError { error: "bad".to_string() },
            CollectionMessage::CollectionFinished,
        ]
    );
    assert_eq!(
        collection_messages(vec![Err::<u32, String>("a".to_string())], Err("b".to_string())),
        vec![
            CollectionMessage::FatalError { error: "a".to_string() },
            CollectionMessage::FatalError { error: "b".to_string() },
        ]
    );
    assert_eq!(
        collection_messages(Vec::<Result<u32, String>>::new(), Err("b".to_string())),
        vec![CollectionMessage::FatalError { error: "b".to_string() }]
    );
}

#[test]
fn failed_build_decides_the_exit_code() {
    assert_eq!(maybe_print_build_error(Ok(0)), (None, Ok(0)));
    assert_eq!(maybe_print_build_error(Ok(3)), (None, Ok(3)));
    assert_eq!(
        maybe_print_build_error(Err(RunError::Build { stderr: "oops".to_string(), exit_code: 2 })),
        (Some("oops".to_string()), Ok(2))
    );
    assert_eq!(
        maybe_print_build_error(Err(RunError::Other("x".to_string()))),
        (None, Err("x".to_string()))
    );
}

#[test]
fn job_state_counts() {
    let mut counts =
        JobStateCounts { waiting_for_artifacts: 1, pending: 2, running: 3, complete: 4 };
    assert_eq!(counts.get(JobState::WaitingForArtifacts), 1);
    assert_eq!(counts.get(JobState::Pending), 2);
    assert_eq!(counts.get(JobState::Running), 3);
    assert_eq!(counts.get(JobState::Complete), 4);
    counts.set(JobState::Running, 9);
    assert_eq!(
        counts,
        JobStateCounts { waiting_for_artifacts: 1, pending: 2, running: 9, complete: 4 }
    );
    assert!(ClientJobStatus::Completed { client_job_id: 1, result: JobOutcome::Canceled }
        .is_completed());
    assert!(!ClientJobStatus::Running(JobRunningStatus::AtLocalWorker(JobWorkerStatus::Executing))
        .is_completed());
}
