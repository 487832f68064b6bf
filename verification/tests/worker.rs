use maelstrom_worker::cache::{Cache, GetArtifact, GotArtifact};
use maelstrom_worker::cache_model::Lookup;
use maelstrom_worker::dispatcher::{
    Action, BrokerMessage, Dispatcher, FatalError, JobUpdate, Message,
};
use maelstrom_worker::fs::{Fs, Metadata, TempDir, TempFile};
use maelstrom_worker::ids::{ArtifactType, Digest, JobId};
use maelstrom_worker::job::{
    ExitStatus, JobEffects, JobFailure, JobNetwork, JobOutcome, JobOutput, JobSpec, JobStatus,
};
use std::cell::RefCell;
use std::collections::HashMap;
use std::rc::Rc;

#[derive(Default)]
struct World {
    sizes: HashMap<String, u64>,
    blobs: Vec<String>,
    removed: Vec<String>,
    fail_persist: bool,
    fail_metadata: bool,
}

#[derive(Clone, Default)]
struct TestFs(Rc<RefCell<World>>);

#[derive(Debug)]
struct TestTempFile(String);

impl TempFile for TestTempFile {
    fn path(&self) -> String {
        self.0.clone()
    }
}

#[derive(Debug)]
struct TestTempDir(String);

impl TempDir for TestTempDir {
    fn path(&self) -> String {
        self.0.clone()
    }
}

impl TestFs {
    fn temp(&self, name: &str, size: u64) -> TestTempFile {
        let path = format!("/cache/tmp/{name}");
        self.0.borrow_mut().sizes.insert(path.clone(), size);
        TestTempFile(path)
    }

    fn blobs(&self) -> Vec<String> {
        self.0.borrow().blobs.clone()
    }

    fn removed(&self) -> Vec<String> {
        self.0.borrow().removed.clone()
    }
}

impl Fs for TestFs {
    type Error = String;
    type TempFile = TestTempFile;
    type TempDir = TestTempDir;

    fn rand_u64(&self) -> u64 {
        4
    }

    fn metadata(&self, path: &str) -> Result<Option<Metadata>, String> {
        if self.0.borrow().fail_metadata {
            return Err("metadata".to_string());
        }
        Ok(self.0.borrow().sizes.get(path).map(|size| Metadata::file(*size)))
    }

    fn read_dir(&self, _path: &str) -> Result<Vec<(String, Metadata)>, String> {
        Ok(vec![])
    }

    fn create_file(&self, _path: &str, _contents: &[u8]) -> Result<(), String> {
        Ok(())
    }

    fn symlink(&self, _target: &str, _link: &str) -> Result<(), String> {
        Ok(())
    }

    fn mkdir(&self, _path: &str) -> Result<(), String> {
        Ok(())
    }

    fn mkdir_recursively(&self, _path: &str) -> Result<(), String> {
        Ok(())
    }

    fn remove(&self, path: &str) -> Result<(), String> {
        let mut world = self.0.borrow_mut();
        world.blobs.retain(|p| p != path);
        world.removed.push(path.to_string());
        Ok(())
    }

    fn rmdir_recursively_on_thread(&self, _path: String) -> Result<(), String> {
        Ok(())
    }

    fn rename(&self, _source: &str, _destination: &str) -> Result<(), String> {
        Ok(())
    }

    fn temp_file(&self, parent: &str) -> Result<TestTempFile, String> {
        Ok(TestTempFile(format!("{parent}/temp")))
    }

    fn persist_temp_file(&self, temp_file: TestTempFile, target: &str) -> Result<(), String> {
        let mut world = self.0.borrow_mut();
        if world.fail_persist {
            return Err("persist".to_string());
        }
        let size = world.sizes.remove(&temp_file.0).unwrap_or(0);
        world.sizes.insert(target.to_string(), size);
        world.blobs.push(target.to_string());
        Ok(())
    }

    fn temp_dir(&self, parent: &str) -> Result<TestTempDir, String> {
        Ok(TestTempDir(format!("{parent}/tempdir")))
    }

    fn persist_temp_dir(&self, _temp_dir: TestTempDir, _target: &str) -> Result<(), String> {
        Ok(())
    }
}

fn digest(n: u64) -> Digest {
    Digest::from_u64(n)
}

fn jid(n: u32) -> JobId {
    JobId { cid: 1, cjid: n }
}

fn spec(digests: &[u64]) -> JobSpec {
    JobSpec {
        program: "/bin/true".to_string(),
        arguments: vec![],
        environment: vec![],
        layers: digests.iter().map(|n| (digest(*n), ArtifactType::Tar)).collect(),
        timeout: 0,
        capture_limit: 1024,
        network: JobNetwork::Disabled,
        enable_writable_file_system: false,
        working_directory: "/".to_string(),
        user: 0,
        group: 0,
        allocate_tty: false,
    }
}

fn cache(fs: &TestFs, size: u64) -> Cache<TestFs> {
    Cache::new(fs.clone(), "/cache".to_string(), size)
}

fn dispatcher(fs: &TestFs, size: u64, slots: u16) -> Dispatcher<TestFs> {
    Dispatcher::new(cache(fs, size), slots, 10)
}

fn enqueue(d: &mut Dispatcher<TestFs>, id: JobId, digests: &[u64]) -> Vec<Action> {
    let r = d.receive_message(Message::Broker(BrokerMessage::EnqueueJob(id, spec(digests))));
    assert_eq!(r.fatal, None);
    r.actions
}

fn transfer(d: &mut Dispatcher<TestFs>, fs: &TestFs, n: u64, size: u64) -> Vec<Action> {
    let temp = fs.temp(&format!("{n}"), size);
    let r = d.receive_message(Message::Broker(BrokerMessage::ArtifactTransferred(digest(n), temp)));
    assert_eq!(r.fatal, None);
    r.actions
}

fn update(d: &mut Dispatcher<TestFs>, id: JobId, update: JobUpdate) -> Vec<Action> {
    let r = d.receive_message(Message::JobUpdate(id, update));
    assert_eq!(r.fatal, None);
    r.actions
}

fn cancel(d: &mut Dispatcher<TestFs>, id: JobId) -> Vec<Action> {
    let r = d.receive_message(Message::Broker(BrokerMessage::CancelJob(id)));
    assert_eq!(r.fatal, None);
    r.actions
}

fn exited(code: u8) -> JobOutcome {
    JobOutcome::Completed {
        status: ExitStatus::Exited(code),
        effects: JobEffects { stdout: JobOutput::Empty, stderr: JobOutput::Empty, duration_ms: 5 },
    }
}

fn blob(n: u64) -> String {
    format!("/cache/sha256/blob/{:064x}", n)
}

fn count_completed(actions: &[Action], id: JobId) -> usize {
    actions.iter().filter(|a| matches!(a, Action::JobCompleted(j, _) if *j == id)).count()
}

#[test]
fn cache_starts_empty() {
    let fs = TestFs::default();
    let c = cache(&fs, 1000);
    assert_eq!(c.bytes_used(), 0);
    assert_eq!(c.cache_size(), 1000);
    assert_eq!(c.root(), "/cache");
    assert_eq!(c.lookup(&digest(1)), Lookup::NeedFetch);
    assert_eq!(c.ref_count(&digest(1)), 0);
}

#[test]
fn cache_path_is_root_then_hex() {
    let fs = TestFs::default();
    let c = cache(&fs, 1000);
    assert_eq!(c.cache_path(&digest(0x2a)), blob(0x2a));
    let d = Digest { w0: 0x0123456789abcdef, w1: 1, w2: u64::MAX, w3: 0 };
    assert_eq!(
        c.cache_path(&d),
        "/cache/sha256/blob/0123456789abcdef0000000000000001ffffffffffffffff0000000000000000"
    );
}

#[test]
fn cache_first_request_needs_fetch_second_waits() {
    let fs = TestFs::default();
    let mut c = cache(&fs, 1000);
    assert_eq!(c.get_artifact(digest(1), jid(1)), GetArtifact::NeedFetch);
    assert_eq!(c.lookup(&digest(1)), Lookup::Fetching);
    assert_eq!(c.get_artifact(digest(1), jid(2)), GetArtifact::Fetching);
    assert_eq!(c.get_artifact(digest(1), jid(3)), GetArtifact::Fetching);
    assert_eq!(c.bytes_used(), 0);
}

#[test]
fn cache_got_artifact_returns_waiters_in_order_and_pins() {
    let fs = TestFs::default();
    let mut c = cache(&fs, 1000);
    c.get_artifact(digest(1), jid(1));
    c.get_artifact(digest(1), jid(2));
    match c.got_artifact(digest(1), fs.temp("a", 100)) {
        GotArtifact::Stored { size, waiters, evicted, over_target } => {
            assert_eq!(size, 100);
            assert_eq!(waiters, vec![jid(1), jid(2)]);
            assert_eq!(evicted, vec![]);
            assert!(!over_target);
        }
        other => panic!("unexpected {other:?}"),
    }
    assert_eq!(c.ref_count(&digest(1)), 2);
    assert_eq!(c.bytes_used(), 100);
    assert_eq!(c.lookup(&digest(1)), Lookup::HaveIt);
    assert_eq!(fs.blobs(), vec![blob(1)]);
    assert_eq!(c.get_artifact(digest(1), jid(3)), GetArtifact::HaveIt { path: blob(1) });
    assert_eq!(c.ref_count(&digest(1)), 3);
}

#[test]
fn cache_second_copy_is_discarded() {
    let fs = TestFs::default();
    let mut c = cache(&fs, 1000);
    c.get_artifact(digest(1), jid(1));
    assert!(matches!(c.got_artifact(digest(1), fs.temp("a", 100)), GotArtifact::Stored { .. }));
    assert!(matches!(c.got_artifact(digest(1), fs.temp("b", 70)), GotArtifact::Discarded));
    assert_eq!(c.bytes_used(), 100);
    assert_eq!(c.ref_count(&digest(1)), 1);
    assert_eq!(fs.blobs(), vec![blob(1)]);
}

#[test]
fn cache_evicts_least_recently_used_first() {
    let fs = TestFs::default();
    let mut c = cache(&fs, 300);
    for n in 1..=3 {
        c.get_artifact(digest(n), jid(1));
        assert!(matches!(
            c.got_artifact(digest(n), fs.temp("t", 100)),
            GotArtifact::Stored { .. }
        ));
    }
    c.decrement_ref(digest(2));
    c.decrement_ref(digest(1));
    c.decrement_ref(digest(3));
    assert_eq!(c.bytes_used(), 300);
    c.get_artifact(digest(4), jid(2));
    match c.got_artifact(digest(4), fs.temp("d", 150)) {
        GotArtifact::Stored { evicted, over_target, .. } => {
            assert_eq!(evicted, vec![digest(2), digest(1)]);
            assert!(!over_target);
        }
        other => panic!("unexpected {other:?}"),
    }
    assert_eq!(c.bytes_used(), 250);
    assert_eq!(fs.removed(), vec![blob(2), blob(1)]);
    assert_eq!(c.lookup(&digest(2)), Lookup::NeedFetch);
    assert_eq!(c.lookup(&digest(1)), Lookup::NeedFetch);
    assert_eq!(c.lookup(&digest(3)), Lookup::HaveIt);
}

#[test]
fn cache_use_takes_entry_out_of_eviction_order() {
    let fs = TestFs::default();
    let mut c = cache(&fs, 200);
    for n in 1..=2 {
        c.get_artifact(digest(n), jid(1));
        c.got_artifact(digest(n), fs.temp("t", 100));
        c.decrement_ref(digest(n));
    }
    assert_eq!(c.get_artifact(digest(1), jid(5)), GetArtifact::HaveIt { path: blob(1) });
    assert_eq!(c.evict_for(100), vec![digest(2)]);
    assert_eq!(c.evict_for(1000), vec![]);
    assert_eq!(c.bytes_used(), 100);
    assert_eq!(c.lookup(&digest(1)), Lookup::HaveIt);
}

#[test]
fn cache_never_evicts_what_is_in_use_and_reports_overshoot() {
    let fs = TestFs::default();
    let mut c = cache(&fs, 100);
    c.get_artifact(digest(1), jid(1));
    c.got_artifact(digest(1), fs.temp("a", 80));
    c.get_artifact(digest(2), jid(1));
    match c.got_artifact(digest(2), fs.temp("b", 80)) {
        GotArtifact::Stored { evicted, over_target, .. } => {
            assert_eq!(evicted, vec![]);
            assert!(over_target);
        }
        other => panic!("unexpected {other:?}"),
    }
    assert_eq!(c.bytes_used(), 160);
    assert_eq!(c.ref_count(&digest(1)), 1);
}

#[test]
fn cache_takes_in_artifact_larger_than_itself() {
    let fs = TestFs::default();
    let mut c = cache(&fs, 100);
    c.get_artifact(digest(1), jid(1));
    c.got_artifact(digest(1), fs.temp("a", 60));
    c.decrement_ref(digest(1));
    c.get_artifact(digest(2), jid(2));
    match c.got_artifact(digest(2), fs.temp("b", 500)) {
        GotArtifact::Stored { evicted, over_target, size, .. } => {
            assert_eq!(size, 500);
            assert_eq!(evicted, vec![digest(1)]);
            assert!(over_target);
        }
        other => panic!("unexpected {other:?}"),
    }
    assert_eq!(c.bytes_used(), 500);
}

#[test]
fn cache_artifact_without_waiters_is_unreferenced() {
    let fs = TestFs::default();
    let mut c = cache(&fs, 100);
    match c.got_artifact(digest(1), fs.temp("a", 60)) {
        GotArtifact::Stored { waiters, .. } => assert_eq!(waiters, vec![]),
        other => panic!("unexpected {other:?}"),
    }
    assert_eq!(c.ref_count(&digest(1)), 0);
    assert_eq!(c.lookup(&digest(1)), Lookup::HaveIt);
    assert_eq!(c.evict_for(100), vec![digest(1)]);
}

#[test]
fn cache_failure_removes_entry_and_returns_waiters() {
    let fs = TestFs::default();
    let mut c = cache(&fs, 100);
    c.get_artifact(digest(1), jid(1));
    c.get_artifact(digest(1), jid(2));
    assert_eq!(c.got_artifact_failure(digest(1)), vec![jid(1), jid(2)]);
    assert_eq!(c.lookup(&digest(1)), Lookup::NeedFetch);
    assert_eq!(c.got_artifact_failure(digest(1)), vec![]);
    assert_eq!(c.get_artifact(digest(1), jid(3)), GetArtifact::NeedFetch);
}

#[test]
fn cache_persist_error_fails_the_fetch() {
    let fs = TestFs::default();
    let mut c = cache(&fs, 100);
    c.get_artifact(digest(1), jid(1));
    fs.0.borrow_mut().fail_persist = true;
    match c.got_artifact(digest(1), fs.temp("a", 60)) {
        GotArtifact::Failed { error, waiters, room_made_for, evicted } => {
            assert_eq!(error, Some("persist".to_string()));
            assert_eq!(waiters, vec![jid(1)]);
            assert_eq!(room_made_for, Some(60));
            assert_eq!(evicted, vec![]);
        }
        other => panic!("unexpected {other:?}"),
    }
    assert_eq!(c.lookup(&digest(1)), Lookup::NeedFetch);
    assert_eq!(c.bytes_used(), 0);
}

#[test]
fn cache_missing_temp_file_fails_the_fetch() {
    let fs = TestFs::default();
    let mut c = cache(&fs, 100);
    c.get_artifact(digest(1), jid(1));
    match c.got_artifact(digest(1), TestTempFile("/nowhere".to_string())) {
        GotArtifact::Failed { error, waiters, room_made_for, .. } => {
            assert_eq!(error, None);
            assert_eq!(waiters, vec![jid(1)]);
            assert_eq!(room_made_for, None);
        }
        other => panic!("unexpected {other:?}"),
    }
    fs.0.borrow_mut().fail_metadata = true;
    c.get_artifact(digest(2), jid(1));
    match c.got_artifact(digest(2), fs.temp("b", 1)) {
        GotArtifact::Failed { error, .. } => assert_eq!(error, Some("metadata".to_string())),
        other => panic!("unexpected {other:?}"),
    }
}

#[test]
fn cache_decrement_moves_to_most_recently_used() {
    let fs = TestFs::default();
    let mut c = cache(&fs, 1000);
    for n in 1..=2 {
        c.get_artifact(digest(n), jid(1));
        c.got_artifact(digest(n), fs.temp("t", 10));
    }
    c.get_artifact(digest(1), jid(2));
    c.decrement_ref(digest(1));
    assert_eq!(c.ref_count(&digest(1)), 1);
    c.decrement_ref(digest(2));
    c.decrement_ref(digest(1));
    c.decrement_ref(digest(1));
    c.decrement_ref(digest(9));
    assert_eq!(c.ref_count(&digest(1)), 0);
    assert_eq!(c.evict_for(990), vec![digest(2)]);
    assert_eq!(c.evict_for(1000), vec![digest(1)]);
    assert_eq!(c.bytes_used(), 0);
}

#[test]
fn cache_size_bound_holds_when_all_fits() {
    let fs = TestFs::default();
    let mut c = cache(&fs, 1000);
    let sizes = [100u64, 250, 50, 300, 299];
    for (n, size) in sizes.iter().enumerate() {
        let d = digest(n as u64);
        c.get_artifact(d, jid(1));
        c.got_artifact(d, fs.temp("t", *size));
        assert!(c.bytes_used() <= 1000);
        if n % 2 == 0 {
            c.decrement_ref(d);
        }
    }
    assert_eq!(c.bytes_used(), 999);
}

#[test]
fn single_job_cold_cache() {
    let fs = TestFs::default();
    let mut d = dispatcher(&fs, 1024, 2);
    let actions = enqueue(&mut d, jid(1), &[0xa, 0xb]);
    assert_eq!(
        actions,
        vec![
            Action::JobStateTransition(jid(1), JobStatus::WaitingForArtifacts),
            Action::GetArtifact(digest(0xa)),
            Action::GetArtifact(digest(0xb)),
        ]
    );
    assert_eq!(d.status_of(jid(1)), Some(JobStatus::WaitingForArtifacts));
    assert_eq!(transfer(&mut d, &fs, 0xa, 100), vec![]);
    assert_eq!(d.pending_count(jid(1)), 1);
    assert_eq!(
        transfer(&mut d, &fs, 0xb, 200),
        vec![
            Action::JobStateTransition(jid(1), JobStatus::WaitingForLayers),
            Action::BuildLayers(jid(1)),
        ]
    );
    assert_eq!(d.cache().bytes_used(), 300);
    assert_eq!(
        update(&mut d, jid(1), JobUpdate::LayersBuilt),
        vec![
            Action::JobStateTransition(jid(1), JobStatus::Ready),
            Action::JobStateTransition(jid(1), JobStatus::Executing),
            Action::StartJob(jid(1)),
        ]
    );
    assert_eq!(d.status_of(jid(1)), Some(JobStatus::Executing));
    assert_eq!(d.slots_in_use(), 1);
    assert_eq!(
        update(&mut d, jid(1), JobUpdate::Finished(exited(0))),
        vec![
            Action::JobStateTransition(jid(1), JobStatus::Completed),
            Action::JobCompleted(jid(1), exited(0)),
            Action::RemoveSandbox(jid(1)),
        ]
    );
    assert_eq!(d.status_of(jid(1)), None);
    assert_eq!(d.slots_in_use(), 0);
    assert_eq!(d.cache().ref_count(&digest(0xa)), 0);
    assert_eq!(d.cache().ref_count(&digest(0xb)), 0);
    assert_eq!(d.cache().lookup(&digest(0xa)), Lookup::HaveIt);
}

#[test]
fn single_flight() {
    let fs = TestFs::default();
    let mut d = dispatcher(&fs, 1024, 2);
    let first = enqueue(&mut d, jid(1), &[0xa]);
    let second = enqueue(&mut d, jid(2), &[0xa]);
    assert_eq!(
        first,
        vec![
            Action::JobStateTransition(jid(1), JobStatus::WaitingForArtifacts),
            Action::GetArtifact(digest(0xa)),
        ]
    );
    assert_eq!(second, vec![Action::JobStateTransition(jid(2), JobStatus::WaitingForArtifacts)]);
    assert_eq!(
        transfer(&mut d, &fs, 0xa, 100),
        vec![
            Action::JobStateTransition(jid(1), JobStatus::WaitingForLayers),
            Action::BuildLayers(jid(1)),
            Action::JobStateTransition(jid(2), JobStatus::WaitingForLayers),
            Action::BuildLayers(jid(2)),
        ]
    );
    assert_eq!(d.cache().ref_count(&digest(0xa)), 2);
    assert_eq!(d.status_of(jid(1)), Some(JobStatus::WaitingForLayers));
    assert_eq!(d.status_of(jid(2)), Some(JobStatus::WaitingForLayers));
}

#[test]
fn eviction_then_refetch() {
    let fs = TestFs::default();
    let mut d = dispatcher(&fs, 300, 1);
    enqueue(&mut d, jid(1), &[0xa]);
    transfer(&mut d, &fs, 0xa, 200);
    assert_eq!(cancel(&mut d, jid(1)).len(), 2);
    assert_eq!(d.cache().ref_count(&digest(0xa)), 0);
    enqueue(&mut d, jid(2), &[0xb]);
    transfer(&mut d, &fs, 0xb, 150);
    assert_eq!(fs.removed(), vec![blob(0xa)]);
    assert_eq!(d.cache().bytes_used(), 150);
    assert_eq!(d.cache().lookup(&digest(0xa)), Lookup::NeedFetch);
    assert_eq!(
        enqueue(&mut d, jid(3), &[0xa]),
        vec![
            Action::JobStateTransition(jid(3), JobStatus::WaitingForArtifacts),
            Action::GetArtifact(digest(0xa)),
        ]
    );
}

#[test]
fn cancellation_mid_fetch() {
    let fs = TestFs::default();
    let mut d = dispatcher(&fs, 1024, 1);
    enqueue(&mut d, jid(1), &[0xa]);
    let canceled = cancel(&mut d, jid(1));
    assert_eq!(
        canceled,
        vec![
            Action::JobStateTransition(jid(1), JobStatus::Canceled),
            Action::JobCompleted(jid(1), JobOutcome::Canceled),
        ]
    );
    assert_eq!(d.status_of(jid(1)), None);
    let arrived = transfer(&mut d, &fs, 0xa, 100);
    assert_eq!(arrived, vec![]);
    assert_eq!(d.cache().lookup(&digest(0xa)), Lookup::HaveIt);
    assert_eq!(d.cache().ref_count(&digest(0xa)), 0);
    assert_eq!(d.cache().bytes_used(), 100);
    assert_eq!(cancel(&mut d, jid(1)), vec![]);
    assert_eq!(count_completed(&canceled, jid(1)) + count_completed(&arrived, jid(1)), 1);
}

#[test]
fn slot_saturation() {
    let fs = TestFs::default();
    let mut d = dispatcher(&fs, 1024, 1);
    assert_eq!(
        enqueue(&mut d, jid(1), &[]),
        vec![
            Action::JobStateTransition(jid(1), JobStatus::WaitingForArtifacts),
            Action::JobStateTransition(jid(1), JobStatus::WaitingForLayers),
            Action::BuildLayers(jid(1)),
        ]
    );
    enqueue(&mut d, jid(2), &[]);
    update(&mut d, jid(1), JobUpdate::LayersBuilt);
    assert_eq!(
        update(&mut d, jid(2), JobUpdate::LayersBuilt),
        vec![Action::JobStateTransition(jid(2), JobStatus::Ready)]
    );
    assert_eq!(d.status_of(jid(1)), Some(JobStatus::Executing));
    assert_eq!(d.status_of(jid(2)), Some(JobStatus::Ready));
    assert_eq!(d.slots_in_use() + d.slots_available(), 1);
    assert_eq!(d.ready_count(), 1);
    assert_eq!(
        update(&mut d, jid(1), JobUpdate::Finished(exited(0))),
        vec![
            Action::JobStateTransition(jid(1), JobStatus::Completed),
            Action::JobCompleted(jid(1), exited(0)),
            Action::RemoveSandbox(jid(1)),
            Action::JobStateTransition(jid(2), JobStatus::Executing),
            Action::StartJob(jid(2)),
        ]
    );
    assert_eq!(d.status_of(jid(2)), Some(JobStatus::Executing));
    assert_eq!(d.slots_in_use(), 1);
    assert_eq!(d.slots_available(), 0);
    assert_eq!(d.ready_count(), 0);
}

#[test]
fn fetch_failure() {
    let fs = TestFs::default();
    let mut d = dispatcher(&fs, 1024, 1);
    enqueue(&mut d, jid(1), &[0xa]);
    let r = d.receive_message(Message::ArtifactFetchCompleted(
        digest(0xa),
        Err("connection reset".to_string()),
    ));
    assert_eq!(r.fatal, None);
    assert_eq!(
        r.actions,
        vec![
            Action::JobStateTransition(jid(1), JobStatus::Failed),
            Action::JobCompleted(jid(1), JobOutcome::Failed(JobFailure::ArtifactFetch)),
        ]
    );
    assert_eq!(d.status_of(jid(1)), None);
    assert_eq!(d.cache().lookup(&digest(0xa)), Lookup::NeedFetch);
    assert_eq!(
        enqueue(&mut d, jid(2), &[0xa]),
        vec![
            Action::JobStateTransition(jid(2), JobStatus::WaitingForArtifacts),
            Action::GetArtifact(digest(0xa)),
        ]
    );
}

#[test]
fn fetch_failure_releases_other_references() {
    let fs = TestFs::default();
    let mut d = dispatcher(&fs, 1024, 1);
    enqueue(&mut d, jid(1), &[0xa]);
    transfer(&mut d, &fs, 0xa, 10);
    enqueue(&mut d, jid(2), &[0xa, 0xb]);
    assert_eq!(d.cache().ref_count(&digest(0xa)), 2);
    d.receive_message(Message::ArtifactFetchCompleted(digest(0xb), Err("x".to_string())));
    assert_eq!(d.cache().ref_count(&digest(0xa)), 1);
    assert_eq!(d.status_of(jid(2)), None);
    assert_eq!(d.status_of(jid(1)), Some(JobStatus::WaitingForLayers));
}

#[test]
fn storing_failure_fails_the_waiting_jobs() {
    let fs = TestFs::default();
    let mut d = dispatcher(&fs, 1024, 1);
    enqueue(&mut d, jid(1), &[0xa]);
    fs.0.borrow_mut().fail_persist = true;
    let temp = fs.temp("a", 10);
    let r = d.receive_message(Message::ArtifactFetchCompleted(digest(0xa), Ok(temp)));
    assert_eq!(
        r.actions,
        vec![
            Action::JobStateTransition(jid(1), JobStatus::Failed),
            Action::JobCompleted(jid(1), JobOutcome::Failed(JobFailure::ArtifactFetch)),
        ]
    );
    assert_eq!(d.job_count(), 0);
}

#[test]
fn duplicate_layers_are_requested_once() {
    let fs = TestFs::default();
    let mut d = dispatcher(&fs, 1024, 1);
    assert_eq!(
        enqueue(&mut d, jid(1), &[7, 8, 7, 7, 8]),
        vec![
            Action::JobStateTransition(jid(1), JobStatus::WaitingForArtifacts),
            Action::GetArtifact(digest(7)),
            Action::GetArtifact(digest(8)),
        ]
    );
    assert_eq!(d.pending_count(jid(1)), 2);
    transfer(&mut d, &fs, 7, 1);
    transfer(&mut d, &fs, 8, 1);
    assert_eq!(d.cache().ref_count(&digest(7)), 1);
}

#[test]
fn duplicate_job_is_fatal_and_cancels_everything() {
    let fs = TestFs::default();
    let mut d = dispatcher(&fs, 1024, 1);
    enqueue(&mut d, jid(1), &[]);
    update(&mut d, jid(1), JobUpdate::LayersBuilt);
    enqueue(&mut d, jid(2), &[0xa]);
    let r = d.receive_message(Message::Broker(BrokerMessage::EnqueueJob(jid(1), spec(&[]))));
    assert_eq!(r.fatal, Some(FatalError::DuplicateJob(jid(1))));
    assert_eq!(
        r.actions,
        vec![
            Action::JobStateTransition(jid(2), JobStatus::Canceled),
            Action::JobCompleted(jid(2), JobOutcome::Canceled),
            Action::CancelExecution(jid(1)),
            Action::JobStateTransition(jid(1), JobStatus::Canceled),
            Action::JobCompleted(jid(1), JobOutcome::Canceled),
            Action::RemoveSandbox(jid(1)),
        ]
    );
    assert!(d.stopped());
    assert_eq!(d.job_count(), 0);
    assert_eq!(d.slots_in_use(), 0);
    let again = d.receive_message(Message::Broker(BrokerMessage::EnqueueJob(jid(3), spec(&[]))));
    assert_eq!(again.fatal, None);
    assert_eq!(again.actions, vec![]);
    assert_eq!(d.job_count(), 0);
}

#[test]
fn shut_down_returns_the_reason() {
    let fs = TestFs::default();
    let mut d = dispatcher(&fs, 1024, 1);
    enqueue(&mut d, jid(1), &[0xa]);
    transfer(&mut d, &fs, 0xa, 10);
    let r = d.receive_message(Message::ShutDown("signal 15".to_string()));
    assert_eq!(r.fatal, Some(FatalError::ShutDown("signal 15".to_string())));
    assert_eq!(
        r.actions,
        vec![
            Action::JobStateTransition(jid(1), JobStatus::Canceled),
            Action::JobCompleted(jid(1), JobOutcome::Canceled),
        ]
    );
    assert_eq!(d.cache().ref_count(&digest(0xa)), 0);
    assert!(d.stopped());
}

#[test]
fn cancel_of_unknown_job_is_ignored() {
    let fs = TestFs::default();
    let mut d = dispatcher(&fs, 1024, 1);
    enqueue(&mut d, jid(1), &[]);
    assert_eq!(cancel(&mut d, jid(9)), vec![]);
    assert_eq!(d.job_count(), 1);
    assert_eq!(d.status_of(jid(1)), Some(JobStatus::WaitingForLayers));
}

#[test]
fn cancel_of_executing_job_waits_for_the_executor() {
    let fs = TestFs::default();
    let mut d = dispatcher(&fs, 1024, 1);
    enqueue(&mut d, jid(1), &[]);
    update(&mut d, jid(1), JobUpdate::LayersBuilt);
    assert_eq!(cancel(&mut d, jid(1)), vec![Action::CancelExecution(jid(1))]);
    assert_eq!(cancel(&mut d, jid(1)), vec![]);
    assert_eq!(d.status_of(jid(1)), Some(JobStatus::Executing));
    assert_eq!(d.slots_in_use(), 1);
    assert_eq!(
        update(&mut d, jid(1), JobUpdate::Finished(exited(137))),
        vec![
            Action::JobStateTransition(jid(1), JobStatus::Canceled),
            Action::JobCompleted(jid(1), JobOutcome::Canceled),
            Action::RemoveSandbox(jid(1)),
        ]
    );
    assert_eq!(cancel(&mut d, jid(1)), vec![]);
    assert_eq!(update(&mut d, jid(1), JobUpdate::Finished(exited(0))), vec![]);
    assert_eq!(d.slots_in_use(), 0);
}

#[test]
fn cancel_of_ready_job_leaves_the_line() {
    let fs = TestFs::default();
    let mut d = dispatcher(&fs, 1024, 1);
    for n in 1..=3 {
        enqueue(&mut d, jid(n), &[]);
        update(&mut d, jid(n), JobUpdate::LayersBuilt);
    }
    assert_eq!(d.ready_count(), 2);
    assert_eq!(
        cancel(&mut d, jid(2)),
        vec![
            Action::JobStateTransition(jid(2), JobStatus::Canceled),
            Action::JobCompleted(jid(2), JobOutcome::Canceled),
            Action::RemoveSandbox(jid(2)),
        ]
    );
    assert_eq!(d.ready_count(), 1);
    let done = update(&mut d, jid(1), JobUpdate::Finished(exited(1)));
    assert_eq!(done[4], Action::StartJob(jid(3)));
}

#[test]
fn ready_jobs_start_in_the_order_in_which_they_became_ready() {
    let fs = TestFs::default();
    let mut d = dispatcher(&fs, 1024, 1);
    for n in [5u32, 3, 4, 1] {
        enqueue(&mut d, jid(n), &[]);
    }
    for n in [5u32, 4, 1, 3] {
        update(&mut d, jid(n), JobUpdate::LayersBuilt);
    }
    let mut started = vec![];
    for n in [5u32, 4, 1] {
        for a in update(&mut d, jid(n), JobUpdate::Finished(exited(0))) {
            if let Action::StartJob(j) = a {
                started.push(j);
            }
        }
        assert_eq!(d.slots_in_use() + d.slots_available(), 1);
    }
    assert_eq!(started, vec![jid(4), jid(1), jid(3)]);
}

#[test]
fn layer_builds_are_bounded_and_first_come_first_served() {
    let fs = TestFs::default();
    let mut d = Dispatcher::new(cache(&fs, 10), 4, 2);
    assert!(enqueue(&mut d, jid(1), &[]).contains(&Action::BuildLayers(jid(1))));
    assert!(enqueue(&mut d, jid(2), &[]).contains(&Action::BuildLayers(jid(2))));
    assert_eq!(
        enqueue(&mut d, jid(3), &[]),
        vec![
            Action::JobStateTransition(jid(3), JobStatus::WaitingForArtifacts),
            Action::JobStateTransition(jid(3), JobStatus::WaitingForLayers),
        ]
    );
    enqueue(&mut d, jid(4), &[]);
    assert_eq!(update(&mut d, jid(3), JobUpdate::LayersBuilt), vec![]);
    let built = update(&mut d, jid(2), JobUpdate::LayersBuilt);
    assert_eq!(built.last(), Some(&Action::BuildLayers(jid(3))));
    assert_eq!(
        update(&mut d, jid(1), JobUpdate::LayersFailed("no space".to_string())),
        vec![
            Action::JobStateTransition(jid(1), JobStatus::Failed),
            Action::JobCompleted(
                jid(1),
                JobOutcome::Failed(JobFailure::System("no space".to_string()))
            ),
            Action::BuildLayers(jid(4)),
        ]
    );
}

#[test]
fn reference_counts_follow_the_jobs() {
    let fs = TestFs::default();
    let mut d = dispatcher(&fs, 1024, 8);
    enqueue(&mut d, jid(1), &[0xa]);
    transfer(&mut d, &fs, 0xa, 10);
    for n in 2..=5 {
        enqueue(&mut d, jid(n), &[0xa]);
    }
    assert_eq!(d.cache().ref_count(&digest(0xa)), 5);
    cancel(&mut d, jid(3));
    assert_eq!(d.cache().ref_count(&digest(0xa)), 4);
    for n in [1u32, 2, 4, 5] {
        update(&mut d, jid(n), JobUpdate::LayersBuilt);
        update(&mut d, jid(n), JobUpdate::Finished(exited(0)));
    }
    assert_eq!(d.job_count(), 0);
    assert_eq!(d.cache().ref_count(&digest(0xa)), 0);
    assert_eq!(d.cache().lookup(&digest(0xa)), Lookup::HaveIt);
}

#[test]
fn reused_job_id_is_counted_once_per_life() {
    let fs = TestFs::default();
    let mut d = dispatcher(&fs, 1024, 8);
    enqueue(&mut d, jid(1), &[0xa]);
    cancel(&mut d, jid(1));
    assert_eq!(
        enqueue(&mut d, jid(1), &[0xa]),
        vec![Action::JobStateTransition(jid(1), JobStatus::WaitingForArtifacts)]
    );
    transfer(&mut d, &fs, 0xa, 10);
    assert_eq!(d.cache().ref_count(&digest(0xa)), 1);
    assert_eq!(d.status_of(jid(1)), Some(JobStatus::WaitingForLayers));
}

#[test]
fn timed_out_job_is_reported_as_such() {
    let fs = TestFs::default();
    let mut d = dispatcher(&fs, 1024, 1);
    enqueue(&mut d, jid(1), &[]);
    update(&mut d, jid(1), JobUpdate::LayersBuilt);
    let effects =
        JobEffects { stdout: JobOutput::Inline(vec![1]), stderr: JobOutput::Empty, duration_ms: 9 };
    let actions =
        update(&mut d, jid(1), JobUpdate::Finished(JobOutcome::TimedOut { effects: effects.clone() }));
    assert_eq!(actions[0], Action::JobStateTransition(jid(1), JobStatus::Completed));
    assert_eq!(actions[1], Action::JobCompleted(jid(1), JobOutcome::TimedOut { effects }));
}

struct Lcg(u64);

impl Lcg {
    fn next(&mut self, bound: u64) -> u64 {
        self.0 = self.0.wrapping_mul(6364136223846793005).wrapping_add(1442695040888963407);
        (self.0 >> 33) % bound
    }
}

struct Harness {
    fs: TestFs,
    d: Dispatcher<TestFs>,
    slots: usize,
    live: Vec<JobId>,
    fetching: Vec<u64>,
    building: Vec<JobId>,
    executing: Vec<JobId>,
    enqueued: HashMap<JobId, usize>,
    completed: HashMap<JobId, usize>,
}

impl Harness {
    fn size_of(n: u64) -> u64 {
        40 + 35 * n
    }

    fn absorb(&mut self, actions: Vec<Action>) {
        for action in actions {
            match action {
                Action::GetArtifact(digest) => {
                    assert!(!self.fetching.contains(&digest.w3), "fetch started twice");
                    self.fetching.push(digest.w3);
                }
                Action::BuildLayers(job) => {
                    assert!(!self.building.contains(&job));
                    self.building.push(job);
                }
                Action::StartJob(job) => {
                    assert!(!self.executing.contains(&job));
                    self.executing.push(job);
                }
                Action::JobCompleted(job, _) => {
                    *self.completed.entry(job).or_default() += 1;
                    assert!(self.completed[&job] <= self.enqueued[&job], "completed twice");
                    self.live.retain(|j| *j != job);
                    self.building.retain(|j| *j != job);
                    self.executing.retain(|j| *j != job);
                }
                Action::JobStateTransition(..)
                | Action::CancelExecution(_)
                | Action::RemoveSandbox(_) => {}
            }
        }
    }

    fn check(&self) {
        assert_eq!(self.d.slots_in_use() + self.d.slots_available(), self.slots);
        assert!(self.d.slots_in_use() <= self.slots);
        assert_eq!(self.d.slots_in_use(), self.executing.len());
        assert!(self.d.ready_count() == 0 || self.d.slots_available() == 0);
        assert_eq!(self.d.job_count(), self.live.len());
        let mut resident = 0u128;
        for n in 0..8u64 {
            let digest = digest(n);
            let holders = self
                .live
                .iter()
                .filter(|id| {
                    let job = self.d.job(**id).unwrap();
                    job.artifacts.contains(&digest) && !job.pending.contains(&digest)
                })
                .count();
            assert_eq!(self.d.cache().ref_count(&digest), holders as u64);
            match self.d.cache().lookup(&digest) {
                Lookup::HaveIt => {
                    resident += Harness::size_of(n) as u128;
                    assert!(!self.fetching.contains(&n));
                }
                Lookup::Fetching => assert!(self.fetching.contains(&n)),
                Lookup::NeedFetch => assert!(!self.fetching.contains(&n)),
            }
        }
        assert_eq!(self.d.cache().bytes_used(), resident);
        for id in &self.live {
            let job = self.d.job(*id).unwrap();
            assert_eq!(job.status == JobStatus::WaitingForArtifacts, !job.pending.is_empty());
            assert_eq!(job.status == JobStatus::Executing, self.executing.contains(id));
        }
    }
}

fn run_random(seed: u64, slots: u16, cache_size: u64, steps: usize) {
    let fs = TestFs::default();
    let mut h = Harness {
        d: Dispatcher::new(cache(&fs, cache_size), slots, 2),
        fs,
        slots: slots as usize,
        live: vec![],
        fetching: vec![],
        building: vec![],
        executing: vec![],
        enqueued: HashMap::new(),
        completed: HashMap::new(),
    };
    let mut rng = Lcg(seed);
    for _ in 0..steps {
        let actions = match rng.next(8) {
            0 | 1 => {
                let id = jid(rng.next(12) as u32);
                if h.live.contains(&id) {
                    continue;
                }
                let count = rng.next(4);
                let digests: Vec<u64> = (0..count).map(|_| rng.next(8)).collect();
                h.live.push(id);
                *h.enqueued.entry(id).or_default() += 1;
                enqueue(&mut h.d, id, &digests)
            }
            2 | 3 => {
                if h.fetching.is_empty() {
                    continue;
                }
                let n = h.fetching.remove(rng.next(h.fetching.len() as u64) as usize);
                if rng.next(5) == 0 {
                    let r = h.d.receive_message(Message::ArtifactFetchCompleted(
                        digest(n),
                        Err("lost".to_string()),
                    ));
                    r.actions
                } else {
                    transfer(&mut h.d, &h.fs, n, Harness::size_of(n))
                }
            }
            4 => {
                if h.building.is_empty() {
                    continue;
                }
                let id = h.building.remove(rng.next(h.building.len() as u64) as usize);
                let report = if rng.next(6) == 0 {
                    JobUpdate::LayersFailed("build".to_string())
                } else {
                    JobUpdate::LayersBuilt
                };
                update(&mut h.d, id, report)
            }
            5 | 6 => {
                if h.executing.is_empty() {
                    continue;
                }
                let id = h.executing[rng.next(h.executing.len() as u64) as usize];
                update(&mut h.d, id, JobUpdate::Finished(exited(rng.next(3) as u8)))
            }
            _ => cancel(&mut h.d, jid(rng.next(12) as u32)),
        };
        h.absorb(actions);
        h.check();
    }
    while let Some(n) = h.fetching.pop() {
        let actions = transfer(&mut h.d, &h.fs, n, Harness::size_of(n));
        h.absorb(actions);
        h.check();
    }
    let r = h.d.receive_message(Message::ShutDown("done".to_string()));
    h.absorb(r.actions);
    assert_eq!(h.live, vec![]);
    h.executing.clear();
    h.check();
    for n in 0..8u64 {
        assert_eq!(h.d.cache().ref_count(&digest(n)), 0);
    }
    for (id, count) in &h.enqueued {
        assert_eq!(h.completed.get(id), Some(count));
    }
}

#[test]
fn invariants_hold_over_random_runs() {
    for seed in 1..40u64 {
        run_random(seed, 1 + (seed % 3) as u16, 150 + 100 * (seed % 7), 400);
    }
}

#[test]
fn invariants_hold_with_a_cache_that_is_always_full() {
    for seed in 100..110u64 {
        run_random(seed, 2, 0, 300);
    }
}
