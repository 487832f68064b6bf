//! Where the worker keeps what on disk.

use crate::root::{RootBuf, spec_join};
use vstd::prelude::*;

verus! {

/// The directory the worker was given for all it keeps.
pub struct WorkerCacheDir;

/// The directory of the artifact cache.
pub struct ArtifactsDir;

/// The directory of the blobs of the artifact cache.
pub struct BlobDir;

/// The directory in which fetches are staged.
pub struct StagingDir;

/// The directory of the mount points of running jobs.
pub struct MountDir;

/// The directory of the writable overlays of running jobs.
pub struct TmpfsDir;

/// The directories of a worker.
pub struct WorkerDirs {
    pub artifacts: RootBuf<ArtifactsDir>,
    pub blobs: RootBuf<BlobDir>,
    pub staging: RootBuf<StagingDir>,
    pub mount: RootBuf<MountDir>,
    pub upper: RootBuf<TmpfsDir>,
}

impl WorkerDirs {
    /// The directories of a worker whose cache root is `cache_root`: the
    /// artifacts with their blobs and their staging area, the mount points,
    /// and the overlays.
    pub fn new(cache_root: &RootBuf<WorkerCacheDir>) -> (dirs: WorkerDirs)
        ensures
            dirs.artifacts.view() == spec_join(cache_root.view(), "artifacts"@),
            dirs.blobs.view() == spec_join(dirs.artifacts.view(), "sha256/blob"@),
            dirs.staging.view() == spec_join(dirs.artifacts.view(), "tmp"@),
            dirs.mount.view() == spec_join(cache_root.view(), "mount"@),
            dirs.upper.view() == spec_join(cache_root.view(), "upper"@),
    {
        let artifacts: RootBuf<ArtifactsDir> = cache_root.join("artifacts");
        let blobs: RootBuf<BlobDir> = artifacts.join("sha256/blob");
        let staging: RootBuf<StagingDir> = artifacts.join("tmp");
        let mount: RootBuf<MountDir> = cache_root.join("mount");
        let upper: RootBuf<TmpfsDir> = cache_root.join("upper");
        WorkerDirs { artifacts, blobs, staging, mount, upper }
    }

    /// The directory of the job numbered `job` below `parent`.
    pub fn job_dir<T>(parent: &RootBuf<T>, job: u64) -> (dir: RootBuf<T>)
        ensures
            dir.view() == spec_join(parent.view(), crate::text::decimal(job as nat)),
    {
        let name = crate::text::u64_to_decimal(job);
        parent.join(name.as_str())
    }
}

} // verus!
