//! What the cache needs from a file system, and the metadata it reads there.

use vstd::prelude::*;

verus! {

/// The kind of a directory entry.
#[derive(Clone, Copy, Debug, PartialEq, Eq, Structural)]
pub enum FileType {
    Directory,
    File,
    Symlink,
    Other,
}

impl FileType {
    /// The type of an entry, from the answers of the host's three tests. The
    /// first test that holds decides, in the order directory, file, symlink.
    pub fn from_flags(is_dir: bool, is_file: bool, is_symlink: bool) -> (t: FileType)
        ensures
            t == if is_dir {
                FileType::Directory
            } else if is_file {
                FileType::File
            } else if is_symlink {
                FileType::Symlink
            } else {
                FileType::Other
            },
    {
        if is_dir {
            FileType::Directory
        } else if is_file {
            FileType::File
        } else if is_symlink {
            FileType::Symlink
        } else {
            FileType::Other
        }
    }

    /// The name of the type, as it is shown to a reader.
    pub open spec fn spec_name(self) -> Seq<char> {
        match self {
            FileType::Directory => "Directory"@,
            FileType::File => "File"@,
            FileType::Symlink => "Symlink"@,
            FileType::Other => "Other"@,
        }
    }

    /// The name of the type, as it is shown to a reader.
    pub fn name(&self) -> (s: &'static str)
        ensures
            s@ == self.spec_name(),
    {
        match self {
            FileType::Directory => "Directory",
            FileType::File => "File",
            FileType::Symlink => "Symlink",
            FileType::Other => "Other",
        }
    }
}

/// The metadata of a directory entry: its type and its size in bytes.
#[derive(Clone, Copy, Debug, PartialEq, Eq, Structural)]
pub struct Metadata {
    pub type_: FileType,
    pub size: u64,
}

impl Metadata {
    /// The metadata of a directory of size `size`.
    pub fn directory(size: u64) -> (m: Metadata)
        ensures
            m == (Metadata { type_: FileType::Directory, size }),
    {
        Metadata { type_: FileType::Directory, size }
    }

    /// The metadata of a file of size `size`.
    pub fn file(size: u64) -> (m: Metadata)
        ensures
            m == (Metadata { type_: FileType::File, size }),
    {
        Metadata { type_: FileType::File, size }
    }

    /// The metadata of a symlink of size `size`.
    pub fn symlink(size: u64) -> (m: Metadata)
        ensures
            m == (Metadata { type_: FileType::Symlink, size }),
    {
        Metadata { type_: FileType::Symlink, size }
    }

    /// The metadata of an entry of which the host reports a size and the
    /// answers of its three type tests.
    pub fn from_host(is_dir: bool, is_file: bool, is_symlink: bool, size: u64) -> (m: Metadata)
        ensures
            m.size == size,
            m.type_ == if is_dir {
                FileType::Directory
            } else if is_file {
                FileType::File
            } else if is_symlink {
                FileType::Symlink
            } else {
                FileType::Other
            },
    {
        Metadata { type_: FileType::from_flags(is_dir, is_file, is_symlink), size }
    }
}

/// The sizes of the entries, added up.
pub open spec fn spec_dir_size(entries: Seq<(String, Metadata)>) -> nat
    decreases entries.len(),
{
    if entries.len() == 0 {
        0
    } else {
        spec_dir_size(entries.drop_last()) + entries.last().1.size as nat
    }
}

/// The size of a directory: the sizes of its entries, added up. There is
/// none if the sum is beyond what a size can hold.
pub fn dir_size(entries: &Vec<(String, Metadata)>) -> (total: Option<u64>)
    ensures
        match total {
            Some(n) => n == spec_dir_size(entries@),
            None => spec_dir_size(entries@) > u64::MAX,
        },
{
    let mut total: u64 = 0;
    let mut i: usize = 0;
    proof {
        assert(entries@.take(0) =~= Seq::empty());
    }
    while i < entries.len()
        invariant
            i <= entries@.len(),
            total == spec_dir_size(entries@.take(i as int)),
        decreases entries@.len() - i,
    {
        proof {
            assert(entries@.take(i as int + 1).drop_last() =~= entries@.take(i as int));
            lemma_dir_size_grows(entries@, i as int + 1);
        }
        match total.checked_add(entries[i].1.size) {
            Some(sum) => {
                total = sum;
            },
            None => {
                return None;
            },
        }
        i += 1;
    }
    proof {
        assert(entries@.take(i as int) =~= entries@);
    }
    Some(total)
}

/// The size of a part of a directory is no more than that of the whole.
pub proof fn lemma_dir_size_grows(entries: Seq<(String, Metadata)>, k: int)
    requires
        0 <= k <= entries.len(),
    ensures
        spec_dir_size(entries.take(k)) <= spec_dir_size(entries),
    decreases entries.len(),
{
    if k == entries.len() {
        assert(entries.take(k) =~= entries);
    } else {
        assert(entries.drop_last().take(k) =~= entries.take(k));
        lemma_dir_size_grows(entries.drop_last(), k);
    }
}

/// A temporary file. An implementation may remove the file when the value is
/// dropped, so that a file that was never made persistent leaves nothing behind.
pub trait TempFile {
    /// The path of the file, at which it can be opened and written.
    fn path(&self) -> String;
}

/// A temporary directory. An implementation may remove the directory when the
/// value is dropped.
pub trait TempDir {
    /// The path of the directory, in which files can be made before it is
    /// made persistent.
    fn path(&self) -> String;
}

/// The file system as the cache uses it. Paths are text; a method that fails
/// leaves the file system as it was, as far as the host can tell.
pub trait Fs {
    /// What a failed operation reports.
    type Error;

    /// The type of the files that [`Fs::temp_file`] makes.
    type TempFile: TempFile;

    /// The type of the directories that [`Fs::temp_dir`] makes.
    type TempDir: TempDir;

    /// A number that differs from call to call, for names that must be unique.
    fn rand_u64(&self) -> u64;

    /// The metadata of the entry at `path`, or `None` if there is none. A
    /// symlink in the last place is reported, not followed.
    fn metadata(&self, path: &str) -> Result<Option<Metadata>, Self::Error>;

    /// The children of the directory at `path`, without `.` and `..`.
    fn read_dir(&self, path: &str) -> Result<Vec<(String, Metadata)>, Self::Error>;

    /// Creates a file at `path` with the given contents. Nothing may be there
    /// yet; the parent directory must exist.
    fn create_file(&self, path: &str, contents: &[u8]) -> Result<(), Self::Error>;

    /// Creates a symlink at `link` that points to `target`.
    fn symlink(&self, target: &str, link: &str) -> Result<(), Self::Error>;

    /// Creates an empty directory at `path`, whose parent must exist.
    fn mkdir(&self, path: &str) -> Result<(), Self::Error>;

    /// Creates a directory at `path` and every missing ancestor. A directory
    /// that is already there is no error.
    fn mkdir_recursively(&self, path: &str) -> Result<(), Self::Error>;

    /// Removes the entry at `path`, which is not a directory.
    fn remove(&self, path: &str) -> Result<(), Self::Error>;

    /// Removes the directory at `path` and all below it, in the background.
    /// Only a failure to start is reported.
    fn rmdir_recursively_on_thread(&self, path: String) -> Result<(), Self::Error>;

    /// Renames `source` to `destination`, replacing what is there.
    fn rename(&self, source: &str, destination: &str) -> Result<(), Self::Error>;

    /// Creates a temporary file in the directory `parent`.
    fn temp_file(&self, parent: &str) -> Result<Self::TempFile, Self::Error>;

    /// Moves `temp_file` to `target`. The temporary file is used up either way.
    fn persist_temp_file(&self, temp_file: Self::TempFile, target: &str) -> Result<
        (),
        Self::Error,
    >;

    /// Creates a temporary directory in the directory `parent`.
    fn temp_dir(&self, parent: &str) -> Result<Self::TempDir, Self::Error>;

    /// Moves `temp_dir` to `target`. The temporary directory is used up either way.
    fn persist_temp_dir(&self, temp_dir: Self::TempDir, target: &str) -> Result<(), Self::Error>;
}

} // verus!
