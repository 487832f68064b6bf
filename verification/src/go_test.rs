//! The front end for Go tests: how a test binary is named and run, and how
//! its output is read.

use crate::client::{CacheDir, ProjectDir, StateDir};
use crate::lines::{
    after_first, before_last, drop_from_last, drop_through_first, last_where, LineRule, LineTest,
    rposition, texts,
};
use crate::pattern::{Matcher, regex_compiles, regex_finds};
use crate::root::{RootBuf, spec_join};
use crate::text::{find_last, last_index_of, lemma_last_index_of, starts_with};
use vstd::prelude::*;

verus! {

/// The name of the file that holds the metadata of the tests of a project.
pub const MAELSTROM_TEST_TOML: &'static str = "maelstrom-go-test.toml";

/// What is shown while the test binaries are built.
pub const ENQUEUE_MESSAGE: &'static str = "building artifacts...";

/// The directory `.maelstrom-go-test` of a project.
pub struct HiddenDir;

/// The name of the hidden directory, below the project directory.
pub const HIDDEN_DIR_NAME: &'static str = ".maelstrom-go-test";

/// The key of an artifact of a package. A Go package has one test binary,
/// whose key is `test`.
#[derive(Clone, Debug, PartialEq, Eq, Hash, PartialOrd, Ord)]
pub struct GoTestArtifactKey {
    name: String,
}

impl GoTestArtifactKey {
    /// The name of the key.
    pub closed spec fn view(&self) -> Seq<char> {
        self.name@
    }

    /// The key named `s`. Every text names a key.
    pub fn from_str(s: &str) -> (k: Self)
        ensures
            k.view() == s@,
    {
        GoTestArtifactKey { name: String::from_str(s) }
    }

    /// The key as it is shown: its name.
    pub fn to_string(&self) -> (s: String)
        ensures
            s@ == self.view(),
    {
        self.name.clone()
    }

    /// The key of the one test binary of a package.
    pub fn test() -> (k: Self)
        ensures
            k.view() == "test"@,
    {
        GoTestArtifactKey { name: String::from_str("test") }
    }
}

/// The part of `path` after its last slash; all of it if it has none.
pub open spec fn last_component(path: Seq<char>) -> Seq<char> {
    path.skip(last_index_of(path, '/') + 1)
}

/// The part of `path` before its last slash, if it has one.
pub open spec fn parent(path: Seq<char>) -> Option<Seq<char>> {
    if last_index_of(path, '/') >= 0 {
        Some(path.take(last_index_of(path, '/')))
    } else {
        None
    }
}

/// The short name of the import path `path`, given whether its last
/// component is a version: the last component, or the one before it if the
/// last is a version. A path that is nothing but a version has none.
pub open spec fn spec_short_name(path: Seq<char>, last_is_version: bool) -> Option<Seq<char>> {
    if last_is_version {
        match parent(path) {
            Some(p) => Some(last_component(p)),
            None => None,
        }
    } else {
        Some(last_component(path))
    }
}

/// The regular expression that a version component matches in full.
pub open spec fn spec_version_pattern() -> Seq<char> {
    "^v[0-9]*$"@
}

/// The import path of a Go package.
#[derive(Clone, Debug, PartialEq, Eq, Hash, PartialOrd, Ord)]
pub struct GoImportPath(pub String);

fn last_component_of(path: &str) -> (r: String)
    ensures
        r@ == last_component(path@),
{
    let n = path.unicode_len();
    proof {
        lemma_last_index_of(path@, '/');
    }
    let from = match find_last(path, '/') {
        Some(i) => i + 1,
        None => 0,
    };
    let part = path.substring_char(from, n);
    assert(path@.subrange(from as int, n as int) =~= path@.skip(from as int));
    String::from_str(part)
}

fn parent_of(path: &str) -> (r: Option<String>)
    ensures
        match r {
            Some(p) => parent(path@) == Some(p@),
            None => parent(path@) is None,
        },
{
    proof {
        lemma_last_index_of(path@, '/');
    }
    match find_last(path, '/') {
        Some(i) => {
            let part = path.substring_char(0, i);
            assert(path@.subrange(0, i as int) =~= path@.take(i as int));
            Some(String::from_str(part))
        },
        None => None,
    }
}

impl GoImportPath {
    /// The last component of the path.
    pub fn last(&self) -> (r: String)
        ensures
            r@ == last_component(self.0@),
    {
        last_component_of(self.0.as_str())
    }

    /// The short name of the package, given whether the last component of
    /// its path is a version.
    pub fn short_name_given(&self, last_is_version: bool) -> (r: Option<String>)
        ensures
            match r {
                Some(name) => spec_short_name(self.0@, last_is_version) == Some(name@),
                None => spec_short_name(self.0@, last_is_version) is None,
            },
    {
        if last_is_version {
            match parent_of(self.0.as_str()) {
                Some(p) => Some(last_component_of(p.as_str())),
                None => None,
            }
        } else {
            Some(last_component_of(self.0.as_str()))
        }
    }

    /// The short name of the package: the last component of its path, or the
    /// one before it if the last is a version such as `v2`. There is none if
    /// the path is nothing but a version, or if the regex engine refuses the
    /// pattern for versions.
    pub fn short_name(&self) -> (r: Option<String>)
        ensures
            match r {
                Some(name) => regex_compiles(spec_version_pattern()) && spec_short_name(
                    self.0@,
                    regex_finds(spec_version_pattern(), last_component(self.0@)),
                ) == Some(name@),
                None => !regex_compiles(spec_version_pattern()) || spec_short_name(
                    self.0@,
                    regex_finds(spec_version_pattern(), last_component(self.0@)),
                ) is None,
            },
    {
        match Matcher::compile("^v[0-9]*$") {
            Some(version) => {
                let last = self.last();
                let is_version = version.is_match(last.as_str());
                self.short_name_given(is_version)
            },
            None => None,
        }
    }
}

/// A Go package, as `go list` describes it.
#[derive(Clone, Debug)]
pub struct GoPackage {
    pub import_path: String,
    pub name: String,
}

impl GoPackage {
    /// The name under which the package is listed: its import path.
    pub fn name(&self) -> (s: &String)
        ensures
            s@ == self.import_path@,
    {
        &self.import_path
    }

    /// The keys of the artifacts of the package: the one test binary.
    pub fn artifacts(&self) -> (keys: Vec<GoTestArtifactKey>)
        ensures
            keys@.len() == 1,
            keys@[0].view() == "test"@,
    {
        let mut keys = Vec::new();
        keys.push(GoTestArtifactKey::test());
        keys
    }

    /// The id of the package: its import path.
    pub fn id(&self) -> (p: GoImportPath)
        ensures
            p.0@ == self.import_path@,
    {
        GoImportPath(self.import_path.clone())
    }
}

/// Whether a package is listed, given what the filter says of it: a package
/// of which the filter cannot say anything without knowing the test is listed.
pub fn filter_package(verdict: Option<bool>) -> (listed: bool)
    ensures
        listed == match verdict {
            Some(b) => b,
            None => true,
        },
{
    match verdict {
        Some(b) => b,
        None => true,
    }
}

/// The test binary of a package.
#[derive(Clone, Debug)]
pub struct GoTestArtifact {
    pub id: GoImportPath,
    pub path: String,
}

/// The path of the binary `name` in the root of the sandbox.
pub open spec fn spec_program(name: Seq<char>) -> Seq<char> {
    "/"@ + name
}

/// The argument that selects the test `case_name` and no other.
pub open spec fn spec_run_argument(case_name: Seq<char>) -> Seq<char> {
    "^"@ + case_name + "$"@
}

/// The arguments with which a test binary runs the test `case_name`: select
/// that test alone, switch off the timeout of the binary, and report at length.
pub open spec fn spec_arguments(case_name: Seq<char>) -> Seq<Seq<char>> {
    seq!["-test.run"@, spec_run_argument(case_name), "-test.timeout=0"@, "-test.v"@]
}

impl GoTestArtifact {
    /// The package the binary tests.
    pub fn package(&self) -> (p: GoImportPath)
        ensures
            p.0@ == self.id.0@,
    {
        GoImportPath(self.id.0.clone())
    }

    /// The key of the binary among the artifacts of its package.
    pub fn to_key(&self) -> (k: GoTestArtifactKey)
        ensures
            k.view() == "test"@,
    {
        GoTestArtifactKey::test()
    }

    /// The tests of the binary that are ignored without being run: none.
    pub fn list_ignored_tests(&self) -> (tests: Vec<String>)
        ensures
            tests@.len() == 0,
    {
        Vec::new()
    }

    /// The program and the arguments that run the test `case_name`. The
    /// program is the binary, by its file name, in the root of the sandbox.
    pub fn build_command(&self, case_name: &str) -> (command: (String, Vec<String>))
        ensures
            command.0@ == spec_program(last_component(self.path@)),
            texts(command.1@) == spec_arguments(case_name@),
    {
        let binary_name = last_component_of(self.path.as_str());
        let mut program = String::from_str("/");
        program.append(binary_name.as_str());
        let mut run = String::from_str("^");
        run.append(case_name);
        run.append("$");
        let mut arguments: Vec<String> = Vec::new();
        arguments.push(String::from_str("-test.run"));
        arguments.push(run);
        arguments.push(String::from_str("-test.timeout=0"));
        arguments.push(String::from_str("-test.v"));
        assert(texts(arguments@) =~= spec_arguments(case_name@));
        (program, arguments)
    }

    /// How a test is shown: the import path of its package, a space, and its name.
    pub fn format_case(&self, import_path: &str, case_name: &str) -> (s: String)
        ensures
            s@ == import_path@ + " "@ + case_name@,
    {
        let mut s = String::from_str(import_path);
        s.append(" ");
        s.append(case_name);
        s
    }
}

/// The line that announces the run of the test `case`.
pub open spec fn spec_run_line(case: Seq<char>) -> Seq<char> {
    "=== RUN   "@ + case
}

/// The beginning of the line that reports the failure of the test `case`.
pub open spec fn spec_fail_prefix(case: Seq<char>) -> Seq<char> {
    "--- FAIL: "@ + case + " "@
}

/// The beginning of the line that reports that the test `case` was skipped.
pub open spec fn spec_skip_prefix(case: Seq<char>) -> Seq<char> {
    "--- SKIP: "@ + case + " "@
}

/// The output of a failed test without what the test binary wrote around it:
/// without the first line that announces the test and all before it, and then
/// without the last line that reports its failure and all after it.
pub open spec fn spec_remove_fixture_output_test(case: Seq<char>, lines: Seq<Seq<char>>) -> Seq<
    Seq<char>,
> {
    before_last(
        after_first(lines, LineRule::Equals(spec_run_line(case))),
        LineRule::StartsWith(spec_fail_prefix(case)),
    )
}

/// The output of a failed fuzz test without the last line `FAIL` and all after it.
pub open spec fn spec_remove_fixture_output_fuzz(lines: Seq<Seq<char>>) -> Seq<Seq<char>> {
    before_last(lines, LineRule::Equals("FAIL"@))
}

/// The output of a failed example without the first line that reports its
/// failure and all before it, and then without the last line `FAIL` and all
/// after it.
pub open spec fn spec_remove_fixture_output_example(case: Seq<char>, lines: Seq<Seq<char>>) -> Seq<
    Seq<char>,
> {
    before_last(
        after_first(lines, LineRule::StartsWith(spec_fail_prefix(case))),
        LineRule::Equals("FAIL"@),
    )
}

/// The output of a failed test of any kind without what the test binary
/// wrote around it. A test whose name begins with `Fuzz` is a fuzz test, one
/// whose name begins with `Example` an example.
pub open spec fn spec_remove_fixture_output(case: Seq<char>, lines: Seq<Seq<char>>) -> Seq<
    Seq<char>,
> {
    if "Fuzz"@.is_prefix_of(case) {
        spec_remove_fixture_output_fuzz(lines)
    } else if "Example"@.is_prefix_of(case) {
        spec_remove_fixture_output_example(case, lines)
    } else {
        spec_remove_fixture_output_test(case, lines)
    }
}

/// Whether the output says that the test `case` was skipped: the last line
/// that is not empty is `PASS`, and the line before it reports the skip.
pub open spec fn spec_was_test_ignored(case: Seq<char>, lines: Seq<Seq<char>>) -> bool {
    let last = last_where(lines, LineRule::NonEmpty);
    last >= 1 && spec_skip_prefix(case).is_prefix_of(lines[last - 1]) && lines[last] == "PASS"@
}

fn fail_prefix(case_str: &str) -> (s: String)
    ensures
        s@ == spec_fail_prefix(case_str@),
{
    let mut s = String::from_str("--- FAIL: ");
    s.append(case_str);
    s.append(" ");
    s
}

/// Removes from the output of a failed test what the test binary wrote around it.
pub fn remove_fixture_output_test(case_str: &str, lines: Vec<String>) -> (rest: Vec<String>)
    ensures
        texts(rest@) == spec_remove_fixture_output_test(case_str@, texts(lines@)),
{
    let mut run = String::from_str("=== RUN   ");
    run.append(case_str);
    let lines = drop_through_first(lines, &LineTest::Equals(run));
    drop_from_last(lines, &LineTest::StartsWith(fail_prefix(case_str)))
}

/// Removes from the output of a failed fuzz test what the test binary wrote after it.
pub fn remove_fixture_output_fuzz(_case_str: &str, lines: Vec<String>) -> (rest: Vec<String>)
    ensures
        texts(rest@) == spec_remove_fixture_output_fuzz(texts(lines@)),
{
    drop_from_last(lines, &LineTest::Equals(String::from_str("FAIL")))
}

/// Removes from the output of a failed example what the test binary wrote around it.
pub fn remove_fixture_output_example(case_str: &str, lines: Vec<String>) -> (rest: Vec<String>)
    ensures
        texts(rest@) == spec_remove_fixture_output_example(case_str@, texts(lines@)),
{
    let lines = drop_through_first(lines, &LineTest::StartsWith(fail_prefix(case_str)));
    drop_from_last(lines, &LineTest::Equals(String::from_str("FAIL")))
}

/// Removes from the output of a failed test of any kind what the test binary
/// wrote around it.
pub fn remove_fixture_output(case_str: &str, lines: Vec<String>) -> (rest: Vec<String>)
    ensures
        texts(rest@) == spec_remove_fixture_output(case_str@, texts(lines@)),
{
    if starts_with(case_str, "Fuzz") {
        remove_fixture_output_fuzz(case_str, lines)
    } else if starts_with(case_str, "Example") {
        remove_fixture_output_example(case_str, lines)
    } else {
        remove_fixture_output_test(case_str, lines)
    }
}

/// Whether the output of a test says that the test was skipped.
pub fn was_test_ignored(case_str: &str, lines: &Vec<String>) -> (ignored: bool)
    ensures
        ignored == spec_was_test_ignored(case_str@, texts(lines@)),
{
    match rposition(lines, &LineTest::NonEmpty) {
        Some(last) => {
            if last == 0 {
                return false;
            }
            let mut skip = String::from_str("--- SKIP: ");
            skip.append(case_str);
            skip.append(" ");
            let pass = String::from_str("PASS");
            starts_with(lines[last - 1].as_str(), skip.as_str()) && lines[last] == pass
        },
        None => false,
    }
}

/// The directory in which the test binaries are built.
pub struct BuildDir;

/// The directories the front end keeps in a project.
pub struct GoTestDirs {
    pub hidden: RootBuf<HiddenDir>,
    pub state: RootBuf<StateDir>,
    pub cache: RootBuf<CacheDir>,
    pub build: RootBuf<BuildDir>,
}

impl GoTestDirs {
    /// The directories of the project at `project_dir`: the hidden
    /// directory, in it the state and the cache, and in the cache the
    /// directory of the test binaries.
    pub fn new(project_dir: &RootBuf<ProjectDir>) -> (dirs: GoTestDirs)
        ensures
            dirs.hidden.view() == spec_join(project_dir.view(), ".maelstrom-go-test"@),
            dirs.state.view() == spec_join(dirs.hidden.view(), "state"@),
            dirs.cache.view() == spec_join(dirs.hidden.view(), "cache"@),
            dirs.build.view() == spec_join(dirs.cache.view(), "test-binaries"@),
    {
        let hidden: RootBuf<HiddenDir> = project_dir.join(".maelstrom-go-test");
        let state: RootBuf<StateDir> = hidden.join("state");
        let cache: RootBuf<CacheDir> = hidden.join("cache");
        let build: RootBuf<BuildDir> = cache.join("test-binaries");
        GoTestDirs { hidden, state, cache, build }
    }
}

/// What the front end is asked to do.
#[derive(Clone, Copy, Debug, PartialEq, Eq, Structural)]
pub enum Plan {
    /// List the packages and stop.
    ListPackages,
    /// List the tests and stop.
    ListTests,
    /// Run the tests.
    Run,
}

/// What the front end is to do, given what it was asked to list. Listing
/// packages wins over listing tests.
pub fn plan(list_packages: bool, list_tests: bool) -> (p: Plan)
    ensures
        p == if list_packages {
            Plan::ListPackages
        } else if list_tests {
            Plan::ListTests
        } else {
            Plan::Run
        },
{
    if list_packages {
        Plan::ListPackages
    } else if list_tests {
        Plan::ListTests
    } else {
        Plan::Run
    }
}

/// The packages that are listed: those for which the filter does not say no,
/// in their order.
pub open spec fn spec_listed(verdicts: Seq<(String, Option<bool>)>) -> Seq<Seq<char>>
    decreases verdicts.len(),
{
    if verdicts.len() == 0 {
        Seq::empty()
    } else if verdicts.last().1 == Some(false) {
        spec_listed(verdicts.drop_last())
    } else {
        spec_listed(verdicts.drop_last()).push(verdicts.last().0@)
    }
}

/// Picks the packages to list from the packages with what the filter says
/// of each.
pub fn list_packages(verdicts: Vec<(String, Option<bool>)>) -> (names: Vec<String>)
    ensures
        texts(names@) == spec_listed(verdicts@),
{
    let mut names: Vec<String> = Vec::new();
    let mut i: usize = 0;
    let mut rest = verdicts;
    let mut turned: Vec<(String, Option<bool>)> = Vec::new();
    while rest.len() > 0
        invariant
            rest@ + turned@.reverse() == verdicts@,
        decreases rest@.len(),
    {
        let ghost before = rest@;
        let ghost turned0 = turned@;
        match rest.pop() {
            Some(v) => {
                turned.push(v);
                proof {
                    assert(turned@.reverse() =~= seq![v] + turned0.reverse());
                    assert(before =~= rest@.push(v));
                    assert(rest@ + turned@.reverse() =~= before + turned0.reverse());
                }
            },
            None => {},
        }
    }
    proof {
        assert(turned@.reverse() =~= verdicts@);
        assert(verdicts@.take(0) =~= Seq::empty());
    }
    let total = turned.len();
    while turned.len() > 0
        invariant
            i + turned@.len() == total,
            total == verdicts@.len(),
            turned@.reverse() == verdicts@.skip(i as int),
            texts(names@) == spec_listed(verdicts@.take(i as int)),
        decreases turned@.len(),
    {
        let ghost turned0 = turned@;
        let ghost names0 = names@;
        let (name, verdict) = match turned.pop() {
            Some(v) => v,
            None => {
                return names;
            },
        };
        proof {
            assert(turned0.reverse()[0] == turned0[turned0.len() - 1]);
            assert(verdicts@[i as int] == (name, verdict));
            assert(turned@.reverse() =~= verdicts@.skip(i as int + 1)) by {
                let a = turned@.reverse();
                let b = verdicts@.skip(i as int + 1);
                assert(a.len() == b.len());
                assert forall|k: int| 0 <= k < a.len() implies a[k] == b[k] by {
                    assert(turned0.reverse()[k + 1] == verdicts@.skip(i as int)[k + 1]);
                }
            }
            assert(verdicts@.take(i as int + 1).drop_last() =~= verdicts@.take(i as int));
            assert(verdicts@.take(i as int + 1).last() == verdicts@[i as int]);
        }
        if filter_package(verdict) {
            names.push(name);
            assert(texts(names@) =~= texts(names0).push(name@));
        }
        i += 1;
    }
    proof {
        assert(verdicts@.take(i as int) =~= verdicts@);
    }
    names
}

} // verus!
