//! Directives: the entries of a project's test metadata.
//!
//! A directive is written as a table of TOML. It says to which tests it
//! applies and what it changes for them. How layers, mounts and the
//! environment are written is not read here: a directive carries them as
//! they stand in the document.

use crate::job::JobNetwork;
use crate::text::text_is;
use vstd::prelude::*;

verus! {

/// The value of a key, as far as a directive reads it.
#[derive(Clone, Debug, PartialEq, Eq)]
pub enum FieldValue {
    String(String),
    Integer(i64),
    Boolean(bool),
    /// Anything else, as it is written.
    Other(String),
}

/// The value of a key, as a mathematical object.
pub enum FieldView {
    String(Seq<char>),
    Integer(int),
    Boolean(bool),
    Other(Seq<char>),
}

impl View for FieldValue {
    type V = FieldView;

    open spec fn view(&self) -> FieldView {
        match self {
            FieldValue::String(s) => FieldView::String(s@),
            FieldValue::Integer(n) => FieldView::Integer(*n as int),
            FieldValue::Boolean(b) => FieldView::Boolean(*b),
            FieldValue::Other(s) => FieldView::Other(s@),
        }
    }
}

/// The keys of a table with their values, as mathematical objects.
pub open spec fn fields_view(fields: Seq<(String, FieldValue)>) -> Seq<(Seq<char>, FieldView)> {
    fields.map_values(|f: (String, FieldValue)| (f.0@, f.1@))
}

/// What a parse gives, as a mathematical object.
pub open spec fn parsed_view(r: Result<Vec<(String, FieldValue)>, String>) -> Result<
    Seq<(Seq<char>, FieldView)>,
    Seq<char>,
> {
    match r {
        Ok(fields) => Ok(fields_view(fields@)),
        Err(message) => Err(message@),
    }
}

/// What the TOML parser makes of a document: the keys of its root table
/// with their values, in the order in which the parser lists them, or what
/// it says is wrong with the document.
pub uninterp spec fn toml_fields(text: Seq<char>) -> Result<Seq<(Seq<char>, FieldView)>, Seq<char>>;

/// Parses a document and hands out the keys of its root table.
///
/// Trusted: this is the `FromStr` of `toml::Table`, which parses a document
/// into its root table or returns an error, whose message is taken. The
/// result depends on the text alone. A string, an integer and a truth value
/// are taken over; any other value is written out by the parser's own
/// `Display`.
#[verifier::external_body]
fn parse_fields(text: &str) -> (r: Result<Vec<(String, FieldValue)>, String>)
    ensures
        parsed_view(r) == toml_fields(text@),
{
    match text.parse::<toml::Table>() {
        Ok(table) => Ok(table.iter().map(|(key, value)| (key.clone(), match value {
            toml::Value::String(s) => FieldValue::String(s.clone()),
            toml::Value::Integer(n) => FieldValue::Integer(*n),
            toml::Value::Boolean(b) => FieldValue::Boolean(*b),
            other => FieldValue::Other(other.to_string()),
        })).collect()),
        Err(error) => Err(error.message().to_string()),
    }
}

/// A limit on the running time of a job, in seconds, which is not zero.
#[derive(Clone, Copy, Debug, PartialEq, Eq, Structural)]
pub struct Timeout {
    seconds: u32,
}

impl Timeout {
    /// The number of seconds.
    pub closed spec fn view(&self) -> nat {
        self.seconds as nat
    }

    /// The limit of `seconds` seconds; no limit for zero.
    pub fn new(seconds: u32) -> (t: Option<Timeout>)
        ensures
            seconds == 0 ==> t is None,
            seconds > 0 ==> t is Some && t->0.view() == seconds,
    {
        if seconds == 0 {
            None
        } else {
            Some(Timeout { seconds })
        }
    }

    /// The number of seconds.
    pub fn seconds(&self) -> (n: u32)
        ensures
            n == self.view(),
    {
        self.seconds
    }
}

/// The keys a directive may have.
#[derive(Clone, Copy, Debug, PartialEq, Eq, Structural)]
pub enum Field {
    Filter,
    Image,
    Layers,
    AddedLayers,
    Environment,
    AddedEnvironment,
    WorkingDirectory,
    EnableWritableFileSystem,
    Mounts,
    AddedMounts,
    Network,
    User,
    Group,
    IncludeSharedLibraries,
    Timeout,
    Ignore,
}

/// The key that `key` names, if it names one.
pub open spec fn spec_field(key: Seq<char>) -> Option<Field> {
    if key == "filter"@ {
        Some(Field::Filter)
    } else if key == "image"@ {
        Some(Field::Image)
    } else if key == "layers"@ {
        Some(Field::Layers)
    } else if key == "added_layers"@ {
        Some(Field::AddedLayers)
    } else if key == "environment"@ {
        Some(Field::Environment)
    } else if key == "added_environment"@ {
        Some(Field::AddedEnvironment)
    } else if key == "working_directory"@ {
        Some(Field::WorkingDirectory)
    } else if key == "enable_writable_file_system"@ {
        Some(Field::EnableWritableFileSystem)
    } else if key == "mounts"@ {
        Some(Field::Mounts)
    } else if key == "added_mounts"@ {
        Some(Field::AddedMounts)
    } else if key == "network"@ {
        Some(Field::Network)
    } else if key == "user"@ {
        Some(Field::User)
    } else if key == "group"@ {
        Some(Field::Group)
    } else if key == "include_shared_libraries"@ {
        Some(Field::IncludeSharedLibraries)
    } else if key == "timeout"@ {
        Some(Field::Timeout)
    } else if key == "ignore"@ {
        Some(Field::Ignore)
    } else {
        None
    }
}

/// Finds the key that `key` names.
pub fn field_of(key: &String) -> (f: Option<Field>)
    ensures
        f == spec_field(key@),
{
    if text_is(key, "filter") {
        Some(Field::Filter)
    } else if text_is(key, "image") {
        Some(Field::Image)
    } else if text_is(key, "layers") {
        Some(Field::Layers)
    } else if text_is(key, "added_layers") {
        Some(Field::AddedLayers)
    } else if text_is(key, "environment") {
        Some(Field::Environment)
    } else if text_is(key, "added_environment") {
        Some(Field::AddedEnvironment)
    } else if text_is(key, "working_directory") {
        Some(Field::WorkingDirectory)
    } else if text_is(key, "enable_writable_file_system") {
        Some(Field::EnableWritableFileSystem)
    } else if text_is(key, "mounts") {
        Some(Field::Mounts)
    } else if text_is(key, "added_mounts") {
        Some(Field::AddedMounts)
    } else if text_is(key, "network") {
        Some(Field::Network)
    } else if text_is(key, "user") {
        Some(Field::User)
    } else if text_is(key, "group") {
        Some(Field::Group)
    } else if text_is(key, "include_shared_libraries") {
        Some(Field::IncludeSharedLibraries)
    } else if text_is(key, "timeout") {
        Some(Field::Timeout)
    } else if text_is(key, "ignore") {
        Some(Field::Ignore)
    } else {
        None
    }
}

/// The network that `name` names, if it names one.
pub open spec fn spec_network(name: Seq<char>) -> Option<JobNetwork> {
    if name == "disabled"@ {
        Some(JobNetwork::Disabled)
    } else if name == "loopback"@ {
        Some(JobNetwork::Loopback)
    } else if name == "local"@ {
        Some(JobNetwork::Local)
    } else {
        None
    }
}

/// What is wrong with a key that is not known.
pub open spec fn spec_unknown_field(key: Seq<char>) -> Seq<char> {
    "unknown field `"@ + key
        + "`, expected one of `filter`, `image`, `layers`, `added_layers`, `environment`, `added_environment`, `working_directory`, `enable_writable_file_system`, `mounts`, `added_mounts`, `network`, `user`, `group`, `include_shared_libraries`, `timeout`, `ignore`"@
}

/// What is wrong with a value of the wrong kind.
pub open spec fn spec_invalid_value(key: Seq<char>, expected: Seq<char>) -> Seq<char> {
    "invalid value for `"@ + key + "`: expected "@ + expected
}

/// The kind of value the key `f` takes, in words.
pub open spec fn spec_expected(f: Field) -> Seq<char> {
    match f {
        Field::Filter | Field::WorkingDirectory => "a string"@,
        Field::Network => "one of `disabled`, `loopback`, `local`"@,
        Field::EnableWritableFileSystem | Field::IncludeSharedLibraries | Field::Ignore => "a boolean"@,
        Field::User | Field::Group | Field::Timeout => "an integer from 0 to 4294967295"@,
        _ => "a value"@,
    }
}

/// Whether the key `f` takes the value `v`.
pub open spec fn takes(f: Field, v: FieldView) -> bool {
    match f {
        Field::Filter | Field::WorkingDirectory => v is String,
        Field::Network => v is String && spec_network(v->String_0) is Some,
        Field::EnableWritableFileSystem | Field::IncludeSharedLibraries | Field::Ignore => v is Boolean,
        Field::User | Field::Group | Field::Timeout => v is Integer && 0 <= v->Integer_0
            <= u32::MAX,
        _ => true,
    }
}

/// What is wrong with one key and its value, if anything.
pub open spec fn field_error(key: Seq<char>, v: FieldView) -> Option<Seq<char>> {
    match spec_field(key) {
        None => Some(spec_unknown_field(key)),
        Some(f) => if takes(f, v) {
            None
        } else {
            Some(spec_invalid_value(key, spec_expected(f)))
        },
    }
}

/// The value of a key as it is kept when the directive does not read it: a
/// string as it is, anything else as it is written.
pub open spec fn spec_raw(v: FieldView) -> Seq<char> {
    match v {
        FieldView::String(s) => s,
        FieldView::Integer(n) => if n >= 0 {
            crate::text::decimal(n as nat)
        } else {
            "-"@ + crate::text::decimal((-n) as nat)
        },
        FieldView::Boolean(b) => if b {
            "true"@
        } else {
            "false"@
        },
        FieldView::Other(s) => s,
    }
}

/// What a directive changes of the container of a test, each part only if
/// the directive names it.
#[derive(Clone, Debug, PartialEq, Eq)]
pub struct DirectiveContainerAccumulate {
    pub layers: Option<String>,
    pub added_layers: Option<String>,
    pub environment: Option<String>,
    pub added_environment: Option<String>,
    pub working_directory: Option<String>,
    pub enable_writable_file_system: Option<bool>,
    pub mounts: Option<String>,
    pub added_mounts: Option<String>,
    pub network: Option<JobNetwork>,
    pub user: Option<u32>,
    pub group: Option<u32>,
}

/// A container that starts from an image and replaces what was there.
#[derive(Clone, Debug, PartialEq, Eq)]
pub struct DirectiveContainerOverride {
    pub image: String,
    pub parts: DirectiveContainerAccumulate,
}

/// What a directive does to the container of a test: with an image it
/// replaces the container, without one it adds to it.
#[derive(Clone, Debug, PartialEq, Eq)]
pub enum DirectiveContainer {
    Override(DirectiveContainerOverride),
    Accumulate(DirectiveContainerAccumulate),
}

/// A directive.
#[derive(Clone, Debug, PartialEq, Eq)]
pub struct Directive {
    /// The tests the directive applies to; all of them if there is none.
    pub filter: Option<String>,
    pub container: DirectiveContainer,
    pub include_shared_libraries: Option<bool>,
    /// The limit on the running time: not named, named as none, or named.
    pub timeout: Option<Option<Timeout>>,
    pub ignore: Option<bool>,
}

impl DirectiveContainerAccumulate {
    /// The change that changes nothing.
    pub fn empty() -> (c: Self)
        ensures
            c.layers is None,
            c.added_layers is None,
            c.environment is None,
            c.added_environment is None,
            c.working_directory is None,
            c.enable_writable_file_system is None,
            c.mounts is None,
            c.added_mounts is None,
            c.network is None,
            c.user is None,
            c.group is None,
    {
        DirectiveContainerAccumulate {
            layers: None,
            added_layers: None,
            environment: None,
            added_environment: None,
            working_directory: None,
            enable_writable_file_system: None,
            mounts: None,
            added_mounts: None,
            network: None,
            user: None,
            group: None,
        }
    }
}

impl Directive {
    /// The directive that applies to every test and changes nothing.
    pub fn empty() -> (d: Self)
        ensures
            d.filter is None,
            d.include_shared_libraries is None,
            d.timeout is None,
            d.ignore is None,
            d.container is Accumulate,
    {
        Directive {
            filter: None,
            container: DirectiveContainer::Accumulate(DirectiveContainerAccumulate::empty()),
            include_shared_libraries: None,
            timeout: None,
            ignore: None,
        }
    }
}

/// The position of the first key with which something is wrong; the number
/// of keys if nothing is.
pub open spec fn first_bad(fields: Seq<(Seq<char>, FieldView)>) -> int
    decreases fields.len(),
{
    if fields.len() == 0 {
        0
    } else if field_error(fields[0].0, fields[0].1) is Some {
        0
    } else {
        1 + first_bad(fields.drop_first())
    }
}

/// The value of the key `f`: that of the last field that names it.
pub open spec fn lookup(fields: Seq<(Seq<char>, FieldView)>, f: Field) -> Option<FieldView>
    decreases fields.len(),
{
    if fields.len() == 0 {
        None
    } else if spec_field(fields.last().0) == Some(f) {
        Some(fields.last().1)
    } else {
        lookup(fields.drop_last(), f)
    }
}

/// A value the directive does not read, kept as it stands.
pub open spec fn kept(fields: Seq<(Seq<char>, FieldView)>, f: Field, value: Option<String>) -> bool {
    match lookup(fields, f) {
        None => value is None,
        Some(v) => value is Some && value->0@ == spec_raw(v),
    }
}

/// A text the directive reads.
pub open spec fn text_kept(fields: Seq<(Seq<char>, FieldView)>, f: Field, value: Option<String>) -> bool {
    match lookup(fields, f) {
        Some(FieldView::String(s)) => value is Some && value->0@ == s,
        _ => value is None,
    }
}

/// A truth value the directive reads.
pub open spec fn flag(fields: Seq<(Seq<char>, FieldView)>, f: Field) -> Option<bool> {
    match lookup(fields, f) {
        Some(FieldView::Boolean(b)) => Some(b),
        _ => None,
    }
}

/// A number the directive reads.
pub open spec fn number(fields: Seq<(Seq<char>, FieldView)>, f: Field) -> Option<u32> {
    match lookup(fields, f) {
        Some(FieldView::Integer(n)) => if 0 <= n <= u32::MAX {
            Some(n as u32)
        } else {
            None
        },
        _ => None,
    }
}

/// The network the directive names.
pub open spec fn network(fields: Seq<(Seq<char>, FieldView)>) -> Option<JobNetwork> {
    match lookup(fields, Field::Network) {
        Some(FieldView::String(s)) => spec_network(s),
        _ => None,
    }
}

/// Whether `parts` is what `fields` say of the container.
pub open spec fn parts_match(
    fields: Seq<(Seq<char>, FieldView)>,
    parts: DirectiveContainerAccumulate,
) -> bool {
    &&& kept(fields, Field::Layers, parts.layers)
    &&& kept(fields, Field::AddedLayers, parts.added_layers)
    &&& kept(fields, Field::Environment, parts.environment)
    &&& kept(fields, Field::AddedEnvironment, parts.added_environment)
    &&& text_kept(fields, Field::WorkingDirectory, parts.working_directory)
    &&& parts.enable_writable_file_system == flag(fields, Field::EnableWritableFileSystem)
    &&& kept(fields, Field::Mounts, parts.mounts)
    &&& kept(fields, Field::AddedMounts, parts.added_mounts)
    &&& parts.network == network(fields)
    &&& parts.user == number(fields, Field::User)
    &&& parts.group == number(fields, Field::Group)
}

/// Whether `d` is the directive that `fields` describe: each part is what the
/// last field of its key says, a timeout of zero is no limit, and the
/// container is replaced exactly if an image is named.
pub open spec fn directive_matches(fields: Seq<(Seq<char>, FieldView)>, d: Directive) -> bool {
    &&& text_kept(fields, Field::Filter, d.filter)
    &&& d.include_shared_libraries == flag(fields, Field::IncludeSharedLibraries)
    &&& d.ignore == flag(fields, Field::Ignore)
    &&& match number(fields, Field::Timeout) {
        None => d.timeout is None,
        Some(n) => d.timeout is Some && if n == 0 {
            d.timeout->0 is None
        } else {
            d.timeout->0 is Some && d.timeout->0->0.view() == n
        },
    }
    &&& match d.container {
        DirectiveContainer::Override(o) => kept(fields, Field::Image, Some(o.image))
            && parts_match(fields, o.parts),
        DirectiveContainer::Accumulate(parts) => lookup(fields, Field::Image) is None
            && parts_match(fields, parts),
    }
}

fn raw(value: FieldValue) -> (s: String)
    ensures
        s@ == spec_raw(value@),
{
    match value {
        FieldValue::String(s) => s,
        FieldValue::Integer(n) => {
            if n >= 0 {
                crate::text::u64_to_decimal(n as u64)
            } else {
                let mut s = String::from_str("-");
                let digits = crate::text::u128_to_decimal((-(n as i128)) as u128);
                s.append(digits.as_str());
                s
            }
        },
        FieldValue::Boolean(b) => if b {
            String::from_str("true")
        } else {
            String::from_str("false")
        },
        FieldValue::Other(s) => s,
    }
}

fn network_of(name: &String) -> (n: Option<JobNetwork>)
    ensures
        n == spec_network(name@),
{
    if text_is(name, "disabled") {
        Some(JobNetwork::Disabled)
    } else if text_is(name, "loopback") {
        Some(JobNetwork::Loopback)
    } else if text_is(name, "local") {
        Some(JobNetwork::Local)
    } else {
        None
    }
}

fn unknown_field(key: &String) -> (s: String)
    ensures
        s@ == spec_unknown_field(key@),
{
    let mut s = String::from_str("unknown field `");
    s.append(key.as_str());
    s.append(
        "`, expected one of `filter`, `image`, `layers`, `added_layers`, `environment`, `added_environment`, `working_directory`, `enable_writable_file_system`, `mounts`, `added_mounts`, `network`, `user`, `group`, `include_shared_libraries`, `timeout`, `ignore`",
    );
    s
}

fn invalid_value(key: &String, expected: &str) -> (s: String)
    ensures
        s@ == spec_invalid_value(key@, expected@),
{
    let mut s = String::from_str("invalid value for `");
    s.append(key.as_str());
    s.append("`: expected ");
    s.append(expected);
    s
}

fn expected(f: Field) -> (s: &'static str)
    ensures
        s@ == spec_expected(f),
{
    match f {
        Field::Filter | Field::WorkingDirectory => "a string",
        Field::Network => "one of `disabled`, `loopback`, `local`",
        Field::EnableWritableFileSystem | Field::IncludeSharedLibraries | Field::Ignore => "a boolean",
        Field::User | Field::Group | Field::Timeout => "an integer from 0 to 4294967295",
        _ => "a value",
    }
}

/// What the directive has read so far.
struct Draft {
    filter: Option<String>,
    image: Option<String>,
    parts: DirectiveContainerAccumulate,
    include_shared_libraries: Option<bool>,
    timeout: Option<u32>,
    ignore: Option<bool>,
}

impl Draft {
    spec fn matches(self, fields: Seq<(Seq<char>, FieldView)>) -> bool {
        &&& text_kept(fields, Field::Filter, self.filter)
        &&& kept(fields, Field::Image, self.image)
        &&& parts_match(fields, self.parts)
        &&& self.include_shared_libraries == flag(fields, Field::IncludeSharedLibraries)
        &&& self.timeout == number(fields, Field::Timeout)
        &&& self.ignore == flag(fields, Field::Ignore)
    }
}

/// Nothing is wrong with the fields before the first bad one.
pub proof fn lemma_first_bad(fields: Seq<(Seq<char>, FieldView)>, i: int)
    requires
        0 <= i <= fields.len(),
        forall|k: int| 0 <= k < i ==> field_error(fields[k].0, fields[k].1) is None,
        i < fields.len() ==> field_error(fields[i].0, fields[i].1) is Some,
    ensures
        first_bad(fields) == i,
    decreases fields.len(),
{
    if fields.len() > 0 && i > 0 {
        let rest = fields.drop_first();
        assert forall|k: int| 0 <= k < i - 1 implies field_error(rest[k].0, rest[k].1) is None by {
            assert(rest[k] == fields[k + 1]);
        }
        lemma_first_bad(rest, i - 1);
    }
}

/// Makes a directive of the keys of a table and their values.
///
/// The first key with which something is wrong, if there is one, decides:
/// the result is what is wrong with it. A key is wrong if a directive has no
/// such key, or if its value is not of the kind the key takes. Otherwise the
/// result is the directive the fields describe.
pub fn directive_from_fields(fields: Vec<(String, FieldValue)>) -> (r: Result<Directive, String>)
    ensures
        match r {
            Ok(d) => first_bad(fields_view(fields@)) == fields@.len() && directive_matches(
                fields_view(fields@),
                d,
            ),
            Err(message) => {
                let i = first_bad(fields_view(fields@));
                &&& i < fields@.len()
                &&& Some(message@) == field_error(
                    fields_view(fields@)[i].0,
                    fields_view(fields@)[i].1,
                )
            },
        },
{
    let ghost all = fields_view(fields@);
    let mut draft = Draft {
        filter: None,
        image: None,
        parts: DirectiveContainerAccumulate::empty(),
        include_shared_libraries: None,
        timeout: None,
        ignore: None,
    };
    let mut reading = fields;
    let mut rest: Vec<(String, FieldValue)> = Vec::new();
    while reading.len() > 0
        invariant
            fields_view(reading@) + fields_view(rest@).reverse() == all,
        decreases reading@.len(),
    {
        let ghost before = reading@;
        let ghost rest0 = rest@;
        match reading.pop() {
            Some(f) => {
                rest.push(f);
                proof {
                    assert(fields_view(reading@) =~= fields_view(before).drop_last());
                    assert(fields_view(rest@) =~= fields_view(rest0).push((f.0@, f.1@)));
                    assert(fields_view(rest@).reverse() =~= seq![(f.0@, f.1@)] + fields_view(
                        rest0,
                    ).reverse());
                    assert(fields_view(before) =~= fields_view(reading@).push((f.0@, f.1@)));
                    assert(fields_view(reading@) + fields_view(rest@).reverse() =~= fields_view(
                        before,
                    ) + fields_view(rest0).reverse());
                }
            },
            None => {},
        }
    }
    proof {
        assert(fields_view(reading@) =~= Seq::empty());
        assert(fields_view(rest@).reverse() =~= all);
        assert(all.take(0) =~= Seq::empty());
    }
    let total = rest.len();
    let mut i: usize = 0;
    while rest.len() > 0
        invariant
            i + rest@.len() == total,
            total == all.len(),
            all == fields_view(fields@),
            fields_view(rest@).reverse() == all.skip(i as int),
            forall|k: int| 0 <= k < i ==> field_error(all[k].0, all[k].1) is None,
            draft.matches(all.take(i as int)),
        decreases rest@.len(),
    {
        let ghost rest0 = rest@;
        let (key, value) = match rest.pop() {
            Some(f) => f,
            None => {
                return Err(String::new());
            },
        };
        proof {
            let r0 = fields_view(rest0);
            assert(r0.reverse()[0] == r0[r0.len() - 1]);
            assert(all[i as int] == (key@, value@));
            assert(fields_view(rest@) =~= r0.drop_last());
            assert(fields_view(rest@).reverse() =~= all.skip(i as int + 1)) by {
                let a = fields_view(rest@).reverse();
                let b = all.skip(i as int + 1);
                assert(a.len() == b.len());
                assert forall|k: int| 0 <= k < a.len() implies a[k] == b[k] by {
                    assert(r0.reverse()[k + 1] == all.skip(i as int)[k + 1]);
                }
            }
            assert(all.take(i as int + 1).drop_last() =~= all.take(i as int));
            assert(all.take(i as int + 1).last() == all[i as int]);
        }
        let field = match field_of(&key) {
            Some(f) => f,
            None => {
                let message = unknown_field(&key);
                proof {
                    lemma_first_bad(all, i as int);
                    assert(first_bad(all) == i);
                    assert(i < all.len());
                    assert(field_error(all[i as int].0, all[i as int].1) == Some(message@));
                }
                return Err(message);
            },
        };
        let ghost ok = takes(field, value@);
        let mut bad = false;
        match field {
            Field::Filter => match value {
                FieldValue::String(s) => {
                    draft.filter = Some(s);
                },
                _ => {
                    bad = true;
                },
            },
            Field::WorkingDirectory => match value {
                FieldValue::String(s) => {
                    draft.parts.working_directory = Some(s);
                },
                _ => {
                    bad = true;
                },
            },
            Field::Network => match value {
                FieldValue::String(s) => match network_of(&s) {
                    Some(n) => {
                        draft.parts.network = Some(n);
                    },
                    None => {
                        bad = true;
                    },
                },
                _ => {
                    bad = true;
                },
            },
            Field::EnableWritableFileSystem => match value {
                FieldValue::Boolean(b) => {
                    draft.parts.enable_writable_file_system = Some(b);
                },
                _ => {
                    bad = true;
                },
            },
            Field::IncludeSharedLibraries => match value {
                FieldValue::Boolean(b) => {
                    draft.include_shared_libraries = Some(b);
                },
                _ => {
                    bad = true;
                },
            },
            Field::Ignore => match value {
                FieldValue::Boolean(b) => {
                    draft.ignore = Some(b);
                },
                _ => {
                    bad = true;
                },
            },
            Field::User => match value {
                FieldValue::Integer(n) => if 0 <= n && n <= 0xffff_ffff {
                    draft.parts.user = Some(n as u32);
                } else {
                    bad = true;
                },
                _ => {
                    bad = true;
                },
            },
            Field::Group => match value {
                FieldValue::Integer(n) => if 0 <= n && n <= 0xffff_ffff {
                    draft.parts.group = Some(n as u32);
                } else {
                    bad = true;
                },
                _ => {
                    bad = true;
                },
            },
            Field::Timeout => match value {
                FieldValue::Integer(n) => if 0 <= n && n <= 0xffff_ffff {
                    draft.timeout = Some(n as u32);
                } else {
                    bad = true;
                },
                _ => {
                    bad = true;
                },
            },
            Field::Image => {
                draft.image = Some(raw(value));
            },
            Field::Layers => {
                draft.parts.layers = Some(raw(value));
            },
            Field::AddedLayers => {
                draft.parts.added_layers = Some(raw(value));
            },
            Field::Environment => {
                draft.parts.environment = Some(raw(value));
            },
            Field::AddedEnvironment => {
                draft.parts.added_environment = Some(raw(value));
            },
            Field::Mounts => {
                draft.parts.mounts = Some(raw(value));
            },
            Field::AddedMounts => {
                draft.parts.added_mounts = Some(raw(value));
            },
        }
        if bad {
            proof {
                assert(!ok);
                lemma_first_bad(all, i as int);
            }
            return Err(invalid_value(&key, expected(field)));
        }
        assert(ok);
        i += 1;
    }
    proof {
        assert(all.take(i as int) =~= all);
        lemma_first_bad(all, i as int);
    }
    let timeout = match draft.timeout {
        Some(n) => Some(Timeout::new(n)),
        None => None,
    };
    let container = match draft.image {
        Some(image) => DirectiveContainer::Override(
            DirectiveContainerOverride { image, parts: draft.parts },
        ),
        None => DirectiveContainer::Accumulate(draft.parts),
    };
    Ok(
        Directive {
            filter: draft.filter,
            container,
            include_shared_libraries: draft.include_shared_libraries,
            timeout,
            ignore: draft.ignore,
        },
    )
}

/// What is made of a document once the parser has had its say.
pub open spec fn spec_parse(
    parsed: Result<Seq<(Seq<char>, FieldView)>, Seq<char>>,
    r: Result<Directive, String>,
) -> bool {
    match parsed {
        Err(message) => r is Err && r->Err_0@ == message,
        Ok(fields) => match r {
            Ok(d) => first_bad(fields) == fields.len() && directive_matches(fields, d),
            Err(message) => first_bad(fields) < fields.len() && Some(message@) == field_error(
                fields[first_bad(fields)].0,
                fields[first_bad(fields)].1,
            ),
        },
    }
}

/// Reads a directive from a document. What the parser finds wrong with the
/// document is the error; otherwise the keys of the document decide, as in
/// [`directive_from_fields`].
pub fn parse_directive(text: &str) -> (r: Result<Directive, String>)
    ensures
        spec_parse(toml_fields(text@), r),
{
    match parse_fields(text) {
        Ok(fields) => directive_from_fields(fields),
        Err(message) => Err(message),
    }
}

} // verus!
