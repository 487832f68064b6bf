//! Searching the lines of a program's output.

use crate::text::starts_with;
use vstd::prelude::*;

verus! {

/// What a line is tested for.
pub enum LineRule {
    /// The line is this text.
    Equals(Seq<char>),
    /// The line begins with this text.
    StartsWith(Seq<char>),
    /// The line is not empty.
    NonEmpty,
}

impl LineRule {
    /// Whether `line` passes the test.
    pub open spec fn accepts(self, line: Seq<char>) -> bool {
        match self {
            LineRule::Equals(text) => line == text,
            LineRule::StartsWith(prefix) => prefix.is_prefix_of(line),
            LineRule::NonEmpty => line.len() > 0,
        }
    }
}

/// A test for lines, ready to be applied.
pub enum LineTest {
    Equals(String),
    StartsWith(String),
    NonEmpty,
}

impl View for LineTest {
    type V = LineRule;

    open spec fn view(&self) -> LineRule {
        match self {
            LineTest::Equals(text) => LineRule::Equals(text@),
            LineTest::StartsWith(prefix) => LineRule::StartsWith(prefix@),
            LineTest::NonEmpty => LineRule::NonEmpty,
        }
    }
}

impl LineTest {
    /// Whether `line` passes the test.
    pub fn accepts(&self, line: &String) -> (b: bool)
        ensures
            b == self@.accepts(line@),
    {
        match self {
            LineTest::Equals(text) => *line == *text,
            LineTest::StartsWith(prefix) => starts_with(line.as_str(), prefix.as_str()),
            LineTest::NonEmpty => !line.as_str().is_empty(),
        }
    }
}

/// The lines as texts.
pub open spec fn texts(lines: Seq<String>) -> Seq<Seq<char>> {
    lines.map_values(|s: String| s@)
}

/// The position of the first line that passes; the number of lines if none does.
pub open spec fn first_where(lines: Seq<Seq<char>>, rule: LineRule) -> int
    decreases lines.len(),
{
    if lines.len() == 0 {
        0
    } else if rule.accepts(lines[0]) {
        0
    } else {
        1 + first_where(lines.drop_first(), rule)
    }
}

/// The position of the last line that passes; -1 if none does.
pub open spec fn last_where(lines: Seq<Seq<char>>, rule: LineRule) -> int
    decreases lines.len(),
{
    if lines.len() == 0 {
        -1
    } else if rule.accepts(lines.last()) {
        lines.len() - 1
    } else {
        last_where(lines.drop_last(), rule)
    }
}

/// A line that passes and before which none passes is the first.
pub proof fn lemma_first_where_is(lines: Seq<Seq<char>>, rule: LineRule, i: int)
    requires
        0 <= i <= lines.len(),
        i < lines.len() ==> rule.accepts(lines[i]),
        forall|k: int| 0 <= k < i ==> !rule.accepts(lines[k]),
    ensures
        first_where(lines, rule) == i,
    decreases lines.len(),
{
    if lines.len() > 0 && i > 0 {
        let rest = lines.drop_first();
        assert forall|k: int| 0 <= k < i - 1 implies !rule.accepts(rest[k]) by {
            assert(rest[k] == lines[k + 1]);
        }
        lemma_first_where_is(rest, rule, i - 1);
    }
}

/// A line that passes and after which none passes is the last.
pub proof fn lemma_last_where_is(lines: Seq<Seq<char>>, rule: LineRule, i: int)
    requires
        -1 <= i < lines.len(),
        i >= 0 ==> rule.accepts(lines[i]),
        forall|k: int| i < k < lines.len() ==> !rule.accepts(lines[k]),
    ensures
        last_where(lines, rule) == i,
    decreases lines.len(),
{
    if lines.len() > 0 && i < lines.len() - 1 {
        let init = lines.drop_last();
        assert forall|k: int| i < k < init.len() implies !rule.accepts(init[k]) by {
            assert(init[k] == lines[k]);
        }
        lemma_last_where_is(init, rule, i);
    }
}

/// Finds the first line that passes `test`.
pub fn position(lines: &Vec<String>, test: &LineTest) -> (r: Option<usize>)
    ensures
        match r {
            Some(i) => i < lines@.len() && i == first_where(texts(lines@), test@),
            None => first_where(texts(lines@), test@) == lines@.len(),
        },
{
    let mut i: usize = 0;
    while i < lines.len()
        invariant
            i <= lines@.len(),
            forall|k: int| 0 <= k < i ==> !test@.accepts(texts(lines@)[k]),
        decreases lines@.len() - i,
    {
        if test.accepts(&lines[i]) {
            proof {
                lemma_first_where_is(texts(lines@), test@, i as int);
            }
            return Some(i);
        }
        i += 1;
    }
    proof {
        lemma_first_where_is(texts(lines@), test@, i as int);
    }
    None
}

/// Finds the last line that passes `test`.
pub fn rposition(lines: &Vec<String>, test: &LineTest) -> (r: Option<usize>)
    ensures
        match r {
            Some(i) => i < lines@.len() && i == last_where(texts(lines@), test@),
            None => last_where(texts(lines@), test@) == -1,
        },
{
    let mut i: usize = lines.len();
    while i > 0
        invariant
            i <= lines@.len(),
            forall|k: int| i <= k < lines@.len() ==> !test@.accepts(texts(lines@)[k]),
        decreases i,
    {
        i -= 1;
        if test.accepts(&lines[i]) {
            proof {
                lemma_last_where_is(texts(lines@), test@, i as int);
            }
            return Some(i);
        }
    }
    proof {
        lemma_last_where_is(texts(lines@), test@, -1);
    }
    None
}

/// The lines after the first that passes `rule`; all of them if none passes.
pub open spec fn after_first(lines: Seq<Seq<char>>, rule: LineRule) -> Seq<Seq<char>> {
    let i = first_where(lines, rule);
    if i < lines.len() {
        lines.skip(i + 1)
    } else {
        lines
    }
}

/// The lines before the last that passes `rule`; all of them if none passes.
pub open spec fn before_last(lines: Seq<Seq<char>>, rule: LineRule) -> Seq<Seq<char>> {
    let i = last_where(lines, rule);
    if i >= 0 {
        lines.take(i)
    } else {
        lines
    }
}

/// Drops the first line that passes `test` and all before it.
pub fn drop_through_first(lines: Vec<String>, test: &LineTest) -> (rest: Vec<String>)
    ensures
        texts(rest@) == after_first(texts(lines@), test@),
{
    let count = lines.len();
    match position(&lines, test) {
        Some(i) => {
            assert(i < count);
            let mut head = lines;
            let rest = head.split_off(i + 1);
            assert(texts(rest@) =~= texts(lines@).skip(i as int + 1));
            rest
        },
        None => lines,
    }
}

/// Drops the last line that passes `test` and all after it.
pub fn drop_from_last(lines: Vec<String>, test: &LineTest) -> (rest: Vec<String>)
    ensures
        texts(rest@) == before_last(texts(lines@), test@),
{
    match rposition(&lines, test) {
        Some(i) => {
            let mut rest = lines;
            rest.truncate(i);
            assert(texts(rest@) =~= texts(lines@).take(i as int));
            rest
        },
        None => lines,
    }
}

} // verus!
