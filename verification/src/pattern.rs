//! Regular expressions, as far as the worker's front ends use them.

use vstd::prelude::*;

verus! {

/// A compiled regular expression, as the regex engine holds it.
#[verifier::external_type_specification]
#[verifier::external_body]
pub struct ExRegex(regex::Regex);

/// Whether the regex engine accepts `pattern` as a regular expression of a
/// size it is willing to compile.
pub uninterp spec fn regex_compiles(pattern: Seq<char>) -> bool;

/// Whether the regular expression `pattern` has a match anywhere in `haystack`.
pub uninterp spec fn regex_finds(pattern: Seq<char>, haystack: Seq<char>) -> bool;

/// A regular expression together with the text it was compiled from.
pub struct Matcher {
    source: String,
    regex: regex::Regex,
}

impl Matcher {
    /// The text of the regular expression.
    pub closed spec fn pattern(&self) -> Seq<char> {
        self.source@
    }

    /// Compiles `pattern`.
    ///
    /// Trusted: this is `regex::Regex::new`, which returns an error for a
    /// pattern that is invalid or too large and a compiled expression
    /// otherwise. The expression is kept with the text it came from.
    #[verifier::external_body]
    pub(crate) fn compile(pattern: &str) -> (r: Option<Matcher>)
        ensures
            r is Some == regex_compiles(pattern@),
            r matches Some(m) ==> m.pattern() == pattern@,
    {
        match regex::Regex::new(pattern) {
            Ok(regex) => Some(Matcher { source: pattern.to_string(), regex }),
            Err(_) => None,
        }
    }

    /// Whether the expression has a match anywhere in `haystack`.
    ///
    /// Trusted: this is `regex::Regex::is_match`, which returns true if and
    /// only if there is a match for the expression anywhere in the haystack.
    #[verifier::external_body]
    pub(crate) fn is_match(&self, haystack: &str) -> (b: bool)
        ensures
            b == regex_finds(self.pattern(), haystack@),
    {
        self.regex.is_match(haystack)
    }
}

} // verus!
