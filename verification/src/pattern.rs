//! Compiled pattern-language matchers and the search query.
//!
//! The pattern language itself is the `regex` crate's; its compiler and
//! matcher stand behind trusted wrappers whose results are named by the
//! uninterpreted functions below.
use crate::text::is_substring;
use vstd::prelude::*;

verus! {

#[verifier::external_type_specification]
#[verifier::external_body]
pub struct ExRegex(regex::Regex);

/// Whether the pattern text `src`, compiled with the case-insensitive and
/// multi-line options `ci` and `ml`, is accepted by the pattern compiler.
pub uninterp spec fn pattern_valid(src: Seq<char>, ci: bool, ml: bool) -> bool;

/// Whether the pattern `src`, compiled with options `ci` and `ml`, matches
/// somewhere inside `line`.
pub uninterp spec fn pattern_matches(src: Seq<char>, ci: bool, ml: bool, line: Seq<char>) -> bool;

/// A compiled pattern, remembering the text and options it was built from.
///
/// The only way to obtain one is `compile`, so `matcher` always is the
/// compilation of `source` under the two recorded options.
pub struct Pattern {
    source: String,
    case_insensitive: bool,
    multi_line: bool,
    matcher: regex::Regex,
}

impl Pattern {
    /// The pattern text this matcher was compiled from.
    pub closed spec fn src(self) -> Seq<char> {
        self.source@
    }

    /// Whether it was compiled case-insensitive.
    pub closed spec fn ci(self) -> bool {
        self.case_insensitive
    }

    /// Whether it was compiled multi-line.
    pub closed spec fn ml(self) -> bool {
        self.multi_line
    }

    /// Relies on `regex::RegexBuilder`: `build` succeeds exactly on
    /// well-formed pattern text (given the two options), and the regex it
    /// returns is a function of that text and those options.
    #[verifier::external_body]
    pub(crate) fn compile(src: &str, ci: bool, ml: bool) -> (r: Option<Pattern>)
        ensures
            r is Some <==> pattern_valid(src@, ci, ml),
            r matches Some(p) ==> p.src() == src@ && p.ci() == ci && p.ml() == ml,
    {
        let mut builder = regex::RegexBuilder::new(src);
        builder.case_insensitive(ci);
        builder.multi_line(ml);
        match builder.build() {
            Ok(matcher) => Some(Pattern {
                source: src.to_owned(),
                case_insensitive: ci,
                multi_line: ml,
                matcher,
            }),
            Err(_) => None,
        }
    }

    /// Relies on `regex::Regex::is_match`: whether the compiled pattern
    /// matches anywhere in `line`, a function of the pattern text, its
    /// options and the line alone.
    #[verifier::external_body]
    pub(crate) fn is_match(&self, line: &str) -> (r: bool)
        ensures
            r == pattern_matches(self.src(), self.ci(), self.ml(), line@),
    {
        self.matcher.is_match(line)
    }
}

/// What is searched for: a plain text fragment, or a compiled pattern.
pub enum Query {
    Literal(String),
    Pattern(Pattern),
}

/// Whether the query matches the line: substring containment for a literal,
/// a pattern-language match for a compiled pattern.
pub open spec fn query_matches(q: Query, line: Seq<char>) -> bool {
    match q {
        Query::Literal(t) => is_substring(t@, line),
        Query::Pattern(p) => pattern_matches(p.src(), p.ci(), p.ml(), line),
    }
}

impl Query {
    /// Tests one line against the query.
    pub fn matches(&self, line: &str) -> (r: bool)
        ensures
            r == query_matches(*self, line@),
    {
        match self {
            Query::Literal(t) => crate::text::contains_str(line, t.as_str()),
            Query::Pattern(p) => p.is_match(line),
        }
    }
}

} // verus!
