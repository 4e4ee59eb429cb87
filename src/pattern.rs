//! Compiled regular expressions, through the `regex` crate.
//!
//! A `Pattern` keeps the source text it was compiled from next to the compiled
//! expression. Its fields are private and its one constructor compiles the
//! very text it stores, so the two always belong together.
use vstd::prelude::*;
use vstd::string::*;

use crate::error::ConfigError;

verus! {

#[verifier::external_type_specification]
#[verifier::external_body]
pub struct ExRegex(regex::Regex);

#[verifier::external_type_specification]
#[verifier::external_body]
pub struct ExRegexError(regex::Error);

/// Whether `source` compiles to a regular expression.
pub uninterp spec fn regex_compiles(source: Seq<char>) -> bool;

/// The leftmost-first match of the expression compiled from `source` in
/// `haystack`: the byte offset where it starts and the text it spans.
pub uninterp spec fn leftmost_match(source: Seq<char>, haystack: Seq<char>) -> Option<(int, Seq<char>)>;

/// The text that the expression compiled from `source` matches at the very
/// start of `haystack`, if its leftmost match starts there.
pub open spec fn anchored_match(source: Seq<char>, haystack: Seq<char>) -> Option<Seq<char>> {
    match leftmost_match(source, haystack) {
        Some(m) => if m.0 == 0 { Some(m.1) } else { None },
        None => None,
    }
}

/// Relies on `regex::Regex::new`: whether it succeeds depends on the source
/// text alone.
#[verifier::external_body]
fn compile_regex(source: &str) -> (r: Result<regex::Regex, regex::Error>)
    ensures
        r is Ok <==> regex_compiles(source@),
{
    regex::Regex::new(source)
}

/// Relies on `regex::Regex::find` (the leftmost-first match) and on
/// `regex::Match::start` and `regex::Match::as_str` (its byte offset and the
/// slice of the haystack it spans, so a match at offset 0 is a prefix).
#[verifier::external_body]
fn find_first(p: &Pattern, haystack: &str) -> (r: Option<(usize, String)>)
    ensures
        r matches Some(m) ==> leftmost_match(p@, haystack@) == Some((m.0 as int, m.1@)),
        r is None ==> leftmost_match(p@, haystack@) is None,
        r matches Some(m) ==> (m.0 == 0 ==> m.1@.is_prefix_of(haystack@)),
{
    match p.regex.find(haystack) {
        Some(m) => Some((m.start(), m.as_str().to_string())),
        None => None,
    }
}

/// A regular expression together with the source text it was compiled from.
#[derive(Debug)]
pub struct Pattern {
    source: String,
    regex: regex::Regex,
}

impl View for Pattern {
    type V = Seq<char>;

    closed spec fn view(&self) -> Seq<char> {
        self.source@
    }
}

impl Pattern {
    /// Compiles `source`; fails with `InvalidRegex(source)` when it does not
    /// compile.
    pub fn new(source: &str) -> (r: Result<Pattern, ConfigError>)
        ensures
            r is Ok <==> regex_compiles(source@),
            r matches Ok(p) ==> p@ == source@,
            r matches Err(e) ==> (e matches ConfigError::InvalidRegex(s) && s@ == source@),
    {
        match compile_regex(source) {
            Ok(regex) => Ok(Pattern { source: source.to_owned(), regex }),
            Err(_) => Err(ConfigError::InvalidRegex(source.to_owned())),
        }
    }

    /// The source text of the expression.
    pub fn as_str(&self) -> (r: &str)
        ensures
            r@ == self@,
    {
        self.source.as_str()
    }

    /// The text that the expression matches at the very start of `haystack`,
    /// if its leftmost match starts there; a match further on does not count.
    pub fn match_at_start(&self, haystack: &str) -> (r: Option<String>)
        ensures
            r.deep_view() == anchored_match(self@, haystack@),
            r matches Some(t) ==> t@.is_prefix_of(haystack@),
    {
        match find_first(self, haystack) {
            Some(m) => {
                if m.0 == 0 {
                    Some(m.1)
                } else {
                    None
                }
            },
            None => None,
        }
    }
}

} // verus!
