//! Regular-expression matching through the `regex` crate.

use regex::Regex;
use vstd::prelude::*;

verus! {

/// `regex::Regex`, carried opaquely.
#[verifier::external_type_specification]
#[verifier::external_body]
pub struct ExRegex(Regex);

/// `regex::Error`, carried opaquely.
#[verifier::external_type_specification]
#[verifier::external_body]
pub struct ExRegexError(regex::Error);

/// Whether `regex::Regex::new` accepts `pattern`.
pub uninterp spec fn regex_compiles(pattern: Seq<char>) -> bool;

/// The text of capture group `group` in the leftmost-first match of `pattern`
/// in `haystack`, as `regex::Regex::captures` and `Captures::get` find it;
/// `None` where there is no match or the group takes no part in it.
pub uninterp spec fn regex_group(pattern: Seq<char>, haystack: Seq<char>, group: nat) -> Option<
    Seq<char>,
>;

/// Calls `regex::Regex::new` on `pattern`. Claims that it succeeds exactly
/// when `regex_compiles(pattern)` holds; nothing is claimed of the compiled
/// value beyond what `captures_group` claims of its use.
#[verifier::external_body]
fn compile(pattern: &str) -> (r: Result<Regex, regex::Error>)
    ensures
        r is Ok <==> regex_compiles(pattern@),
{
    Regex::new(pattern)
}

/// A compiled regular expression together with its source text.
pub struct Pattern {
    source: String,
    re: Regex,
}

impl Pattern {
    /// The source text the expression was compiled from.
    pub closed spec fn source(&self) -> Seq<char> {
        self.source@
    }

    /// Compiles `pattern`; `None` where `regex` refuses it.
    pub fn new(pattern: &str) -> (r: Option<Pattern>)
        ensures
            r is Some <==> regex_compiles(pattern@),
            r matches Some(p) ==> p.source() == pattern@,
    {
        match compile(pattern) {
            Ok(re) => Some(Pattern { source: pattern.to_owned(), re }),
            Err(_) => None,
        }
    }
}

/// Calls `regex::Regex::captures` on `haystack` with the expression of
/// `pattern`, then `Captures::get` with `group`, and returns the group's text.
/// Claims that the result is `regex_group(source, haystack, group)`, where
/// `source` is the text the expression was compiled from (a `Pattern` is only
/// made by `Pattern::new`, which keeps both together).
#[verifier::external_body]
pub(crate) fn captures_group(pattern: &Pattern, haystack: &str, group: usize) -> (r: Option<String>)
    ensures
        match r {
            Some(text) => regex_group(pattern.source(), haystack@, group as nat) == Some(text@),
            None => regex_group(pattern.source(), haystack@, group as nat) is None,
        },
{
    match pattern.re.captures(haystack) {
        Some(caps) => match caps.get(group) {
            Some(m) => Some(m.as_str().to_string()),
            None => None,
        },
        None => None,
    }
}

} // verus!
