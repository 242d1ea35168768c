//! A compiled regular expression and the text it was compiled from, made
//! and searched only through the regex crate calls below.
use vstd::prelude::*;
use regex::Regex;

verus! {

#[verifier::external_type_specification]
#[verifier::external_body]
pub struct ExRegex(regex::Regex);

#[verifier::external_type_specification]
#[verifier::external_body]
pub struct ExRegexError(regex::Error);

/// Whether `regex::Regex::new` accepts this pattern text (it rejects syntax
/// errors and patterns whose compiled form exceeds the default size limit).
/// The size limit counts bytes of memory, so for a pattern at the very edge
/// of it the answer can differ between 32-bit and 64-bit targets; on one
/// target it depends on the pattern text alone.
pub uninterp spec fn regex_accepts(pattern: Seq<char>) -> bool;

/// For the regex compiled from `pattern`, the leftmost-first match in
/// `haystack`: `None` when there is no match, `Some(None)` when there is a
/// match in which capture group `group` does not take part (or the pattern
/// has no such group), and `Some(Some(g))` when that group matched the text `g`.
pub uninterp spec fn regex_group(pattern: Seq<char>, haystack: Seq<char>, group: usize) -> Option<Option<Seq<char>>>;

/// `part` stands in `whole` at some position.
pub open spec fn is_substring(part: Seq<char>, whole: Seq<char>) -> bool {
    exists|a: int, b: int| 0 <= a <= b <= whole.len() && #[trigger] whole.subrange(a, b) == part
}

/// A regex together with the pattern text it was compiled from. Only
/// `compile_regex` builds one.
pub struct CompiledRegex {
    source: String,
    regex: Regex,
}

impl CompiledRegex {
    /// The pattern text the regex was compiled from.
    pub closed spec fn source(&self) -> Seq<char> {
        self.source@
    }

    /// The pattern text the regex was compiled from.
    pub fn source_text(&self) -> (s: &str)
        ensures
            s@ == self.source(),
    {
        self.source.as_str()
    }
}

/// Calls `regex::Regex::new` and keeps the pattern text with the result.
/// Trusted: the call succeeds exactly on the patterns that `regex_accepts`
/// names, and the regex kept is the one compiled from `pattern`; nothing is
/// claimed about the error.
#[verifier::external_body]
pub(crate) fn compile_regex(pattern: &str) -> (r: Result<CompiledRegex, regex::Error>)
    ensures
        r is Ok <==> regex_accepts(pattern@),
        r matches Ok(c) ==> c.source() == pattern@,
{
    Regex::new(pattern).map(|regex| CompiledRegex { source: pattern.to_string(), regex })
}

/// Calls `regex::Regex::captures` and takes capture group `group` of the
/// match (`Captures::get`, `Match::as_str`) as an owned string. Trusted: the
/// result is what `regex_group` names for the pattern text, the haystack and
/// the group, and a group's text is a piece of the haystack, as
/// `Match::as_str` documents.
#[verifier::external_body]
pub(crate) fn capture_group(c: &CompiledRegex, haystack: &str, group: usize) -> (r: Option<Option<String>>)
    ensures
        match r {
            None => regex_group(c.source(), haystack@, group) == None::<Option<Seq<char>>>,
            Some(None) => regex_group(c.source(), haystack@, group) == Some(None::<Seq<char>>),
            Some(Some(g)) => regex_group(c.source(), haystack@, group) == Some(Some(g@))
                && is_substring(g@, haystack@),
        },
{
    c.regex.captures(haystack).map(|m| m.get(group).map(|g| g.as_str().to_string()))
}

} // verus!
