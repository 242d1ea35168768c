//! Log patterns: compiled regular expressions, known by their pattern text.
use vstd::prelude::*;
pub use crate::compiled::{is_substring, regex_accepts, regex_group};
use crate::compiled::{capture_group, compile_regex, CompiledRegex};

verus! {

/// A regular expression, known by the pattern text it was compiled from.
pub struct LogPattern {
    compiled: CompiledRegex,
}

impl View for LogPattern {
    type V = Seq<char>;

    /// The pattern text.
    closed spec fn view(&self) -> Seq<char> {
        self.compiled.source()
    }
}

impl LogPattern {
    /// Compiles `source`; fails exactly when the regex crate rejects it.
    pub fn new(source: &str) -> (r: Result<LogPattern, regex::Error>)
        ensures
            r is Ok <==> regex_accepts(source@),
            r matches Ok(p) ==> p@ == source@,
    {
        match compile_regex(source) {
            Ok(compiled) => Ok(LogPattern { compiled }),
            Err(e) => Err(e),
        }
    }

    /// The pattern text.
    pub fn as_str(&self) -> (s: &str)
        ensures
            s@ == self@,
    {
        self.compiled.source_text()
    }

    /// Group `group` of the first match in `haystack`, as `regex_group`
    /// names it; a group's text is a piece of the haystack.
    pub(crate) fn capture(&self, haystack: &str, group: usize) -> (r: Option<Option<String>>)
        ensures
            match r {
                None => regex_group(self@, haystack@, group) == None::<Option<Seq<char>>>,
                Some(None) => regex_group(self@, haystack@, group) == Some(None::<Seq<char>>),
                Some(Some(g)) => regex_group(self@, haystack@, group) == Some(Some(g@))
                    && is_substring(g@, haystack@),
            },
    {
        capture_group(&self.compiled, haystack, group)
    }
}

} // verus!
