//! The follow pattern: which discovered links the crawl may go on to.

use regex_lite::Regex;
use vstd::prelude::*;

verus! {

#[verifier::external_type_specification]
#[verifier::external_body]
pub struct ExRegex(regex_lite::Regex);

/// A compiled follow pattern, together with the text it was compiled from.
///
/// The fields are private and `FollowPattern::compile` is the only way to
/// make a value, so the program is always the one compiled from the source.
pub struct FollowPattern {
    source: String,
    program: Regex,
}

impl View for FollowPattern {
    type V = Seq<char>;

    /// The pattern's source text.
    closed spec fn view(&self) -> Seq<char> {
        self.source@
    }
}

impl FollowPattern {
    /// Compiles a follow pattern. Where its syntax is invalid, the error
    /// is what the pattern compiler reported, as text.
    pub fn compile(source: &str) -> (compiled: Result<FollowPattern, String>)
        ensures
            compiled is Ok <==> pattern_is_valid(source@),
            compiled matches Ok(pattern) ==> pattern@ == source@,
    {
        compile_pattern(source)
    }

    /// Whether the pattern matches anywhere in `text`.
    pub fn accepts(&self, text: &str) -> (found: bool)
        ensures
            found == pattern_accepts(self@, text@),
    {
        pattern_matches(self, text)
    }

    /// The pattern's source text.
    pub fn source(&self) -> (text: &str)
        ensures
            text@ == self@,
    {
        self.source.as_str()
    }
}

/// Whether `regex_lite::Regex::new` accepts `source` as a pattern.
pub uninterp spec fn pattern_is_valid(source: Seq<char>) -> bool;

/// Whether the pattern compiled from `source` matches anywhere in `text`,
/// as `regex_lite::Regex::is_match` reports it.
pub uninterp spec fn pattern_accepts(source: Seq<char>, text: Seq<char>) -> bool;

/// Calls `regex_lite::Regex::new`, and keeps the source text beside the
/// compiled pattern. Where the pattern is refused, the error is handed out
/// as the text that its `Display` gives; nothing is claimed of that text.
#[verifier::external_body]
pub(crate) fn compile_pattern(source: &str) -> (compiled: Result<FollowPattern, String>)
    ensures
        compiled is Ok <==> pattern_is_valid(source@),
        compiled matches Ok(pattern) ==> pattern@ == source@,
{
    match Regex::new(source) {
        Ok(program) => Ok(FollowPattern { source: source.to_owned(), program }),
        Err(error) => Err(error.to_string()),
    }
}

/// Calls `regex_lite::Regex::is_match`: a match anywhere in `text` counts,
/// the pattern is not anchored.
#[verifier::external_body]
pub(crate) fn pattern_matches(pattern: &FollowPattern, text: &str) -> (found: bool)
    ensures
        found == pattern_accepts(pattern@, text@),
{
    pattern.program.is_match(text)
}

} // verus!
