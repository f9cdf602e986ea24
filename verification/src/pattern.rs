//! Regular expressions, as the `regex` crate compiles and runs them.

use vstd::prelude::*;

verus! {

/// `regex::Regex`, a compiled regular expression: carried, never looked
/// into.
#[verifier::external_type_specification]
#[verifier::external_body]
pub struct ExRegex(regex::Regex);

/// `regex::Error`, why a text did not compile: carried, never looked into.
#[verifier::external_type_specification]
#[verifier::external_body]
pub struct ExRegexError(regex::Error);

/// Whether `pattern` compiles as a regular expression, as
/// `regex::Regex::new` decides: it is one, and it stays within the size
/// limit that the crate sets.
pub uninterp spec fn pattern_compiles(pattern: Seq<char>) -> bool;

/// Whether the regular expression written as `pattern` matches somewhere in
/// `text`, as `regex::Regex::is_match` finds.
pub uninterp spec fn pattern_matches(pattern: Seq<char>, text: Seq<char>) -> bool;

/// A compiled regular expression, kept with the text that it was compiled
/// from. Only `Pattern::compile` makes one.
pub struct Pattern {
    source: String,
    compiled: regex::Regex,
}

impl Pattern {
    /// The text that the expression was compiled from.
    pub closed spec fn source(&self) -> Seq<char> {
        self.source@
    }

    /// `regex::Regex::new`: compiles `source`, or fails where it is no
    /// regular expression or compiles to more than the crate's size limit.
    /// The contract names the texts that compile `pattern_compiles`, and
    /// claims that the compiled expression is kept with the text given.
    #[verifier::external_body]
    pub(crate) fn compile(source: &str) -> (r: Result<Pattern, regex::Error>)
        ensures
            r is Ok <==> pattern_compiles(source@),
            r is Ok ==> r->Ok_0.source() == source@,
    {
        match regex::Regex::new(source) {
            Ok(compiled) => Ok(Pattern { source: source.to_string(), compiled }),
            Err(e) => Err(e),
        }
    }

    /// `regex::Regex::is_match`: whether the expression matches somewhere in
    /// `text`. The contract names that answer `pattern_matches` of the
    /// expression's source and the text.
    #[verifier::external_body]
    pub(crate) fn is_match(&self, text: &str) -> (b: bool)
        ensures
            b == pattern_matches(self.source(), text@),
    {
        self.compiled.is_match(text)
    }
}

} // verus!
