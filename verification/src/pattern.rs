//! Regular expressions, compiled and run by the `regex` crate.

use regex::Regex;
use vstd::prelude::*;

verus! {

#[verifier::external_type_specification]
#[verifier::external_body]
pub struct ExRegex(Regex);

/// A regular expression compiled from its source text.
pub struct Pattern {
    regex: Regex,
    source: String,
}

impl View for Pattern {
    type V = Seq<char>;

    /// The source text the expression was compiled from.
    closed spec fn view(&self) -> Seq<char> {
        self.source@
    }
}

/// Whether `Regex::new(pattern)` succeeds.
pub uninterp spec fn spec_regex_compiles(pattern: Seq<char>) -> bool;

/// `Regex::is_match(text)` of the expression compiled from `pattern`.
pub uninterp spec fn spec_regex_is_match(pattern: Seq<char>, text: Seq<char>) -> bool;

/// `Regex::replace_all(text, rep)` of the expression compiled from `pattern`.
pub uninterp spec fn spec_regex_replace_all(
    pattern: Seq<char>,
    text: Seq<char>,
    rep: Seq<char>,
) -> Seq<char>;

/// Calls `Regex::new`. Claims the result is `Some` exactly where compiling
/// succeeds (`spec_regex_compiles`), and that it keeps the source text.
#[verifier::external_body]
pub(crate) fn compile_pattern(source: &str) -> (r: Option<Pattern>)
    ensures
        r is Some <==> spec_regex_compiles(source@),
        r matches Some(p) ==> p@ == source@,
{
    match Regex::new(source) {
        Ok(regex) => Some(Pattern { regex, source: source.to_string() }),
        Err(_) => None,
    }
}

impl Pattern {
    /// Calls `Regex::is_match`; claims the result is `spec_regex_is_match`
    /// of the source text and the haystack.
    #[verifier::external_body]
    pub(crate) fn is_match(&self, text: &str) -> (r: bool)
        ensures
            r == spec_regex_is_match(self@, text@),
    {
        self.regex.is_match(text)
    }

    /// Calls `Regex::replace_all` with a string replacement; claims the
    /// result is `spec_regex_replace_all` of the source text, the haystack
    /// and the replacement.
    #[verifier::external_body]
    pub(crate) fn replace_all(&self, text: &str, rep: &str) -> (r: String)
        ensures
            r@ == spec_regex_replace_all(self@, text@, rep@),
    {
        self.regex.replace_all(text, rep).into_owned()
    }
}

} // verus!
