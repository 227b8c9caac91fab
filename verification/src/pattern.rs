//! Regular expressions over text, through the `regex` crate.
use vstd::prelude::*;

verus! {

/// The `regex` crate's compiled regular expression, carried opaquely.
#[verifier::external_type_specification]
#[verifier::external_body]
pub struct ExRegex(regex::Regex);

/// The `regex` crate's compilation error, carried opaquely.
#[verifier::external_type_specification]
#[verifier::external_body]
pub struct ExRegexError(regex::Error);

/// Whether `regex::Regex::new` accepts `pattern` (valid syntax, within the
/// default size limit).
pub uninterp spec fn regex_compiles(pattern: Seq<char>) -> bool;

/// Whether the regular expression `pattern` matches anywhere in `haystack`,
/// as `regex::Regex::is_match` decides it.
pub uninterp spec fn regex_matches(pattern: Seq<char>, haystack: Seq<char>) -> bool;

/// A compiled regular expression together with the text it was compiled from.
pub struct Pattern {
    source: String,
    compiled: regex::Regex,
}

/// Why a pattern could not be compiled.
#[derive(Debug, Clone, Copy, PartialEq, Eq)]
pub enum PatternError {
    /// `regex::Regex::new` refused the pattern.
    Invalid,
}

/// Calls `regex::Regex::new` on `pattern`. It claims that the call succeeds
/// exactly when `regex_compiles(pattern)` holds, and keeps the pattern's text
/// beside the compiled expression, so that `Pattern::source` always names the
/// text that `Pattern::compiled` was built from.
#[verifier::external_body]
fn regex_new(pattern: &str) -> (r: Result<Pattern, regex::Error>)
    ensures
        r is Ok <==> regex_compiles(pattern@),
        r matches Ok(p) ==> p.source@ == pattern@,
{
    regex::Regex::new(pattern).map(|compiled| Pattern { source: pattern.to_string(), compiled })
}

/// Calls `regex::Regex::is_match` on the compiled expression of `p`. It
/// claims that the answer is `regex_matches` of the text that `p` was compiled
/// from and of `haystack`: every `Pattern` is built by `regex_new` or copied
/// whole by `regex_clone`, so `compiled` always comes from `source`.
#[verifier::external_body]
fn regex_is_match(p: &Pattern, haystack: &str) -> (b: bool)
    ensures
        b == regex_matches(p.source@, haystack@),
{
    p.compiled.is_match(haystack)
}

/// Calls `Clone::clone` on the compiled `regex::Regex` of `p` and on its
/// text. It claims that the copy carries the same text; the copied
/// expression is `p`'s own, so it still comes from that text.
#[verifier::external_body]
fn regex_clone(p: &Pattern) -> (r: Pattern)
    ensures
        r.source@ == p.source@,
{
    Pattern { source: p.source.clone(), compiled: p.compiled.clone() }
}

impl Clone for Pattern {
    fn clone(&self) -> (r: Self)
        ensures
            r.text() == self.text(),
    {
        regex_clone(self)
    }
}

impl Pattern {
    /// The text this pattern was compiled from.
    pub closed spec fn text(&self) -> Seq<char> {
        self.source@
    }

    /// Compiles `pattern`; fails exactly when the `regex` crate refuses it.
    pub fn new(pattern: &str) -> (r: Result<Pattern, PatternError>)
        ensures
            r is Ok <==> regex_compiles(pattern@),
            r matches Ok(p) ==> p.text() == pattern@,
            r matches Err(e) ==> e == PatternError::Invalid,
    {
        match regex_new(pattern) {
            Ok(p) => Ok(p),
            Err(_) => Err(PatternError::Invalid),
        }
    }

    /// Whether this pattern matches anywhere in `haystack`.
    pub fn is_match(&self, haystack: &str) -> (b: bool)
        ensures
            b == regex_matches(self.text(), haystack@),
    {
        regex_is_match(self, haystack)
    }
}

} // verus!
