//! Regular expressions of routes, compiled and matched by the `regex`
//! crate.
//!
//! A compiled pattern keeps the text it was compiled from; it can only be
//! made by [`compile_pattern`], so the text always names the compiled
//! expression.

use vstd::prelude::*;

verus! {

/// The outcome of `regex::Regex::new` on a pattern: `None` when it
/// compiles, else the text of the error.
pub uninterp spec fn regex_compile_error(pattern: Seq<char>) -> Option<Seq<char>>;

/// Whether the expression compiled from `pattern` matches somewhere in
/// `text`, as `regex::Regex::is_match` decides.
pub uninterp spec fn regex_is_match(pattern: Seq<char>, text: Seq<char>) -> bool;

#[verifier::external_type_specification]
#[verifier::external_body]
pub struct ExRegex(regex::Regex);

/// A compiled regular expression with the pattern it was compiled from.
pub struct CompiledPattern {
    pattern: String,
    regex: regex::Regex,
}

impl CompiledPattern {
    /// The pattern this expression was compiled from.
    pub closed spec fn source(&self) -> Seq<char> {
        self.pattern@
    }
}

/// Compiles `pattern` with `regex::Regex::new`.
///
/// Trusted: the result is `Ok` exactly when the crate accepts the pattern,
/// and an error carries the text of the crate's error.
#[verifier::external_body]
pub(crate) fn compile_pattern(pattern: &str) -> (r: Result<CompiledPattern, String>)
    ensures
        match r {
            Ok(c) => regex_compile_error(pattern@) is None && c.source() == pattern@,
            Err(m) => regex_compile_error(pattern@) == Some(m@),
        },
{
    match regex::Regex::new(pattern) {
        Ok(regex) => Ok(CompiledPattern { pattern: pattern.to_string(), regex }),
        Err(e) => Err(e.to_string()),
    }
}

/// Whether `c` matches somewhere in `text`, by `regex::Regex::is_match`.
///
/// Trusted: the answer is the crate's, named over the pattern and the text.
#[verifier::external_body]
pub(crate) fn pattern_matches(c: &CompiledPattern, text: &str) -> (r: bool)
    ensures
        r == regex_is_match(c.source(), text@),
{
    c.regex.is_match(text)
}

/// Whether `pattern` compiles and matches somewhere in `text`.
pub fn matches_pattern(pattern: &str, text: &str) -> (r: bool)
    ensures
        r == (regex_compile_error(pattern@) is None && regex_is_match(pattern@, text@)),
{
    match compile_pattern(pattern) {
        Ok(c) => pattern_matches(&c, text),
        Err(_) => false,
    }
}

} // verus!
