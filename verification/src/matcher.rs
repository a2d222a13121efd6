//! Pattern matchers for the lexical classifier.
//!
//! The classifier needs two boolean predicates over text fragments: a
//! "looks like a numeric literal" matcher and a "looks like a function
//! name" matcher. A `Matcher` packages a compiled regular expression
//! together with the pattern text it was compiled from; at the
//! specification level, what it accepts is the uninterpreted relation
//! `pattern_matches` between the pattern text and the fragment.

use vstd::prelude::*;

verus! {

/// Whether the regular expression written `pattern` matches somewhere
/// inside `text`. The regular-expression language is the one the regex
/// engine implements; for a given pattern and text the answer is fixed.
pub uninterp spec fn pattern_matches(pattern: Seq<char>, text: Seq<char>) -> bool;

/// Whether `pattern` is a well-formed regular expression, i.e. whether
/// compiling it succeeds. For a given pattern the answer is fixed.
pub uninterp spec fn pattern_compiles(pattern: Seq<char>) -> bool;

#[verifier::external_type_specification]
#[verifier::external_body]
pub struct ExRegex(regex::Regex);

/// A compiled pattern matcher: a pure predicate over text fragments.
///
/// The `compiled` field is always the successful compilation of the
/// `pattern` field; `compile` below is the only place a `Matcher` is
/// built, and nothing mutates one afterwards.
pub struct Matcher {
    pattern: String,
    compiled: regex::Regex,
}

/// Relies on `regex::Regex::new`: whether a pattern compiles depends on
/// the pattern text alone.
#[verifier::external_body]
fn regex_compile(pattern: &str) -> (r: Option<regex::Regex>)
    ensures
        r is Some <==> pattern_compiles(pattern@),
{
    regex::Regex::new(pattern).ok()
}

/// Relies on `regex::Regex::is_match`: whether a compiled regular
/// expression matches somewhere in `text` depends only on the pattern
/// it was compiled from and on `text`. The `compiled` field of a
/// `Matcher` is always the compilation of its `pattern` field.
#[verifier::external_body]
fn regex_is_match(m: &Matcher, text: &str) -> (r: bool)
    ensures
        r == pattern_matches(m.pattern_view(), text@),
{
    m.compiled.is_match(text)
}

impl Matcher {
    /// The pattern text this matcher was compiled from.
    pub closed spec fn pattern_view(&self) -> Seq<char> {
        self.pattern@
    }

    /// Compiles `pattern` into a matcher; `None` when the pattern is
    /// not a well-formed regular expression.
    pub fn compile(pattern: String) -> (r: Option<Matcher>)
        ensures
            r is Some <==> pattern_compiles(pattern@),
            r matches Some(m) ==> m.pattern_view() == pattern@,
    {
        match regex_compile(pattern.as_str()) {
            Some(compiled) => Some(Matcher { pattern, compiled }),
            None => None,
        }
    }

    /// Whether this matcher accepts the fragment `text`.
    pub fn is_match(&self, text: &str) -> (r: bool)
        ensures
            r == pattern_matches(self.pattern_view(), text@),
    {
        regex_is_match(self, text)
    }
}

} // verus!
