//! Regular-expression matching through the `regex` crate.
//!
//! What a pattern matches is the `regex` crate's business; this module
//! names it (`regex_compiles`, `regex_is_match`) and keeps, in
//! [`Pattern`], a compiled regex together with the source it came from.

use vstd::prelude::*;

verus! {

#[verifier::external_type_specification]
#[verifier::external_body]
pub struct ExRegex(regex::Regex);

/// Whether `regex::Regex::new` accepts the pattern `p` (it refuses an
/// invalid pattern, and one whose compiled form exceeds the default size
/// limit).
pub uninterp spec fn regex_compiles(p: Seq<char>) -> bool;

/// Whether the regex compiled from `p` matches somewhere in `t`
/// (`regex::Regex::is_match`).
pub uninterp spec fn regex_is_match(p: Seq<char>, t: Seq<char>) -> bool;

/// A regex compiled from `source`. The fields are private and the only
/// place that builds one is [`compile_pattern`], which stores what
/// `regex::Regex::new(source)` returned beside `source`.
pub struct Pattern {
    source: Ghost<Seq<char>>,
    compiled: regex::Regex,
}

/// `regex::Regex::new`: `Some` exactly when the pattern compiles, and then
/// the pattern holds the regex compiled from `source`, recorded with
/// `source` as its source.
#[verifier::external_body]
fn compile_pattern(source: &str) -> (r: Option<Pattern>)
    ensures
        r.is_some() == regex_compiles(source@),
        r matches Some(p) ==> p.source() == source@,
{
    match regex::Regex::new(source) {
        Ok(re) => Some(Pattern { source: Ghost(source@), compiled: re }),
        Err(_) => None,
    }
}

impl Pattern {
    /// The pattern text this regex was compiled from.
    pub closed spec fn source(&self) -> Seq<char> {
        self.source@
    }

    /// Compiles `source`; `None` where the `regex` crate refuses it.
    pub fn compile(source: &str) -> (r: Option<Pattern>)
        ensures
            r.is_some() == regex_compiles(source@),
            r matches Some(p) ==> p.source() == source@,
    {
        compile_pattern(source)
    }

    /// `regex::Regex::is_match`: whether the regex matches somewhere in
    /// `text`.
    #[verifier::external_body]
    pub fn is_match(&self, text: &str) -> (b: bool)
        ensures
            b == regex_is_match(self.source(), text@),
    {
        self.compiled.is_match(text)
    }
}

/// `p` compiles and matches somewhere in `t`.
pub open spec fn pattern_hits(p: Seq<char>, t: Seq<char>) -> bool {
    regex_compiles(p) && regex_is_match(p, t)
}

/// Compiles `source` and tests it against `text`. A pattern that does not
/// compile matches nothing.
pub fn pattern_matches(source: &str, text: &str) -> (b: bool)
    ensures
        b == pattern_hits(source@, text@),
{
    match Pattern::compile(source) {
        Some(p) => p.is_match(text),
        None => false,
    }
}

} // verus!
