//! Regular expressions of the filter language, kept with their source text.
use vstd::prelude::*;

verus! {

#[verifier::external_type_specification]
#[verifier::external_body]
pub struct ExRegex(regex::bytes::Regex);

#[verifier::external_type_specification]
#[verifier::external_body]
pub struct ExRegexError(regex::Error);

/// Whether the regex crate accepts `source` (read as UTF-8) as a regular expression.
pub uninterp spec fn regex_accepts(source: Seq<u8>) -> bool;

/// Whether the regular expression `source` matches somewhere in `text`.
pub uninterp spec fn regex_finds(source: Seq<u8>, text: Seq<u8>) -> bool;

/// A compiled regular expression and the text it was compiled from.
#[derive(Debug)]
pub struct Pattern {
    source: Vec<u8>,
    compiled: regex::bytes::Regex,
}

impl Pattern {
    pub closed spec fn source(&self) -> Seq<u8> {
        self.source@
    }

    /// Compiles `source`; fails exactly where the regex crate rejects it.
    pub fn new(source: Vec<u8>) -> (r: Result<Pattern, regex::Error>)
        ensures
            r is Ok <==> regex_accepts(source@),
            r matches Ok(p) ==> p.source() == source@,
    {
        compile_regex(source)
    }

    /// The text the expression was compiled from.
    pub fn as_bytes(&self) -> (r: &Vec<u8>)
        ensures
            r@ == self.source(),
    {
        &self.source
    }

    /// Whether the expression matches somewhere in `text`.
    pub fn is_match(&self, text: &[u8]) -> (r: bool)
        ensures
            r == regex_finds(self.source(), text@),
    {
        regex_is_match(self, text)
    }

    /// A second handle on the same expression.
    pub fn duplicate(&self) -> (r: Pattern)
        ensures
            r.source() == self.source(),
    {
        regex_clone(self)
    }
}

/// Relies on `regex::bytes::Regex::new`, which succeeds exactly on the patterns that it
/// accepts; the pattern is kept beside the compiled expression.
#[verifier::external_body]
fn compile_regex(source: Vec<u8>) -> (r: Result<Pattern, regex::Error>)
    ensures
        r is Ok <==> regex_accepts(source@),
        r matches Ok(p) ==> p.source() == source@,
{
    let compiled = regex::bytes::Regex::new(&String::from_utf8_lossy(&source))?;
    Ok(Pattern { source, compiled })
}

/// Relies on `regex::bytes::Regex::is_match`: whether the expression that `p` was compiled
/// from matches somewhere in `text`.
#[verifier::external_body]
fn regex_is_match(p: &Pattern, text: &[u8]) -> (r: bool)
    ensures
        r == regex_finds(p.source(), text@),
{
    p.compiled.is_match(text)
}

/// Relies on `regex::bytes::Regex::clone`: the copy is the same expression.
#[verifier::external_body]
fn regex_clone(p: &Pattern) -> (r: Pattern)
    ensures
        r.source() == p.source(),
{
    Pattern { source: p.source.clone(), compiled: p.compiled.clone() }
}

} // verus!
