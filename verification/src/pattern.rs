//! Regular expressions.
//!
//! What an expression matches is left to the `regex` crate: the three names
//! below stand for what it answers.
use vstd::prelude::*;

verus! {

/// A compiled regular expression.
#[verifier::external_type_specification]
#[verifier::external_body]
pub struct ExRegex(regex::Regex);

/// Why a regular expression does not compile, if it does not.
pub uninterp spec fn pattern_error(source: Seq<char>) -> Option<Seq<char>>;

/// Whether a regular expression matches somewhere in a text.
pub uninterp spec fn pattern_matches(source: Seq<char>, text: Seq<char>) -> bool;

/// The source from which a regular expression was compiled.
pub uninterp spec fn pattern_source(compiled: regex::Regex) -> Seq<char>;

/// `regex::Regex::new`. It compiles its argument, or returns an error whose
/// text depends on the argument alone; what was compiled has the argument as
/// its source.
#[verifier::external_body]
fn new_regex(source: &str) -> (r: Result<regex::Regex, String>)
    ensures
        match r {
            Ok(compiled) => pattern_error(source@) is None && pattern_source(compiled) == source@,
            Err(text) => pattern_error(source@) == Some(text@),
        },
{
    regex::Regex::new(source).map_err(|e| e.to_string())
}

/// `regex::Regex::is_match`. The answer depends on the source of the
/// expression and on the text alone.
#[verifier::external_body]
fn is_match(compiled: &regex::Regex, text: &str) -> (r: bool)
    ensures
        r == pattern_matches(pattern_source(*compiled), text@),
{
    compiled.is_match(text)
}

/// A regular expression, ready for use.
pub struct Pattern {
    compiled: regex::Regex,
}

impl View for Pattern {
    type V = Seq<char>;

    /// The source of the expression.
    closed spec fn view(&self) -> Seq<char> {
        pattern_source(self.compiled)
    }
}

impl Pattern {
    /// Compiles a regular expression, or says why it cannot be compiled.
    pub fn compile(source: &str) -> (r: Result<Pattern, String>)
        ensures
            match r {
                Ok(pattern) => pattern_error(source@) is None && pattern@ == source@,
                Err(text) => pattern_error(source@) == Some(text@),
            },
    {
        match new_regex(source) {
            Ok(compiled) => Ok(Pattern { compiled }),
            Err(text) => Err(text),
        }
    }

    /// Whether the expression matches somewhere in `text`.
    pub fn matches(&self, text: &str) -> (r: bool)
        ensures
            r == pattern_matches(self@, text@),
    {
        is_match(&self.compiled, text)
    }
}

} // verus!
