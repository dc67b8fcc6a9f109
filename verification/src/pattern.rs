//! Regular-expression patterns, as the `regex` crate understands them.
//!
//! A [`Pattern`] holds the source text of an expression that is known to
//! compile. What the `regex` crate decides (whether a source compiles, whether
//! a compiled expression finds a match in a text) is not modelled here: both
//! answers are named by uninterpreted functions, and the contracts of this
//! crate speak of those names.

use vstd::prelude::*;

verus! {

/// Whether `regex::Regex::new` accepts `source`.
pub uninterp spec fn pattern_compiles(source: Seq<char>) -> bool;

/// Whether the expression that `regex::Regex::new` compiles from `source`
/// finds a match anywhere in `text`. Meaningful only where
/// `pattern_compiles(source)` holds.
pub uninterp spec fn pattern_matches(source: Seq<char>, text: Seq<char>) -> bool;

/// The error type of the `regex` crate, carried through unread.
#[verifier::external_type_specification]
#[verifier::external_body]
pub struct ExRegexError(regex::Error);

/// Trusted: calls `regex::Regex::new` and drops the compiled expression.
/// The contract only names the outcome: the call succeeds exactly when
/// `pattern_compiles` holds of the source. Compilation reads nothing but the
/// source text and the crate's fixed default limits.
#[verifier::external_body]
fn try_compile(source: &str) -> (outcome: Result<(), regex::Error>)
    ensures
        outcome is Ok <==> pattern_compiles(source@),
{
    match regex::Regex::new(source) {
        Ok(_) => Ok(()),
        Err(e) => Err(e),
    }
}

/// Trusted: compiles `source` with `regex::Regex::new` and calls
/// `regex::Regex::is_match` on `text`. The precondition keeps out the sources
/// on which compilation fails; the contract names the answer, which depends on
/// the two texts alone.
#[verifier::external_body]
fn search(source: &str, text: &str) -> (found: bool)
    requires
        pattern_compiles(source@),
    ensures
        found == pattern_matches(source@, text@),
{
    match regex::Regex::new(source) {
        Ok(compiled) => compiled.is_match(text),
        Err(_) => false,
    }
}

/// Why a pattern was refused.
#[derive(Clone, Copy, Debug, PartialEq, Eq, Structural)]
pub enum PatternError {
    /// The source text is not an expression that compiles.
    DoesNotCompile,
}

/// The source text of a regular expression that compiles.
#[derive(Debug)]
pub struct Pattern {
    source: String,
}

impl View for Pattern {
    type V = Seq<char>;

    /// The source text of the expression.
    closed spec fn view(&self) -> Seq<char> {
        self.source@
    }
}

impl Clone for Pattern {
    fn clone(&self) -> (copy: Pattern)
        ensures
            copy@ == self@,
    {
        proof {
            use_type_invariant(self);
        }
        Pattern { source: self.source.clone() }
    }
}

impl Pattern {
    #[verifier::type_invariant]
    spec fn compiles(self) -> bool {
        pattern_compiles(self.source@)
    }

    /// Accepts `source` if it compiles, and refuses it otherwise.
    pub fn new(source: &str) -> (made: Result<Pattern, PatternError>)
        ensures
            made is Ok <==> pattern_compiles(source@),
            made matches Ok(p) ==> p@ == source@,
            made matches Err(e) ==> e == PatternError::DoesNotCompile,
    {
        match try_compile(source) {
            Ok(_) => Ok(Pattern { source: source.to_owned() }),
            Err(_) => Err(PatternError::DoesNotCompile),
        }
    }

    /// The source text.
    pub fn as_str(&self) -> (source: &str)
        ensures
            source@ == self@,
    {
        self.source.as_str()
    }

    /// Whether the expression finds a match anywhere in `text`.
    ///
    /// A pattern keeps its source text only, so each search compiles the
    /// expression again.
    pub fn is_match(&self, text: &str) -> (found: bool)
        ensures
            found == pattern_matches(self@, text@),
    {
        proof {
            use_type_invariant(self);
        }
        search(self.source.as_str(), text)
    }
}

} // verus!
