//! Compiled prompt and pagination patterns.
//!
//! A [`Pattern`] pairs a regular expression compiled by the `regex` crate
//! with its source text. Contracts speak only of the source text, through
//! the named results [`regex_valid`], [`regex_matches`] and [`regex_strip`]:
//! matching and replacement are functions of the pattern text and the
//! haystack alone.

use vstd::prelude::*;

use crate::error::TelnetError;

verus! {

/// Whether `regex::Regex::new` accepts this pattern text.
pub uninterp spec fn regex_valid(pattern: Seq<char>) -> bool;

/// What `regex::Regex::is_match` returns for this pattern on this text.
pub uninterp spec fn regex_matches(pattern: Seq<char>, text: Seq<char>) -> bool;

/// What `regex::Regex::replace_all` with an empty replacement leaves of this
/// text: the text with every non-overlapping match of the pattern removed.
pub uninterp spec fn regex_strip(pattern: Seq<char>, text: Seq<char>) -> Seq<char>;

#[verifier::external_type_specification]
#[verifier::external_body]
pub struct ExRegex(regex::Regex);

#[verifier::external_type_specification]
#[verifier::external_body]
pub struct ExRegexError(regex::Error);

/// Relies on `regex::Regex::new`: whether a pattern compiles is a function
/// of the pattern text alone, named by [`regex_valid`].
pub assume_specification[ regex::Regex::new ](re: &str) -> (r: Result<
    regex::Regex,
    regex::Error,
>)
    ensures
        r is Ok <==> regex_valid(re@),
;

/// A compiled pattern together with its source text.
///
/// The `compiled` field always holds the compiled form of `source`: the
/// fields are private and [`Pattern::compile`] is the only constructor, so
/// the trusted methods below may state their results over the source text.
pub struct Pattern {
    source: String,
    compiled: regex::Regex,
}

impl View for Pattern {
    type V = Seq<char>;

    closed spec fn view(&self) -> Seq<char> {
        self.source@
    }
}

impl Pattern {
    /// Compile a pattern, surfacing a bad one as `PatternError` carrying its
    /// text.
    pub fn compile(source: &str) -> (r: Result<Pattern, TelnetError>)
        ensures
            r is Ok <==> regex_valid(source@),
            r matches Ok(p) ==> p@ == source@,
            r matches Err(e) ==> (e matches TelnetError::PatternError(s) && s@ == source@),
    {
        match regex::Regex::new(source) {
            Ok(compiled) => Ok(Pattern { source: source.to_owned(), compiled }),
            Err(_) => Err(TelnetError::PatternError(source.to_owned())),
        }
    }

    /// Relies on `regex::Regex::is_match`: whether the pattern matches
    /// anywhere in the text is a function of pattern and text alone, named
    /// by [`regex_matches`].
    #[verifier::external_body]
    pub fn is_match(&self, text: &str) -> (r: bool)
        ensures
            r == regex_matches(self@, text@),
    {
        self.compiled.is_match(text)
    }

    /// Relies on `regex::Regex::replace_all` with an empty replacement,
    /// named by [`regex_strip`]; its documentation says a haystack without a
    /// match is returned unchanged.
    #[verifier::external_body]
    pub fn strip_all(&self, text: &str) -> (r: String)
        ensures
            r@ == regex_strip(self@, text@),
            !regex_matches(self@, text@) ==> r@ == text@,
    {
        self.compiled.replace_all(text, "").into_owned()
    }
}

} // verus!
