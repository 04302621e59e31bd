//! The text-pattern predicate of the filter.  The pattern language is the
//! regex crate's; the library treats the outcome as an opaque function of
//! the pattern text and the query text.

use vstd::prelude::*;

verus! {

/// Whether the pattern, read as a regular expression, matches anywhere in
/// the text.  A pattern that is not a valid regular expression matches
/// nothing.  The outcome depends on the two texts alone.
pub uninterp spec fn regex_found(pattern: Seq<char>, text: Seq<char>) -> bool;

/// Relies on regex::Regex::new and regex::Regex::is_match: whether the
/// pattern matches anywhere in the text, a function of the pattern and the
/// text alone; an invalid pattern is reported as a non-match.
#[verifier::external_body]
pub(crate) fn pattern_found(pattern: &str, text: &str) -> (r: bool)
    ensures
        r == regex_found(pattern@, text@),
{
    match regex::Regex::new(pattern) {
        Ok(re) => re.is_match(text),
        Err(_) => false,
    }
}

} // verus!
