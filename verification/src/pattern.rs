//! Text replacement by regular expression, taken from the `regex` crate.

use regex::Regex;
use vstd::prelude::*;

verus! {

/// What `Regex::new(pattern)` and, on the expression it gives,
/// `Regex::replace_all(haystack, rep)` make of `haystack`: `None` where the
/// pattern is refused, else the text with every match replaced.
pub uninterp spec fn regex_replace_all(
    pattern: Seq<char>,
    haystack: Seq<char>,
    rep: Seq<char>,
) -> Option<Seq<char>>;

/// Compiles `pattern` with `Regex::new` and calls `Regex::replace_all` on the
/// result: `haystack` with each match, taken from left to right without
/// overlap, replaced by `rep`, in which `$` and a group's name or number
/// stand for what the group matched. `None` if the pattern is invalid or
/// compiles to more than the crate's size limit. The contract only names the
/// result.
#[verifier::external_body]
pub(crate) fn replace_all(pattern: &str, haystack: &str, rep: &str) -> (out: Option<String>)
    ensures
        out matches Some(text) ==> regex_replace_all(pattern@, haystack@, rep@) == Some(text@),
        out is None ==> regex_replace_all(pattern@, haystack@, rep@) is None,
{
    match Regex::new(pattern) {
        Ok(re) => Some(re.replace_all(haystack, rep).into_owned()),
        Err(_) => None,
    }
}

} // verus!
