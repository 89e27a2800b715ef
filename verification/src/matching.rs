//! Regular expressions, as the `regex` crate matches them.
//!
//! Nothing in this file is proved. It declares the crate's `Regex`, gives
//! names to what compiling a pattern and searching a text return, and states
//! that the calls return just that.

use regex::Regex;
use vstd::prelude::*;

verus! {

/// `regex::Regex`, of which nothing is known but what the items below say.
#[verifier::external_type_specification]
#[verifier::external_body]
pub struct ExRegex(Regex);

/// The regular expression that `Regex::new` makes of `pattern`; `None` where
/// it rejects the pattern.
pub uninterp spec fn compiled(pattern: Seq<char>) -> Option<Regex>;

/// What `Regex::captures` finds when it searches `text` for `re`: `None`
/// where `re` matches nowhere; else, for the leftmost match, the text that
/// each group took, the whole match first and then the groups in the order
/// in which they open, with `None` for a group that took no part.
pub uninterp spec fn captures(re: Regex, text: Seq<char>) -> Option<Seq<Option<Seq<char>>>>;

/// `Regex::new`, with its error dropped: the compiled expression is the one
/// named `compiled`.
#[verifier::external_body]
pub(crate) fn compile(pattern: &str) -> (r: Option<Regex>)
    ensures
        r == compiled(pattern@),
{
    Regex::new(pattern).ok()
}

/// `Regex::captures`, with the text of each group copied out of the match
/// (`Captures::iter`, `Match::as_str`): the result is the one named
/// `captures`.
#[verifier::external_body]
pub(crate) fn find_captures(re: &Regex, text: &str) -> (r: Option<Vec<Option<String>>>)
    ensures
        r.deep_view() == captures(*re, text@),
{
    re.captures(text).map(|c| c.iter().map(|g| g.map(|m| String::from(m.as_str()))).collect())
}

/// `Regex::is_match` says whether there is a match anywhere in the text,
/// which is when `Regex::captures` finds one.
pub assume_specification[ Regex::is_match ](re: &Regex, haystack: &str) -> (r: bool)
    ensures
        r == (captures(*re, haystack@) is Some),
;

} // verus!
