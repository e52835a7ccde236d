//! Regular-expression searches, done by the `regex` crate.
use vstd::prelude::*;

verus! {

/// What compiling `pattern` and replacing its leftmost match in `text` by
/// `rep` gives (`Regex::new` then `Regex::replace`); `None` when the pattern
/// does not compile.
pub uninterp spec fn regex_replace_result(pattern: Seq<char>, text: Seq<char>, rep: Seq<char>) -> Option<
    Seq<char>,
>;

/// What compiling `pattern` and reading capture group `group` of its leftmost
/// match in `text` gives (`Regex::new`, `Regex::captures`, `Captures::get`):
/// `None` when the pattern does not compile, `Some(None)` when there is no
/// match or the group did not take part in it.
pub uninterp spec fn regex_group_result(pattern: Seq<char>, text: Seq<char>, group: usize) -> Option<
    Option<Seq<char>>,
>;

/// Calls `regex::Regex::new(pattern)` and `Regex::replace(text, rep)`. The
/// contract only names the result: the text with the leftmost match of the
/// pattern replaced, or `None` when `Regex::new` returns an error.
#[verifier::external_body]
pub(crate) fn regex_replace(pattern: &str, text: &str, rep: &str) -> (r: Option<String>)
    ensures
        r matches Some(s) ==> regex_replace_result(pattern@, text@, rep@) == Some(s@),
        r is None ==> regex_replace_result(pattern@, text@, rep@) is None,
{
    match regex::Regex::new(pattern) {
        Ok(re) => Some(re.replace(text, rep).into_owned()),
        Err(_) => None,
    }
}

/// Calls `regex::Regex::new(pattern)`, `Regex::captures(text)` and
/// `Captures::get(group)`. The contract only names the result: the text of the
/// group in the leftmost match, `Some(None)` without one, `None` when
/// `Regex::new` returns an error.
#[verifier::external_body]
pub(crate) fn regex_group(pattern: &str, text: &str, group: usize) -> (r: Option<Option<String>>)
    ensures
        r matches Some(Some(s)) ==> regex_group_result(pattern@, text@, group) == Some(Some(s@)),
        r matches Some(None) ==> regex_group_result(pattern@, text@, group) == Some(None::<Seq<char>>),
        r is None ==> regex_group_result(pattern@, text@, group) is None,
{
    match regex::Regex::new(pattern) {
        Ok(re) => Some(re.captures(text).and_then(|c| c.get(group)).map(|m| m.as_str().to_string())),
        Err(_) => None,
    }
}

} // verus!
