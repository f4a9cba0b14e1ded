//! The calls into the `regex` crate, each with the contract that the rest of
//! the library relies on.
//!
//! Nothing in this file is proved. A pattern is handed over as text and
//! compiled by the call that uses it, so every contract here is a statement
//! about strings, numbers and byte offsets alone.

use crate::text::{bytes_of, sliceable};
use regex::{NoExpand, Regex};
use vstd::prelude::*;

verus! {

/// The error that `regex::Regex::new` returns for a pattern it rejects.
#[verifier::external_type_specification]
#[verifier::external_body]
pub struct ExRegexError(regex::Error);

/// Whether `regex::Regex::new` accepts `pattern`.
pub uninterp spec fn regex_compiles(pattern: Seq<char>) -> bool;

/// What `regex::Regex::static_captures_len` returns for the compiled `pattern`.
pub uninterp spec fn regex_static_captures_len(pattern: Seq<char>) -> Option<usize>;

/// What `regex::Regex::captures_len` returns for the compiled `pattern`: the
/// number of its groups, the whole match among them.
pub uninterp spec fn regex_captures_len(pattern: Seq<char>) -> usize;

/// What `regex::Regex::captures` finds for the compiled `pattern` in `text`:
/// nothing, or the byte span of every group of the leftmost match, the whole
/// match first, with `None` for a group that took no part in it.
pub uninterp spec fn regex_captures(pattern: Seq<char>, text: Seq<char>) -> Option<
    Seq<Option<(usize, usize)>>,
>;

/// What `regex::Regex::captures_iter` yields for the compiled `pattern` over
/// `text`: the group spans of each successive match, in order.
pub uninterp spec fn regex_captures_iter(pattern: Seq<char>, text: Seq<char>) -> Seq<
    Seq<Option<(usize, usize)>>,
>;

/// What `regex::Regex::replace` returns for the compiled `pattern`, the
/// haystack `text` and the replacement `rep` taken as it is written
/// (`regex::NoExpand`).
pub uninterp spec fn regex_replace(pattern: Seq<char>, text: Seq<char>, rep: Seq<char>) -> Seq<
    char,
>;

/// What `regex::Regex::replace_all` returns for the compiled `pattern`, the
/// haystack `text` and the replacement `rep` taken as it is written
/// (`regex::NoExpand`).
pub uninterp spec fn regex_replace_all(pattern: Seq<char>, text: Seq<char>, rep: Seq<char>) -> Seq<
    char,
>;

/// Whether a character is one that `regex::escape` puts a backslash before.
pub open spec fn is_meta_character(c: char) -> bool {
    c == '\\' || c == '.' || c == '+' || c == '*' || c == '?' || c == '(' || c == ')' || c == '|'
        || c == '[' || c == ']' || c == '{' || c == '}' || c == '^' || c == '$' || c == '#' || c
        == '&' || c == '-' || c == '~'
}

/// `text` with a backslash before each of its meta characters.
pub open spec fn escaped(text: Seq<char>) -> Seq<char>
    decreases text.len(),
{
    if text.len() == 0 {
        Seq::empty()
    } else if is_meta_character(text.last()) {
        escaped(text.drop_last()).push('\\').push(text.last())
    } else {
        escaped(text.drop_last()).push(text.last())
    }
}

/// Whether every span among `groups` can be sliced out of `text`.
pub open spec fn spans_lie_in(groups: Seq<Option<(usize, usize)>>, text: Seq<char>) -> bool {
    forall|i: int|
        0 <= i < groups.len() ==> match #[trigger] groups[i] {
            Some((from, to)) => sliceable(bytes_of(text), from as int, to as int),
            None => true,
        }
}

/// What the documentation of `regex::Captures` and of `regex::Match` promises
/// of the groups of one match in `text`: there is at least one group, that of
/// the whole match, and every span can be sliced out of `text`.
pub open spec fn groups_lie_in(groups: Seq<Option<(usize, usize)>>, text: Seq<char>) -> bool {
    &&& groups.len() >= 1
    &&& spans_lie_in(groups, text)
}

/// `regex::escape`: the result is the text with a backslash put before every
/// meta character and nothing else changed.
pub assume_specification[ regex::escape ](pattern: &str) -> (r: String)
    ensures
        r@ == escaped(pattern@),
;

/// `regex::Regex::new`, then `regex::Regex::static_captures_len`: fails exactly
/// when the pattern does not compile.
#[verifier::external_body]
pub(crate) fn static_captures_len(pattern: &str) -> (r: Result<Option<usize>, regex::Error>)
    ensures
        r is Ok <==> regex_compiles(pattern@),
        r matches Ok(n) ==> n == regex_static_captures_len(pattern@),
{
    let re = Regex::new(pattern)?;
    Ok(re.static_captures_len())
}

/// `regex::Regex::new`, then `regex::Regex::captures_len`: fails exactly when
/// the pattern does not compile.
#[verifier::external_body]
pub(crate) fn captures_len(pattern: &str) -> (r: Result<usize, regex::Error>)
    ensures
        r is Ok <==> regex_compiles(pattern@),
        r matches Ok(n) ==> n == regex_captures_len(pattern@),
{
    let re = Regex::new(pattern)?;
    Ok(re.captures_len())
}

/// `regex::Regex::new`, then `regex::Regex::captures`: fails exactly when the
/// pattern does not compile; otherwise the spans of the leftmost match, which
/// lie in `text` as `groups_lie_in` says and are as many as the pattern has
/// groups.
#[verifier::external_body]
pub(crate) fn captures(pattern: &str, text: &str) -> (r: Result<
    Option<Vec<Option<(usize, usize)>>>,
    regex::Error,
>)
    ensures
        r is Ok <==> regex_compiles(pattern@),
        r matches Ok(None) ==> regex_captures(pattern@, text@) is None,
        r matches Ok(Some(groups)) ==> regex_captures(pattern@, text@) == Some(groups@)
            && groups_lie_in(groups@, text@) && groups@.len() == regex_captures_len(pattern@),
{
    let re = Regex::new(pattern)?;
    Ok(re.captures(text).map(|c| c.iter().map(|g| g.map(|m| (m.start(), m.end()))).collect()))
}

/// `regex::Regex::new`, then `regex::Regex::captures_iter`: fails exactly when
/// the pattern does not compile; otherwise the spans of every match in turn.
#[verifier::external_body]
pub(crate) fn captures_iter(pattern: &str, text: &str) -> (r: Result<
    Vec<Vec<Option<(usize, usize)>>>,
    regex::Error,
>)
    ensures
        r is Ok <==> regex_compiles(pattern@),
        r matches Ok(found) ==> found.deep_view() == regex_captures_iter(pattern@, text@),
{
    let re = Regex::new(pattern)?;
    let spans = |c: regex::Captures| c.iter().map(|g| g.map(|m| (m.start(), m.end()))).collect();
    Ok(re.captures_iter(text).map(spans).collect())
}

/// `regex::Regex::new`, then `regex::Regex::replace` with `regex::NoExpand`
/// around the replacement: fails exactly when the pattern does not compile.
#[verifier::external_body]
pub(crate) fn replace(pattern: &str, text: &str, rep: &str) -> (r: Result<String, regex::Error>)
    ensures
        r is Ok <==> regex_compiles(pattern@),
        r matches Ok(s) ==> s@ == regex_replace(pattern@, text@, rep@),
{
    let re = Regex::new(pattern)?;
    Ok(re.replace(text, NoExpand(rep)).into_owned())
}

/// `regex::Regex::new`, then `regex::Regex::replace_all` with
/// `regex::NoExpand` around the replacement: fails exactly when the pattern
/// does not compile.
#[verifier::external_body]
pub(crate) fn replace_all(pattern: &str, text: &str, rep: &str) -> (r: Result<String, regex::Error>)
    ensures
        r is Ok <==> regex_compiles(pattern@),
        r matches Ok(s) ==> s@ == regex_replace_all(pattern@, text@, rep@),
{
    let re = Regex::new(pattern)?;
    Ok(re.replace_all(text, NoExpand(rep)).into_owned())
}

} // verus!
