//! Regular-expression matching, done by the `regex` crate.
use vstd::prelude::*;

verus! {

/// What `regex::bytes::Regex::new(pattern)` and then `is_match(haystack)`
/// answer; `None` where the pattern does not compile.
pub uninterp spec fn regex_search(pattern: Seq<char>, haystack: Seq<u8>) -> Option<bool>;

/// Whether `regex::bytes::Regex::new(pattern)` succeeds.
pub uninterp spec fn regex_compiles(pattern: Seq<char>) -> bool;

/// The bytes of capture group 1 of the first match of `pattern` in
/// `haystack` (`Some(None)` where there is no match or the group took no
/// part); `None` where the pattern does not compile.
pub uninterp spec fn regex_group1(pattern: Seq<char>, haystack: Seq<u8>) -> Option<Option<Seq<u8>>>;

/// Compiles `pattern` with `regex::bytes::Regex::new` and runs `is_match` on
/// `haystack`. Claimed: the answer is `regex_search` of the two, and it is
/// there exactly when the pattern compiles.
#[verifier::external_body]
pub(crate) fn regex_is_match(pattern: &str, haystack: &[u8]) -> (r: Option<bool>)
    ensures
        r == regex_search(pattern@, haystack@),
        r is Some <==> regex_compiles(pattern@),
{
    match regex::bytes::Regex::new(pattern) {
        Ok(re) => Some(re.is_match(haystack)),
        Err(_) => None,
    }
}

/// Compiles `pattern` with `regex::bytes::Regex::new`. Claimed: it tells
/// whether that succeeds.
#[verifier::external_body]
pub(crate) fn regex_valid(pattern: &str) -> (r: bool)
    ensures
        r == regex_compiles(pattern@),
{
    regex::bytes::Regex::new(pattern).is_ok()
}

/// A captured group as bytes.
pub open spec fn group_view(g: Option<Option<Vec<u8>>>) -> Option<Option<Seq<u8>>> {
    match g {
        None => None,
        Some(None) => Some(None),
        Some(Some(v)) => Some(Some(v@)),
    }
}

/// Compiles `pattern` with `regex::bytes::Regex::new`, runs `captures` on
/// `haystack` and copies out group 1. Claimed: the answer is `regex_group1`.
#[verifier::external_body]
pub(crate) fn regex_first_group(pattern: &str, haystack: &[u8]) -> (r: Option<Option<Vec<u8>>>)
    ensures
        match r {
            None => regex_group1(pattern@, haystack@) is None,
            Some(None) => regex_group1(pattern@, haystack@) == Some(None::<Seq<u8>>),
            Some(Some(v)) => regex_group1(pattern@, haystack@) == Some(Some(v@)),
        },
{
    match regex::bytes::Regex::new(pattern) {
        Ok(re) => match re.captures(haystack) {
            Some(caps) => Some(caps.get(1).map(|m| m.as_bytes().to_vec())),
            None => Some(None),
        },
        Err(_) => None,
    }
}

/// Whether `regex::escape` puts a backslash before `c`.
pub open spec fn is_regex_meta(c: char) -> bool {
    c == '\\' || c == '.' || c == '+' || c == '*' || c == '?' || c == '(' || c == ')' || c == '|'
        || c == '[' || c == ']' || c == '{' || c == '}' || c == '^' || c == '$' || c == '#' || c
        == '&' || c == '-' || c == '~'
}

/// The text `regex::escape` gives: each meta character gets a backslash.
pub open spec fn escaped(s: Seq<char>) -> Seq<char>
    decreases s.len(),
{
    if s.len() == 0 {
        seq![]
    } else {
        escaped(s.drop_last()) + if is_regex_meta(s.last()) {
            seq!['\\', s.last()]
        } else {
            seq![s.last()]
        }
    }
}

/// `regex::escape`. Claimed: the text comes back with a backslash put before
/// each character that `regex_syntax::is_meta_character` names, and nothing
/// else changed.
#[verifier::external_body]
pub(crate) fn regex_escape(s: &str) -> (r: String)
    ensures
        r@ == escaped(s@),
{
    regex::escape(s)
}

} // verus!
