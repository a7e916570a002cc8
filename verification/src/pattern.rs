//! Regular expressions.

use vstd::prelude::*;

verus! {

/// The first match of a regular expression in a text: the whole match and then
/// each capture group, with nothing for a group that took no part. None where
/// nothing matches or the expression is not valid.
pub uninterp spec fn regex_captures(pattern: Seq<char>, text: Seq<char>) -> Option<
    Seq<Option<Seq<char>>>,
>;

/// The number of capture groups of a regular expression, the whole match among
/// them; none where the expression is not valid.
pub uninterp spec fn regex_groups(pattern: Seq<char>) -> Option<nat>;

/// Captures as mathematical values.
pub open spec fn capture_models(c: Seq<Option<String>>) -> Seq<Option<Seq<char>>> {
    Seq::new(
        c.len(),
        |i: int|
            match c[i] {
                Some(s) => Some(s@),
                None => None,
            },
    )
}

/// The captures of a match as mathematical values.
pub open spec fn match_model(m: Option<Vec<Option<String>>>) -> Option<Seq<Option<Seq<char>>>> {
    match m {
        Some(c) => Some(capture_models(c@)),
        None => None,
    }
}

/// Calls `regex::Regex::new` and `regex::Regex::captures`. The result is a
/// function of the expression and the text.
#[verifier::external_body]
pub(crate) fn captures(pattern: &str, text: &str) -> (r: Option<Vec<Option<String>>>)
    ensures
        match_model(r) == regex_captures(pattern@, text@),
{
    let regex = regex::Regex::new(pattern).ok()?;
    let found = regex.captures(text)?;
    Some(found.iter().map(|m| m.map(|g| g.as_str().to_string())).collect())
}

/// Calls `regex::Regex::new` and `regex::Regex::captures_len`. The result is
/// a function of the expression; the whole match is always one of the groups.
#[verifier::external_body]
pub(crate) fn group_count(pattern: &str) -> (r: Option<usize>)
    ensures
        match r {
            Some(n) => regex_groups(pattern@) == Some(n as nat) && n >= 1,
            None => regex_groups(pattern@) is None,
        },
{
    regex::Regex::new(pattern).ok().map(|r| r.captures_len())
}

/// Group `i` of a match, if there is a match and the group took part in it.
pub open spec fn group_text(m: Option<Seq<Option<Seq<char>>>>, i: int) -> Option<Seq<char>> {
    match m {
        Some(c) => if 0 <= i < c.len() {
            c[i]
        } else {
            None
        },
        None => None,
    }
}

/// Group `i` of a match, if there is a match and the group took part in it.
pub fn group(m: &Option<Vec<Option<String>>>, i: usize) -> (r: Option<String>)
    ensures
        match r {
            Some(s) => group_text(match_model(*m), i as int) == Some(s@),
            None => group_text(match_model(*m), i as int) is None,
        },
{
    match m {
        Some(c) => {
            if i < c.len() {
                match &c[i] {
                    Some(s) => Some(s.clone()),
                    None => None,
                }
            } else {
                None
            }
        },
        None => None,
    }
}

} // verus!
