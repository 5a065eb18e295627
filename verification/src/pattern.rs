//! Regular expressions, as far as the library uses them: what a pattern
//! captures in a text.

use vstd::prelude::*;
use regex::Regex;
use crate::types::opt_text;

verus! {

/// Group 1 of the first match of the regular expression `pattern` in `text`;
/// nothing if there is no match, the group took no part in it, or `pattern`
/// is no regular expression.
pub uninterp spec fn regex_first_group(pattern: Seq<char>, text: Seq<char>) -> Option<Seq<char>>;

/// Group 1 of every match of the regular expression `pattern` in `text`, in
/// the order of the matches, each with the byte offset at which it starts,
/// as far as the group took part; no match if `pattern` is no regular
/// expression.
pub uninterp spec fn regex_every_group(pattern: Seq<char>, text: Seq<char>) -> Seq<Option<(usize, Seq<char>)>>;

/// What a list of captures says.
pub open spec fn group_views(list: Seq<Option<(usize, String)>>) -> Seq<Option<(usize, Seq<char>)>> {
    list.map_values(
        |g: Option<(usize, String)>|
            match g {
                Some(found) => Some((found.0, found.1@)),
                None => None,
            },
    )
}

/// `Regex::new` and `Regex::captures`: group 1 of the leftmost match.
#[verifier::external_body]
pub(crate) fn first_group(pattern: &str, text: &str) -> (r: Option<String>)
    ensures
        opt_text(r) == regex_first_group(pattern@, text@),
{
    Regex::new(pattern).ok()?.captures(text)?.get(1).map(|found| found.as_str().to_owned())
}

/// `Regex::new` and `Regex::captures_iter`: group 1 of each of the
/// successive matches that do not overlap, with `Match::start`.
#[verifier::external_body]
pub(crate) fn every_group(pattern: &str, text: &str) -> (r: Vec<Option<(usize, String)>>)
    ensures
        group_views(r@) == regex_every_group(pattern@, text@),
{
    Regex::new(pattern).map_or(
        Vec::new(),
        |re| re.captures_iter(text).map(|c| c.get(1).map(|g| (g.start(), g.as_str().to_owned()))).collect(),
    )
}

/// Whether `c` means something in a regular expression.
pub open spec fn is_meta(c: char) -> bool {
    c == '\\' || c == '.' || c == '+' || c == '*' || c == '?' || c == '(' || c == ')' || c == '|' || c == '['
        || c == ']' || c == '{' || c == '}' || c == '^' || c == '$' || c == '#' || c == '&' || c == '-' || c
        == '~'
}

/// `text` with a backslash before every character that means something in a
/// regular expression.
pub open spec fn escaped(text: Seq<char>) -> Seq<char>
    decreases text.len(),
{
    if text.len() == 0 {
        Seq::empty()
    } else if is_meta(text[text.len() - 1]) {
        escaped(text.drop_last()).push('\\').push(text[text.len() - 1])
    } else {
        escaped(text.drop_last()).push(text[text.len() - 1])
    }
}

/// `regex::escape`: the text as a pattern that matches it literally.
#[verifier::external_body]
pub(crate) fn escape_text(text: &str) -> (r: String)
    ensures
        r@ == escaped(text@),
{
    regex::escape(text)
}

} // verus!
