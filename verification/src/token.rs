//! The tokens of the source text, recognised by `nom`.
use vstd::prelude::*;

verus! {

/// The characters that may separate two elements: space, tab, carriage return
/// and line feed.
pub open spec fn is_space(c: char) -> bool {
    c == ' ' || c == '\t' || c == '\r' || c == '\n'
}

/// An ASCII letter.
pub open spec fn is_alpha(c: char) -> bool {
    ('a' <= c && c <= 'z') || ('A' <= c && c <= 'Z')
}

/// How many separating characters `s` starts with.
pub open spec fn space_run(s: Seq<char>) -> nat
    decreases s.len(),
{
    if s.len() > 0 && is_space(s[0]) {
        1 + space_run(s.skip(1))
    } else {
        0
    }
}

/// How many letters `s` starts with.
pub open spec fn alpha_run(s: Seq<char>) -> nat
    decreases s.len(),
{
    if s.len() > 0 && is_alpha(s[0]) {
        1 + alpha_run(s.skip(1))
    } else {
        0
    }
}

/// Whether `s` starts with `prefix`.
pub open spec fn starts_with(s: Seq<char>, prefix: Seq<char>) -> bool {
    prefix.len() <= s.len() && s.take(prefix.len() as int) == prefix
}

/// A text starts with no more separating characters than it holds
/// characters.
pub proof fn lemma_space_run_bound(s: Seq<char>)
    ensures
        space_run(s) <= s.len(),
    decreases s.len(),
{
    if s.len() > 0 && is_space(s[0]) {
        lemma_space_run_bound(s.skip(1));
    }
}

/// A text starts with no more letters than it holds characters.
pub proof fn lemma_alpha_run_bound(s: Seq<char>)
    ensures
        alpha_run(s) <= s.len(),
    decreases s.len(),
{
    if s.len() > 0 && is_alpha(s[0]) {
        lemma_alpha_run_bound(s.skip(1));
    }
}

/// Calls `nom::character::complete::multispace0` on a string slice. That
/// parser splits its input before the first character that is not a space, a
/// tab, a carriage return or a line feed, and never fails; the wrapper hands
/// back the part after the split.
#[verifier::external_body]
pub(crate) fn multispace0<'a>(i: &'a str) -> (rest: &'a str)
    ensures
        rest@ == i@.skip(space_run(i@) as int),
{
    match nom::character::complete::multispace0::<&str, nom::error::Error<&str>>(i) {
        Ok((rest, _)) => rest,
        Err(_) => i,
    }
}

/// Calls `nom::character::complete::alpha1` on a string slice. That parser
/// splits its input before the first character that is not an ASCII letter,
/// and fails when the input starts with no letter. The wrapper hands back
/// the rest and the letters, or `None` for the failure.
#[verifier::external_body]
pub(crate) fn alpha1<'a>(i: &'a str) -> (r: Option<(&'a str, &'a str)>)
    ensures
        match r {
            Some((rest, word)) => {
                &&& alpha_run(i@) > 0
                &&& word@ == i@.take(alpha_run(i@) as int)
                &&& rest@ == i@.skip(alpha_run(i@) as int)
            },
            None => alpha_run(i@) == 0,
        },
{
    match nom::character::complete::alpha1::<&str, nom::error::Error<&str>>(i) {
        Ok((rest, word)) => Some((rest, word)),
        Err(_) => None,
    }
}

/// Calls the parser that `nom::character::complete::char` makes for `c`. It
/// succeeds when the input starts with `c` and then hands back the input
/// after that character.
#[verifier::external_body]
pub(crate) fn char<'a>(i: &'a str, c: char) -> (r: Option<&'a str>)
    ensures
        match r {
            Some(rest) => i@.len() > 0 && i@[0] == c && rest@ == i@.skip(1),
            None => !(i@.len() > 0 && i@[0] == c),
        },
{
    match nom::character::complete::char::<&str, nom::error::Error<&str>>(c)(i) {
        Ok((rest, _)) => Some(rest),
        Err(_) => None,
    }
}

/// Calls the parser that `nom::bytes::complete::tag` makes for `t`. It
/// succeeds when the input starts with `t` and then hands back the input
/// after that prefix.
#[verifier::external_body]
pub(crate) fn tag<'a>(i: &'a str, t: &str) -> (r: Option<&'a str>)
    ensures
        match r {
            Some(rest) => starts_with(i@, t@) && rest@ == i@.skip(t@.len() as int),
            None => !starts_with(i@, t@),
        },
{
    match nom::bytes::complete::tag::<&str, &str, nom::error::Error<&str>>(t)(i) {
        Ok((rest, _)) => Some(rest),
        Err(_) => None,
    }
}

/// Calls the parser that `nom::character::complete::none_of` makes for the
/// characters of `list`. It succeeds when the input starts with a character
/// that does not occur in `list`, and then hands back the input after that
/// character, and the character.
#[verifier::external_body]
pub(crate) fn none_of<'a>(i: &'a str, list: &str) -> (r: Option<(&'a str, char)>)
    ensures
        match r {
            Some((rest, c)) => {
                &&& i@.len() > 0
                &&& !list@.contains(i@[0])
                &&& c == i@[0]
                &&& rest@ == i@.skip(1)
            },
            None => !(i@.len() > 0 && !list@.contains(i@[0])),
        },
{
    match nom::character::complete::none_of::<&str, &str, nom::error::Error<&str>>(list)(i) {
        Ok((rest, c)) => Some((rest, c)),
        Err(_) => None,
    }
}

} // verus!
