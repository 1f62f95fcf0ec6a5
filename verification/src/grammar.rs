//! The grammar of the source text, as functions on sequences of characters.
//!
//! ```text
//! element      := brace | display_math | inline_math | command | char
//! math_element := brace | command | char
//! command      := '\' letter+
//! brace        := '{' element* '}'
//! display_math := '$$' math_element* '$$'
//! inline_math  := '$' math_element* '$'
//! char         := any character but '}' and '$'
//! ```
//!
//! The alternatives are tried in the order written, and the first that
//! succeeds is taken. So `$$` opens display math wherever that math is then
//! closed, and a backslash that no letter follows is a literal character.
//! A `{` commits to the brace rule: where the text starts with `{`, the
//! element is the brace group or none, and no later alternative is tried.
//! So `char` takes a `{` on its own, but an element never is a literal `{`.
//! Separating characters before and after an element belong to it. Each
//! function returns what is left of the input together with what it
//! recognised.
use vstd::prelude::*;
use crate::element::Node;
use crate::error::{ParseError, ParseErrorKind};
use crate::token::{alpha_run, space_run, lemma_space_run_bound, lemma_alpha_run_bound};

verus! {

/// The characters that open or close a group. No element is one of them
/// standing for itself.
pub open spec fn is_delimiter(c: char) -> bool {
    c == '{' || c == '}' || c == '$'
}

/// A backslash and the letters after it, of which there is at least one.
pub open spec fn parse_command(s: Seq<char>) -> Option<(Seq<char>, Seq<char>)> {
    if s.len() > 0 && s[0] == '\\' && alpha_run(s.skip(1)) > 0 {
        let n = alpha_run(s.skip(1)) as int;
        Some((s.skip(1).skip(n), s.skip(1).take(n)))
    } else {
        None
    }
}

/// The characters that close a group: those that `char` refuses.
pub open spec fn is_closing(c: char) -> bool {
    c == '}' || c == '$'
}

/// One character that closes no group.
pub open spec fn parse_char(s: Seq<char>) -> Option<(Seq<char>, Node)> {
    if s.len() > 0 && !is_closing(s[0]) {
        Some((s.skip(1), Node::Char(s[0])))
    } else {
        None
    }
}

/// `{`, elements, `}`.
pub open spec fn parse_brace(s: Seq<char>) -> Option<(Seq<char>, Node)>
    decreases s.len(), 0nat,
{
    if s.len() > 0 && s[0] == '{' {
        let (rest, items) = parse_elements(s.skip(1), false);
        if rest.len() > 0 && rest[0] == '}' {
            Some((rest.skip(1), Node::Brace(items)))
        } else {
            None
        }
    } else {
        None
    }
}

/// `$$`, math elements, `$$`.
pub open spec fn parse_display_math(s: Seq<char>) -> Option<(Seq<char>, Node)>
    decreases s.len(), 0nat,
{
    if s.len() >= 2 && s[0] == '$' && s[1] == '$' {
        let (rest, items) = parse_elements(s.skip(2), true);
        if rest.len() >= 2 && rest[0] == '$' && rest[1] == '$' {
            Some((rest.skip(2), Node::DMath(items)))
        } else {
            None
        }
    } else {
        None
    }
}

/// `$`, math elements, `$`.
pub open spec fn parse_inline_math(s: Seq<char>) -> Option<(Seq<char>, Node)>
    decreases s.len(), 0nat,
{
    if s.len() > 0 && s[0] == '$' {
        let (rest, items) = parse_elements(s.skip(1), true);
        if rest.len() > 0 && rest[0] == '$' {
            Some((rest.skip(1), Node::IMath(items)))
        } else {
            None
        }
    } else {
        None
    }
}

/// The alternatives of an element, in order. A text that starts with `{`
/// is a brace group or no element at all. Inside math (`math`) the two math
/// groups are no alternatives.
pub open spec fn parse_alternatives(s: Seq<char>, math: bool) -> Option<(Seq<char>, Node)>
    decreases s.len(), 1nat,
{
    if s.len() > 0 && s[0] == '{' {
        parse_brace(s)
    } else if !math && parse_display_math(s) is Some {
        parse_display_math(s)
    } else if !math && parse_inline_math(s) is Some {
        parse_inline_math(s)
    } else if let Some((rest, name)) = parse_command(s) {
        Some((rest, Node::Str(name)))
    } else {
        parse_char(s)
    }
}

/// One element with the separating characters around it. Where no
/// alternative succeeds, no element is recognised, and the separating
/// characters are not taken either.
pub open spec fn parse_element(s: Seq<char>, math: bool) -> Option<(Seq<char>, Node)>
    decreases s.len(), 2nat,
{
    proof {
        lemma_space_run_bound(s);
    }
    match parse_alternatives(s.skip(space_run(s) as int), math) {
        Some((rest, node)) => Some((rest.skip(space_run(rest) as int), node)),
        None => None,
    }
}

/// As many elements as can be recognised, one after the other. What is left
/// is the input from where no further element was found. An element always
/// takes at least one character ([`lemma_progress`]), so the run ends.
pub open spec fn parse_elements(s: Seq<char>, math: bool) -> (Seq<char>, Seq<Node>)
    decreases s.len(), 3nat,
{
    match parse_element(s, math) {
        Some((rest, node)) => if rest.len() < s.len() {
            let (end, more) = parse_elements(rest, math);
            (end, seq![node] + more)
        } else {
            (s, Seq::empty())
        },
        None => (s, Seq::empty()),
    }
}

/// Which error a text gives whose elements end before the character `c`.
pub open spec fn stop_kind(c: char) -> ParseErrorKind {
    if c == '$' {
        ParseErrorKind::UnterminatedMath
    } else {
        ParseErrorKind::UnbalancedBrace
    }
}

/// A whole text: elements up to its end. Where the elements end earlier, and
/// more than separating characters is left, the text is malformed at the
/// first character that belongs to no element.
pub open spec fn parse_document(s: Seq<char>) -> Result<Seq<Node>, ParseError> {
    let (rest, items) = parse_elements(s, false);
    let stop = rest.skip(space_run(rest) as int);
    if stop.len() == 0 {
        Ok(items)
    } else {
        Err(ParseError { kind: stop_kind(stop[0]), offset: (s.len() - stop.len()) as usize })
    }
}

/// What is left after an element is shorter than the input, and what is left
/// after a run of elements is no longer than it.
pub proof fn lemma_progress(s: Seq<char>, math: bool)
    ensures
        parse_brace(s) matches Some((rest, _)) ==> rest.len() < s.len(),
        parse_display_math(s) matches Some((rest, _)) ==> rest.len() < s.len(),
        parse_inline_math(s) matches Some((rest, _)) ==> rest.len() < s.len(),
        parse_command(s) matches Some((rest, _)) ==> rest.len() < s.len(),
        parse_char(s) matches Some((rest, _)) ==> rest.len() < s.len(),
        parse_alternatives(s, math) matches Some((rest, _)) ==> rest.len() < s.len(),
        parse_element(s, math) matches Some((rest, _)) ==> rest.len() < s.len(),
        parse_elements(s, math).0.len() <= s.len(),
    decreases s.len(), 1nat,
{
    if s.len() > 0 {
        lemma_elements_bound(s.skip(1), false);
        lemma_elements_bound(s.skip(1), true);
        lemma_alpha_run_bound(s.skip(1));
    }
    if s.len() >= 2 {
        lemma_elements_bound(s.skip(2), true);
    }
    lemma_space_run_bound(s);
    let t = s.skip(space_run(s) as int);
    if t.len() < s.len() {
        lemma_progress(t, math);
    } else {
        assert(t =~= s);
    }
    if let Some((rest, _)) = parse_alternatives(t, math) {
        lemma_space_run_bound(rest);
    }
    if let Some((rest, _)) = parse_element(s, math) {
        if rest.len() < s.len() {
            lemma_elements_bound(rest, math);
        }
    }
}

/// What is left after a run of elements is no longer than the input.
pub proof fn lemma_elements_bound(s: Seq<char>, math: bool)
    ensures
        parse_elements(s, math).0.len() <= s.len(),
    decreases s.len(), 0nat,
{
    if let Some((rest, _)) = parse_element(s, math) {
        if rest.len() < s.len() {
            lemma_elements_bound(rest, math);
        }
    }
}

} // verus!
