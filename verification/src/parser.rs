//! The parser: from source text to a sequence of [`Element`]s.
use vstd::prelude::*;
use vstd::string::StrSliceExecFns;
use crate::element::{lemma_nodes_push, nodes, Element, Node};
use crate::error::{ParseError, ParseErrorKind};
use crate::grammar::{
    is_closing, lemma_progress, parse_alternatives, parse_brace, parse_char, parse_command,
    parse_display_math, parse_document, parse_element, parse_elements, parse_inline_math,
};
use crate::token::{
    alpha1, char, lemma_alpha_run_bound, lemma_space_run_bound, multispace0, none_of,
    starts_with, tag,
};

verus! {

/// What a parser step returned, as the grammar's functions state it.
pub open spec fn step_model<'a>(r: Option<(&'a str, Element<'a>)>) -> Option<(Seq<char>, Node)> {
    match r {
        Some((rest, e)) => Some((rest@, e@)),
        None => None,
    }
}

/// Recognises a command: a backslash and the letters that follow it. Returns
/// the rest of the input and the letters.
pub fn escaped_element<'a>(i: &'a str) -> (r: Result<(&'a str, &'a str), ParseError>)
    ensures
        match r {
            Ok((rest, name)) => parse_command(i@) == Some((rest@, name@)),
            Err(e) => parse_command(i@) is None && e == (ParseError {
                kind: ParseErrorKind::BadEscape,
                offset: 0,
            }),
        },
{
    let bad = ParseError { kind: ParseErrorKind::BadEscape, offset: 0 };
    match char(i, '\\') {
        None => Err(bad),
        Some(i) => match alpha1(i) {
            None => Err(bad),
            Some((rest, word)) => {
                proof {
                    lemma_alpha_run_bound(i@);
                }
                Ok((rest, word))
            },
        },
    }
}

/// Recognises a group in braces.
fn brace<'a>(i: &'a str) -> (r: Option<(&'a str, Element<'a>)>)
    ensures
        step_model(r) == parse_brace(i@),
    decreases i@.len(), 0nat,
{
    match char(i, '{') {
        None => None,
        Some(i) => {
            let (i, elems) = elements(i);
            match char(i, '}') {
                None => None,
                Some(i) => Some((i, Element::Brace(elems))),
            }
        },
    }
}

/// Recognises display math.
fn display_math<'a>(i: &'a str) -> (r: Option<(&'a str, Element<'a>)>)
    ensures
        step_model(r) == parse_display_math(i@),
    decreases i@.len(), 0nat,
{
    proof {
        reveal_strlit("$$");
        assert("$$"@ =~= seq!['$', '$']);
        lemma_starts_with_dollars(i@);
    }
    match tag(i, "$$") {
        None => None,
        Some(i) => {
            let (i, elems) = math_elements(i);
            proof {
                lemma_starts_with_dollars(i@);
            }
            match tag(i, "$$") {
                None => None,
                Some(i) => Some((i, Element::DMath(elems))),
            }
        },
    }
}

/// Recognises inline math.
fn inline_math<'a>(i: &'a str) -> (r: Option<(&'a str, Element<'a>)>)
    ensures
        step_model(r) == parse_inline_math(i@),
    decreases i@.len(), 0nat,
{
    match char(i, '$') {
        None => None,
        Some(i) => {
            let (i, elems) = math_elements(i);
            match char(i, '$') {
                None => None,
                Some(i) => Some((i, Element::IMath(elems))),
            }
        },
    }
}

/// Recognises one character that closes no group.
fn any_ch<'a>(i: &'a str) -> (r: Option<(&'a str, Element<'a>)>)
    ensures
        step_model(r) == parse_char(i@),
{
    proof {
        reveal_strlit("}$");
        let list = "}$"@;
        assert(list.len() == 2 && list[0] == '}' && list[1] == '$');
        assert forall|c: char| #[trigger] list.contains(c) == is_closing(c) by {
            if list.contains(c) {
                let j = choose|j: int| 0 <= j < list.len() && list[j] == c;
                assert(list[j] == c);
            }
        }
    }
    match none_of(i, "}$") {
        None => None,
        Some((i, c)) => Some((i, literal(c))),
    }
}

/// The element that stands for the character `c`.
fn literal<'a>(c: char) -> (e: Element<'a>)
    ensures
        e@ == Node::Char(c),
{
    Element::Char(c)
}

/// Recognises one element outside math, with the separating characters
/// around it.
fn element<'a>(i: &'a str) -> (r: Option<(&'a str, Element<'a>)>)
    ensures
        step_model(r) == parse_element(i@, false),
    decreases i@.len(), 2nat,
{
    proof {
        lemma_space_run_bound(i@);
    }
    let i = multispace0(i);
    let found = match char(i, '{') {
        Some(_) => brace(i),
        None => match display_math(i) {
            Some(x) => Some(x),
            None => match inline_math(i) {
                Some(x) => Some(x),
                None => match escaped_element(i) {
                    Ok((rest, name)) => Some((rest, Element::Str(name))),
                    Err(_) => any_ch(i),
                },
            },
        },
    };
    assert(step_model(found) == parse_alternatives(i@, false));
    match found {
        None => None,
        Some((i, res)) => {
            let i = multispace0(i);
            Some((i, res))
        },
    }
}

/// Recognises one element inside math, with the separating characters
/// around it.
fn math_element<'a>(i: &'a str) -> (r: Option<(&'a str, Element<'a>)>)
    ensures
        step_model(r) == parse_element(i@, true),
    decreases i@.len(), 2nat,
{
    proof {
        lemma_space_run_bound(i@);
    }
    let i = multispace0(i);
    let found = match char(i, '{') {
        Some(_) => brace(i),
        None => match escaped_element(i) {
            Ok((rest, name)) => Some((rest, Element::Str(name))),
            Err(_) => any_ch(i),
        },
    };
    assert(step_model(found) == parse_alternatives(i@, true));
    match found {
        None => None,
        Some((i, res)) => {
            let i = multispace0(i);
            Some((i, res))
        },
    }
}

/// Recognises as many elements as the input starts with. Returns the input
/// from where no further element was found, and the elements in order.
pub fn elements<'a>(i: &'a str) -> (r: (&'a str, Vec<Element<'a>>))
    ensures
        (r.0@, nodes(r.1@)) == parse_elements(i@, false),
    decreases i@.len(), 3nat,
{
    let mut cur = i;
    let mut res: Vec<Element<'a>> = Vec::new();
    loop
        invariant
            cur@.len() <= i@.len(),
            parse_elements(i@, false) == (
                parse_elements(cur@, false).0,
                nodes(res@) + parse_elements(cur@, false).1,
            ),
        decreases cur@.len(),
    {
        match element(cur) {
            None => {
                assert(nodes(res@) + Seq::<Node>::empty() =~= nodes(res@));
                return (cur, res);
            },
            Some((rest, e)) => {
                proof {
                    lemma_progress(cur@, false);
                    lemma_nodes_push(res@, e);
                    let more = parse_elements(rest@, false).1;
                    assert(nodes(res@) + (seq![e@] + more) =~= nodes(res@).push(e@) + more);
                }
                res.push(e);
                cur = rest;
            },
        }
    }
}

/// Recognises as many elements as the input starts with, inside math.
fn math_elements<'a>(i: &'a str) -> (r: (&'a str, Vec<Element<'a>>))
    ensures
        (r.0@, nodes(r.1@)) == parse_elements(i@, true),
    decreases i@.len(), 3nat,
{
    let mut cur = i;
    let mut res: Vec<Element<'a>> = Vec::new();
    loop
        invariant
            cur@.len() <= i@.len(),
            parse_elements(i@, true) == (
                parse_elements(cur@, true).0,
                nodes(res@) + parse_elements(cur@, true).1,
            ),
        decreases cur@.len(),
    {
        match math_element(cur) {
            None => {
                assert(nodes(res@) + Seq::<Node>::empty() =~= nodes(res@));
                return (cur, res);
            },
            Some((rest, e)) => {
                proof {
                    lemma_progress(cur@, true);
                    lemma_nodes_push(res@, e);
                    let more = parse_elements(rest@, true).1;
                    assert(nodes(res@) + (seq![e@] + more) =~= nodes(res@).push(e@) + more);
                }
                res.push(e);
                cur = rest;
            },
        }
    }
}

/// `$$` is a prefix of `s` exactly when its first two characters are `$`.
proof fn lemma_starts_with_dollars(s: Seq<char>)
    requires
        "$$"@ == seq!['$', '$'],
    ensures
        starts_with(s, "$$"@) <==> s.len() >= 2 && s[0] == '$' && s[1] == '$',
{
    if s.len() >= 2 {
        if s[0] == '$' && s[1] == '$' {
            assert(s.take(2) =~= seq!['$', '$']);
        } else {
            assert(s.take(2)[0] == s[0] && s.take(2)[1] == s[1]);
        }
    }
}

/// Parses a whole text. Every character of the text must belong to an
/// element or separate two of them: where the elements end before the text
/// does, the text is malformed, and the error names the first character that
/// belongs to no element. That character is a `{` whose group does not
/// parse, a `}` that closes nothing, or a `$` whose math does not parse.
pub fn parse<'src>(s: &'src str) -> (r: Result<Vec<Element<'src>>, ParseError>)
    ensures
        match r {
            Ok(elems) => parse_document(s@) == Ok::<Seq<Node>, ParseError>(nodes(elems@)),
            Err(e) => parse_document(s@) == Err::<Seq<Node>, ParseError>(e),
        },
{
    let (rest, res) = elements(s);
    let stop = multispace0(rest);
    proof {
        lemma_progress(s@, false);
        lemma_space_run_bound(rest@);
    }
    let left = stop.unicode_len();
    if left == 0 {
        Ok(res)
    } else {
        let c = stop.get_char(0);
        let kind = if c == '$' {
            ParseErrorKind::UnterminatedMath
        } else {
            ParseErrorKind::UnbalancedBrace
        };
        let total = s.unicode_len();
        Err(ParseError { kind, offset: total - left })
    }
}

} // verus!
