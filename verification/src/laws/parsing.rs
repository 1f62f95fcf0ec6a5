//! Laws of the grammar: what holds of every text and of its tree.
use vstd::prelude::*;
use crate::element::Node;
use crate::error::{ParseError, ParseErrorKind};
use crate::grammar::{
    is_delimiter, lemma_progress, parse_alternatives, parse_brace, parse_command,
    parse_display_math, parse_document, parse_element, parse_elements, parse_inline_math,
    stop_kind,
};
use crate::text::is_whitespace;
use crate::token::{
    alpha_run, is_alpha, is_space, lemma_alpha_run_bound, lemma_space_run_bound, space_run,
};

verus! {

/// A character that stands for itself in a source text and in the output:
/// no delimiter, no backslash, no white space.
pub open spec fn is_plain(c: char) -> bool {
    !is_delimiter(c) && c != '\\' && !is_whitespace(c)
}

/// Whether each character of `s` is plain.
pub open spec fn all_plain(s: Seq<char>) -> bool {
    forall|i: int| 0 <= i < s.len() ==> is_plain(#[trigger] s[i])
}

/// The element that stands for the character `c`.
pub open spec fn literal(c: char) -> Node {
    Node::Char(c)
}

/// One character element for each character of `s`.
pub open spec fn literals(s: Seq<char>) -> Seq<Node>
    decreases s.len(),
{
    if s.len() == 0 {
        Seq::empty()
    } else {
        seq![literal(s[0])] + literals(s.skip(1))
    }
}

/// `literals` keeps the length and gives each character its element.
pub proof fn lemma_literals_index(s: Seq<char>)
    ensures
        literals(s).len() == s.len(),
        forall|i: int| 0 <= i < s.len() ==> (#[trigger] literals(s)[i]) == Node::Char(s[i]),
    decreases s.len(),
{
    if s.len() > 0 {
        lemma_literals_index(s.skip(1));
        let first = seq![literal(s[0])];
        let rest = literals(s.skip(1));
        assert forall|i: int| 0 <= i < s.len() implies (#[trigger] literals(s)[i]) == Node::Char(
            s[i],
        ) by {
            if i > 0 {
                assert((first + rest)[i] == rest[i - 1]);
                assert(s.skip(1)[i - 1] == s[i]);
            }
        }
    }
}

proof fn lemma_plain_elements(s: Seq<char>)
    requires
        all_plain(s),
    ensures
        parse_elements(s, false) == (Seq::<char>::empty(), literals(s)),
    decreases s.len(),
{
    if s.len() == 0 {
        assert(s.skip(0) =~= s);
        assert(s =~= Seq::<char>::empty());
    } else {
        assert(is_plain(s[0]));
        assert(s.skip(0) =~= s);
        let rest = s.skip(1);
        assert(all_plain(rest)) by {
            assert forall|i: int| 0 <= i < rest.len() implies is_plain(#[trigger] rest[i]) by {
                assert(rest[i] == s[i + 1]);
            }
        }
        if rest.len() > 0 {
            assert(is_plain(rest[0]));
        }
        assert(rest.skip(0) =~= rest);
        assert(parse_alternatives(s, false) == Some((rest, Node::Char(s[0]))));
        assert(parse_element(s, false) == Some((rest, Node::Char(s[0]))));
        lemma_plain_elements(rest);
    }
}

/// A text of plain characters parses into one character element for each
/// of its characters, in order.
pub proof fn law_plain_text_parses(s: Seq<char>)
    requires
        all_plain(s),
    ensures
        parse_document(s) == Ok::<Seq<Node>, ParseError>(literals(s)),
{
    lemma_plain_elements(s);
    assert(Seq::<char>::empty().skip(0) =~= Seq::<char>::empty());
}

/// A source text of an element: its characters as they have to be written,
/// with one space between each two elements of a group and no other
/// separating character.
pub open spec fn source(node: Node) -> Seq<char>
    decreases node, 0int,
{
    match node {
        Node::Str(name) => seq!['\\'] + name,
        Node::Char(c) => seq![c],
        Node::Brace(items) => seq!['{'] + source_all(items) + seq!['}'],
        Node::IMath(items) => seq!['$'] + source_all(items) + seq!['$'],
        Node::DMath(items) => seq!['$', '$'] + source_all(items) + seq!['$', '$'],
    }
}

/// The source text of a sequence of elements: that of each, in order, with
/// one space between each two.
pub open spec fn source_all(items: Seq<Node>) -> Seq<char>
    decreases items, 1int,
{
    if items.len() == 0 {
        Seq::empty()
    } else if items.len() == 1 {
        source(items[0])
    } else {
        source(items[0]) + seq![' '] + source_all(items.skip(1))
    }
}

/// `s` without its separating characters.
pub open spec fn without_space(s: Seq<char>) -> Seq<char>
    decreases s.len(),
{
    if s.len() == 0 {
        Seq::empty()
    } else if is_space(s[0]) {
        without_space(s.skip(1))
    } else {
        seq![s[0]] + without_space(s.skip(1))
    }
}

proof fn lemma_without_space_add(a: Seq<char>, b: Seq<char>)
    ensures
        without_space(a + b) == without_space(a) + without_space(b),
    decreases a.len(),
{
    if a.len() == 0 {
        assert(a + b =~= b);
        assert(without_space(a) + without_space(b) =~= without_space(b));
    } else {
        assert((a + b).skip(1) =~= a.skip(1) + b);
        lemma_without_space_add(a.skip(1), b);
        if !is_space(a[0]) {
            assert(seq![a[0]] + (without_space(a.skip(1)) + without_space(b)) =~= (seq![a[0]]
                + without_space(a.skip(1))) + without_space(b));
        }
    }
}

proof fn lemma_without_leading_space(s: Seq<char>)
    ensures
        without_space(s.skip(space_run(s) as int)) == without_space(s),
    decreases s.len(),
{
    if s.len() > 0 && is_space(s[0]) {
        lemma_without_leading_space(s.skip(1));
        lemma_space_run_bound(s.skip(1));
        assert(s.skip(1).skip(space_run(s.skip(1)) as int) =~= s.skip(space_run(s) as int));
    } else {
        assert(s.skip(0) =~= s);
    }
}

proof fn lemma_source_prepend(node: Node, more: Seq<Node>)
    ensures
        without_space(source_all(seq![node] + more)) == without_space(source(node))
            + without_space(source_all(more)),
{
    let all = seq![node] + more;
    assert(all[0] == node);
    assert(all.skip(1) =~= more);
    if more.len() == 0 {
        assert(without_space(source(node)) + Seq::<char>::empty() =~= without_space(
            source(node),
        ));
    } else {
        lemma_without_space_add(source(node) + seq![' '], source_all(more));
        lemma_without_space_add(source(node), seq![' ']);
        assert(without_space(seq![' ']) =~= Seq::<char>::empty()) by {
            assert(seq![' '].skip(1) =~= Seq::<char>::empty());
            assert(without_space(Seq::<char>::empty()) =~= Seq::<char>::empty());
        }
        assert(without_space(source(node)) + Seq::<char>::empty() =~= without_space(
            source(node),
        ));
    }
}

/// Whether the characters of `s`, but for the separating ones, are those of
/// `text` followed by those of `rest`.
pub open spec fn splits(s: Seq<char>, text: Seq<char>, rest: Seq<char>) -> bool {
    without_space(s) == without_space(text) + without_space(rest)
}

proof fn lemma_splits_group(
    s: Seq<char>,
    open: Seq<char>,
    inner: Seq<char>,
    close: Seq<char>,
    inside: Seq<char>,
    left: Seq<char>,
    rest: Seq<char>,
)
    requires
        s == open + inside,
        splits(inside, inner, left),
        left == close + rest,
    ensures
        splits(s, open + inner + close, rest),
{
    lemma_without_space_add(open, inside);
    lemma_without_space_add(close, rest);
    lemma_without_space_add(open + inner, close);
    lemma_without_space_add(open, inner);
    assert(without_space(open) + (without_space(inner) + (without_space(close) + without_space(
        rest,
    ))) =~= ((without_space(open) + without_space(inner)) + without_space(close))
        + without_space(rest));
}

proof fn lemma_groups_keep(s: Seq<char>)
    ensures
        parse_brace(s) matches Some((rest, node)) ==> splits(s, source(node), rest),
        parse_display_math(s) matches Some((rest, node)) ==> splits(s, source(node), rest),
        parse_inline_math(s) matches Some((rest, node)) ==> splits(s, source(node), rest),
    decreases s.len(), 0nat,
{
    if let Some((rest, node)) = parse_brace(s) {
        let (left, items) = parse_elements(s.skip(1), false);
        lemma_elements_keep(s.skip(1), false);
        assert(s =~= seq!['{'] + s.skip(1));
        assert(left =~= seq!['}'] + rest);
        lemma_splits_group(s, seq!['{'], source_all(items), seq!['}'], s.skip(1), left, rest);
    }
    if let Some((rest, node)) = parse_inline_math(s) {
        let (left, items) = parse_elements(s.skip(1), true);
        lemma_elements_keep(s.skip(1), true);
        assert(s =~= seq!['$'] + s.skip(1));
        assert(left =~= seq!['$'] + rest);
        lemma_splits_group(s, seq!['$'], source_all(items), seq!['$'], s.skip(1), left, rest);
    }
    if let Some((rest, node)) = parse_display_math(s) {
        let (left, items) = parse_elements(s.skip(2), true);
        lemma_elements_keep(s.skip(2), true);
        assert(s =~= seq!['$', '$'] + s.skip(2));
        assert(left =~= seq!['$', '$'] + rest);
        lemma_splits_group(
            s,
            seq!['$', '$'],
            source_all(items),
            seq!['$', '$'],
            s.skip(2),
            left,
            rest,
        );
    }
}

proof fn lemma_alternatives_keep(s: Seq<char>, math: bool)
    ensures
        parse_alternatives(s, math) matches Some((rest, node)) ==> splits(s, source(node), rest),
    decreases s.len(), 1nat,
{
    lemma_groups_keep(s);
    if let Some((rest, node)) = parse_alternatives(s, math) {
        if s.len() > 0 && s[0] == '{' {
        } else if !math && parse_display_math(s) is Some {
        } else if !math && parse_inline_math(s) is Some {
        } else if let Some((after, name)) = parse_command(s) {
            lemma_alpha_run_bound(s.skip(1));
            assert(s =~= (seq!['\\'] + name) + rest);
            lemma_without_space_add(seq!['\\'] + name, rest);
        } else {
            assert(s =~= seq![s[0]] + rest);
            lemma_without_space_add(seq![s[0]], rest);
        }
    }
}

proof fn lemma_element_keeps(s: Seq<char>, math: bool)
    ensures
        parse_element(s, math) matches Some((rest, node)) ==> splits(s, source(node), rest),
    decreases s.len(), 2nat,
{
    lemma_space_run_bound(s);
    lemma_without_leading_space(s);
    let start = s.skip(space_run(s) as int);
    lemma_alternatives_keep(start, math);
    if let Some((after, node)) = parse_alternatives(start, math) {
        lemma_without_leading_space(after);
    }
}

proof fn lemma_elements_keep(s: Seq<char>, math: bool)
    ensures
        splits(s, source_all(parse_elements(s, math).1), parse_elements(s, math).0),
    decreases s.len(), 3nat,
{
    lemma_element_keeps(s, math);
    match parse_element(s, math) {
        Some((rest, node)) => {
            if rest.len() < s.len() {
                lemma_elements_keep(rest, math);
                let (end, more) = parse_elements(rest, math);
                lemma_source_prepend(node, more);
                assert(without_space(source(node)) + (without_space(source_all(more))
                    + without_space(end)) =~= (without_space(source(node)) + without_space(
                    source_all(more),
                )) + without_space(end));
            } else {
                assert(without_space(Seq::<char>::empty()) + without_space(s) =~= without_space(
                    s,
                ));
            }
        },
        None => {
            assert(without_space(Seq::<char>::empty()) + without_space(s) =~= without_space(s));
        },
    }
}

/// Parsing drops nothing but separating characters: the source text of the
/// elements of a text that parses holds the characters of the text, in
/// order, but for the separating ones.
pub proof fn law_parse_keeps_every_character(s: Seq<char>)
    ensures
        parse_document(s) matches Ok(items) ==> without_space(source_all(items)) == without_space(
            s,
        ),
{
    lemma_elements_keep(s, false);
    let (rest, items) = parse_elements(s, false);
    lemma_without_leading_space(rest);
    if parse_document(s) is Ok {
        assert(rest.skip(space_run(rest) as int) =~= Seq::<char>::empty());
        assert(without_space(source_all(items)) + Seq::<char>::empty() =~= without_space(
            source_all(items),
        ));
    }
}

/// Whether `rest` is the end of `s`.
pub open spec fn is_suffix(rest: Seq<char>, s: Seq<char>) -> bool {
    rest.len() <= s.len() && rest == s.skip(s.len() - rest.len())
}

proof fn lemma_suffix_of_skip(rest: Seq<char>, s: Seq<char>, k: int)
    requires
        0 <= k <= s.len(),
        is_suffix(rest, s.skip(k)),
    ensures
        is_suffix(rest, s),
{
    assert(s.skip(k).skip(s.skip(k).len() - rest.len()) =~= s.skip(s.len() - rest.len()));
}

proof fn lemma_skip_of_suffix(rest: Seq<char>, s: Seq<char>, k: int)
    requires
        0 <= k <= rest.len(),
        is_suffix(rest, s),
    ensures
        is_suffix(rest.skip(k), s),
{
    assert(s.skip(s.len() - rest.len()).skip(k) =~= s.skip(s.len() - rest.skip(k).len()));
}

proof fn lemma_groups_end(s: Seq<char>)
    ensures
        parse_brace(s) matches Some((rest, _)) ==> is_suffix(rest, s),
        parse_display_math(s) matches Some((rest, _)) ==> is_suffix(rest, s),
        parse_inline_math(s) matches Some((rest, _)) ==> is_suffix(rest, s),
    decreases s.len(), 0nat,
{
    if let Some((rest, _)) = parse_brace(s) {
        let left = parse_elements(s.skip(1), false).0;
        lemma_elements_end(s.skip(1), false);
        lemma_skip_of_suffix(left, s.skip(1), 1);
        lemma_suffix_of_skip(rest, s, 1);
    }
    if let Some((rest, _)) = parse_inline_math(s) {
        let left = parse_elements(s.skip(1), true).0;
        lemma_elements_end(s.skip(1), true);
        lemma_skip_of_suffix(left, s.skip(1), 1);
        lemma_suffix_of_skip(rest, s, 1);
    }
    if let Some((rest, _)) = parse_display_math(s) {
        let left = parse_elements(s.skip(2), true).0;
        lemma_elements_end(s.skip(2), true);
        lemma_skip_of_suffix(left, s.skip(2), 2);
        lemma_suffix_of_skip(rest, s, 2);
    }
}

proof fn lemma_element_ends(s: Seq<char>, math: bool)
    ensures
        parse_element(s, math) matches Some((rest, _)) ==> is_suffix(rest, s),
    decreases s.len(), 2nat,
{
    lemma_space_run_bound(s);
    let start = s.skip(space_run(s) as int);
    lemma_groups_end(start);
    if let Some((after, _)) = parse_alternatives(start, math) {
        assert(is_suffix(after, start)) by {
            if start.len() > 0 && start[0] == '{' {
            } else if !math && parse_display_math(start) is Some {
            } else if !math && parse_inline_math(start) is Some {
            } else if parse_command(start) is Some {
                lemma_alpha_run_bound(start.skip(1));
                let n = alpha_run(start.skip(1)) as int;
                assert(start.skip(1).skip(n) =~= start.skip(start.len() - after.len()));
            } else {
            }
        }
        lemma_space_run_bound(after);
        lemma_skip_of_suffix(after, start, space_run(after) as int);
        lemma_suffix_of_skip(after.skip(space_run(after) as int), s, space_run(s) as int);
    }
}

proof fn lemma_elements_end(s: Seq<char>, math: bool)
    ensures
        is_suffix(parse_elements(s, math).0, s),
        parse_element(parse_elements(s, math).0, math) is None,
    decreases s.len(), 3nat,
{
    lemma_element_ends(s, math);
    lemma_progress(s, math);
    match parse_element(s, math) {
        Some((rest, _)) => {
            lemma_elements_end(rest, math);
            lemma_suffix_of_skip(parse_elements(rest, math).0, s, s.len() - rest.len());
        },
        None => {
            assert(s.skip(0) =~= s);
        },
    }
}

/// A text that does not parse is malformed at a delimiter: the character
/// that the error points at is `{`, `}` or `$`, and the error says
/// unterminated math exactly when it is `$`.
pub proof fn law_error_stands_at_delimiter(s: Seq<char>)
    requires
        s.len() <= usize::MAX,
    ensures
        parse_document(s) matches Err(e) ==> {
            &&& e.offset < s.len()
            &&& is_delimiter(s[e.offset as int])
            &&& e.kind == stop_kind(s[e.offset as int])
            &&& e.kind != ParseErrorKind::BadEscape
        },
{
    lemma_elements_end(s, false);
    let rest = parse_elements(s, false).0;
    lemma_space_run_bound(rest);
    let stop = rest.skip(space_run(rest) as int);
    lemma_skip_of_suffix(rest, s, space_run(rest) as int);
    if stop.len() > 0 {
        assert(stop[0] == s[s.len() - stop.len()]);
    }
}

/// Whether a tree is one that parsing can give. A command's name is made
/// of letters, of which there is at least one; a literal character is no
/// delimiter and no separating character; and a math group stands nowhere
/// directly inside a math group (`math` says whether `node` itself stands
/// directly inside one).
pub open spec fn well_formed(node: Node, math: bool) -> bool
    decreases node,
{
    match node {
        Node::Str(name) => name.len() > 0 && forall|i: int|
            0 <= i < name.len() ==> is_alpha(#[trigger] name[i]),
        Node::Char(c) => !is_delimiter(c) && !is_space(c),
        Node::Brace(items) => forall|i: int|
            0 <= i < items.len() ==> well_formed(#[trigger] items[i], false),
        Node::IMath(items) => !math && forall|i: int|
            0 <= i < items.len() ==> well_formed(#[trigger] items[i], true),
        Node::DMath(items) => !math && forall|i: int|
            0 <= i < items.len() ==> well_formed(#[trigger] items[i], true),
    }
}

/// Whether each of `items` is well formed.
pub open spec fn all_well_formed(items: Seq<Node>, math: bool) -> bool {
    forall|i: int| 0 <= i < items.len() ==> well_formed(#[trigger] items[i], math)
}

proof fn lemma_well_formed_prepend(node: Node, more: Seq<Node>, math: bool)
    requires
        well_formed(node, math),
        all_well_formed(more, math),
    ensures
        all_well_formed(seq![node] + more, math),
{
    let all = seq![node] + more;
    assert forall|i: int| 0 <= i < all.len() implies well_formed(#[trigger] all[i], math) by {
        if i > 0 {
            assert(all[i] == more[i - 1]);
        }
    }
}

proof fn lemma_after_space(s: Seq<char>)
    ensures
        space_run(s) <= s.len(),
        space_run(s) < s.len() ==> !is_space(s[space_run(s) as int]),
    decreases s.len(),
{
    if s.len() > 0 && is_space(s[0]) {
        lemma_after_space(s.skip(1));
    }
}

proof fn lemma_alpha_prefix(s: Seq<char>, i: int)
    requires
        0 <= i < alpha_run(s),
    ensures
        i < s.len(),
        is_alpha(s[i]),
    decreases s.len(),
{
    if i > 0 {
        lemma_alpha_prefix(s.skip(1), i - 1);
    }
}

proof fn lemma_groups_well_formed(s: Seq<char>)
    ensures
        parse_brace(s) matches Some((_, node)) ==> well_formed(node, false) && well_formed(
            node,
            true,
        ),
        parse_display_math(s) matches Some((_, node)) ==> well_formed(node, false),
        parse_inline_math(s) matches Some((_, node)) ==> well_formed(node, false),
    decreases s.len(), 0nat,
{
    if s.len() > 0 {
        lemma_elements_well_formed(s.skip(1), false);
        lemma_elements_well_formed(s.skip(1), true);
    }
    if s.len() >= 2 {
        lemma_elements_well_formed(s.skip(2), true);
    }
}

proof fn lemma_element_well_formed(s: Seq<char>, math: bool)
    ensures
        parse_element(s, math) matches Some((_, node)) ==> well_formed(node, math),
    decreases s.len(), 2nat,
{
    lemma_after_space(s);
    let start = s.skip(space_run(s) as int);
    lemma_groups_well_formed(start);
    if let Some((_, node)) = parse_alternatives(start, math) {
        if start.len() > 0 && start[0] == '{' {
        } else if !math && parse_display_math(start) is Some {
        } else if !math && parse_inline_math(start) is Some {
        } else if let Some((_, name)) = parse_command(start) {
            lemma_alpha_run_bound(start.skip(1));
            assert forall|i: int| 0 <= i < name.len() implies is_alpha(#[trigger] name[i]) by {
                lemma_alpha_prefix(start.skip(1), i);
            }
        } else {
            assert(start[0] == s[space_run(s) as int]);
        }
    }
}

proof fn lemma_elements_well_formed(s: Seq<char>, math: bool)
    ensures
        all_well_formed(parse_elements(s, math).1, math),
    decreases s.len(), 3nat,
{
    lemma_element_well_formed(s, math);
    if let Some((rest, node)) = parse_element(s, math) {
        if rest.len() < s.len() {
            lemma_elements_well_formed(rest, math);
            lemma_well_formed_prepend(node, parse_elements(rest, math).1, math);
        }
    }
}

/// The tree of a text that parses is well formed: groups are nested, names
/// are made of letters, no delimiter stands for itself, and math holds no
/// math directly.
pub proof fn law_parsed_tree_is_well_formed(s: Seq<char>)
    ensures
        parse_document(s) matches Ok(items) ==> all_well_formed(items, false),
{
    lemma_elements_well_formed(s, false);
}

/// Whether a tree is well formed and holds something in each inline math
/// group. Inline math that holds nothing is written `$$`, which is read as
/// the start of display math.
pub open spec fn writable(node: Node, math: bool) -> bool
    decreases node,
{
    match node {
        Node::Str(name) => name.len() > 0 && forall|i: int|
            0 <= i < name.len() ==> is_alpha(#[trigger] name[i]),
        Node::Char(c) => !is_delimiter(c) && !is_space(c),
        Node::Brace(items) => forall|i: int|
            0 <= i < items.len() ==> writable(#[trigger] items[i], false),
        Node::IMath(items) => !math && items.len() > 0 && forall|i: int|
            0 <= i < items.len() ==> writable(#[trigger] items[i], true),
        Node::DMath(items) => !math && forall|i: int|
            0 <= i < items.len() ==> writable(#[trigger] items[i], true),
    }
}

/// Whether each of `items` is writable.
pub open spec fn all_writable(items: Seq<Node>, math: bool) -> bool {
    forall|i: int| 0 <= i < items.len() ==> writable(#[trigger] items[i], math)
}

/// Where a run of elements ends: at the end of the text, at a `}`, and
/// inside math at a `$`.
pub open spec fn ends_elements(tail: Seq<char>, math: bool) -> bool {
    tail.len() == 0 || tail[0] == '}' || (math && tail[0] == '$')
}

proof fn lemma_source_starts(node: Node, math: bool)
    requires
        writable(node, math),
    ensures
        source(node).len() > 0,
        !is_space(source(node)[0]),
        math ==> source(node)[0] != '$',
{
}

proof fn lemma_source_all_starts(items: Seq<Node>, math: bool)
    requires
        all_writable(items, math),
        items.len() > 0,
    ensures
        source_all(items).len() > 0,
        source_all(items)[0] == source(items[0])[0],
        !is_space(source_all(items)[0]),
        math ==> source_all(items)[0] != '$',
{
    assert(writable(items[0], math));
    lemma_source_starts(items[0], math);
}

proof fn lemma_alpha_run_of_name(name: Seq<char>, tail: Seq<char>)
    requires
        forall|i: int| 0 <= i < name.len() ==> is_alpha(#[trigger] name[i]),
        tail.len() > 0 ==> !is_alpha(tail[0]),
    ensures
        alpha_run(name + tail) == name.len(),
    decreases name.len(),
{
    if name.len() == 0 {
        assert(name + tail =~= tail);
    } else {
        assert(is_alpha(name[0]));
        assert((name + tail)[0] == name[0]);
        assert((name + tail).skip(1) =~= name.skip(1) + tail);
        assert forall|i: int| 0 <= i < name.skip(1).len() implies is_alpha(
            #[trigger] name.skip(1)[i],
        ) by {
            assert(name.skip(1)[i] == name[i + 1]);
        }
        lemma_alpha_run_of_name(name.skip(1), tail);
    }
}

proof fn lemma_no_element(tail: Seq<char>, math: bool)
    requires
        ends_elements(tail, math),
    ensures
        parse_element(tail, math) is None,
        parse_elements(tail, math) == (tail, Seq::<Node>::empty()),
        space_run(tail) == 0,
{
    assert(tail.skip(0) =~= tail);
}

proof fn lemma_reads_node(node: Node, tail: Seq<char>, math: bool)
    requires
        writable(node, math),
        tail.len() > 0 ==> !is_alpha(tail[0]),
    ensures
        parse_alternatives(source(node) + tail, math) == Some((tail, node)),
    decreases node, 0nat,
{
    let s = source(node) + tail;
    match node {
        Node::Char(c) => {
            assert(s[0] == c);
            assert(s.skip(1) =~= tail);
            if c == '\\' {
                if tail.len() > 0 {
                    assert(alpha_run(tail) == 0);
                }
            }
        },
        Node::Str(name) => {
            assert(s[0] == '\\');
            assert(s.skip(1) =~= name + tail);
            lemma_alpha_run_of_name(name, tail);
            assert((name + tail).skip(name.len() as int) =~= tail);
            assert((name + tail).take(name.len() as int) =~= name);
        },
        Node::Brace(items) => {
            let inner = seq!['}'] + tail;
            assert(s[0] == '{');
            assert(s.skip(1) =~= source_all(items) + inner);
            lemma_reads_all(items, inner, false);
            assert(inner.skip(1) =~= tail);
        },
        Node::IMath(items) => {
            let inner = seq!['$'] + tail;
            assert(s[0] == '$');
            assert(s.skip(1) =~= source_all(items) + inner);
            assert(all_writable(items, true));
            lemma_source_all_starts(items, true);
            assert(s[1] == source_all(items)[0]);
            lemma_reads_all(items, inner, true);
            assert(inner.skip(1) =~= tail);
        },
        Node::DMath(items) => {
            let inner = seq!['$', '$'] + tail;
            assert(s[0] == '$' && s[1] == '$');
            assert(s.skip(2) =~= source_all(items) + inner);
            lemma_reads_all(items, inner, true);
            assert(inner.skip(2) =~= tail);
        },
    }
}

proof fn lemma_reads_all(items: Seq<Node>, tail: Seq<char>, math: bool)
    requires
        all_writable(items, math),
        ends_elements(tail, math),
    ensures
        parse_elements(source_all(items) + tail, math) == (tail, items),
    decreases items, 1nat,
{
    let s = source_all(items) + tail;
    lemma_no_element(tail, math);
    if items.len() == 0 {
        assert(s =~= tail);
        assert(items =~= Seq::<Node>::empty());
    } else {
        let first = items[0];
        let rest = items.skip(1);
        assert(writable(first, math));
        lemma_source_starts(first, math);
        assert(all_writable(rest, math)) by {
            assert forall|i: int| 0 <= i < rest.len() implies writable(
                #[trigger] rest[i],
                math,
            ) by {
                assert(rest[i] == items[i + 1]);
            }
        }
        assert(s[0] == source(first)[0]);
        assert(space_run(s) == 0);
        assert(s.skip(0) =~= s);
        if rest.len() == 0 {
            assert(s =~= source(first) + tail);
            lemma_reads_node(first, tail, math);
            assert(tail.skip(0) =~= tail);
            assert(parse_element(s, math) == Some((tail, first)));
            assert(seq![first] + Seq::<Node>::empty() =~= items);
        } else {
            let after = seq![' '] + (source_all(rest) + tail);
            let next = source_all(rest) + tail;
            assert(s =~= source(first) + after);
            lemma_reads_node(first, after, math);
            lemma_source_all_starts(rest, math);
            assert(after.skip(1) =~= next);
            assert(next[0] == source_all(rest)[0]);
            assert(space_run(next) == 0);
            assert(space_run(after) == 1);
            assert(parse_element(s, math) == Some((next, first)));
            lemma_reads_all(rest, tail, math);
            assert(seq![first] + rest =~= items);
        }
    }
}

/// A writable tree is the parse of its source text.
pub proof fn law_source_parses_back(items: Seq<Node>)
    requires
        all_writable(items, false),
    ensures
        parse_document(source_all(items)) == Ok::<Seq<Node>, ParseError>(items),
{
    lemma_reads_all(items, Seq::empty(), false);
    assert(source_all(items) + Seq::<char>::empty() =~= source_all(items));
    assert(Seq::<char>::empty().skip(0) =~= Seq::<char>::empty());
}

} // verus!
