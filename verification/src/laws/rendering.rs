//! Laws of rendering: what is written for the simplest trees, and that the
//! same tree and table always give the same text.
use vstd::prelude::*;
use regex::Regex;
use crate::element::{nodes, Element, Node};
use crate::error::StructuralError;
use crate::laws::parsing::{all_plain, is_plain, lemma_literals_index, literals};
use crate::laws::tables::law_earliest_rule_wins;
use crate::render::{render, render_from};
use crate::replace::is_rendering;
use crate::rules::{default_rules_model, lookup, regex_matches, rules_model, RuleModel};

verus! {

/// The characters of `s` with one space between each two.
pub open spec fn separated(s: Seq<char>) -> Seq<char>
    decreases s.len(),
{
    if s.len() == 0 {
        Seq::empty()
    } else if s.len() == 1 {
        seq![s[0]]
    } else {
        separated(s.drop_last()) + seq![' ', s.last()]
    }
}

proof fn lemma_separated_last(s: Seq<char>)
    requires
        s.len() > 0,
    ensures
        separated(s).len() > 0,
        separated(s).last() == s.last(),
{
}

proof fn lemma_plain_render(s: Seq<char>, k: int, rules: Seq<RuleModel>)
    requires
        all_plain(s),
        0 <= k <= s.len(),
    ensures
        render_from(literals(s), k, separated(s.take(k)), Seq::empty(), rules) == Ok::<
            Seq<char>,
            StructuralError,
        >(separated(s)),
    decreases s.len() - k,
{
    lemma_literals_index(s);
    if k == s.len() {
        assert(s.take(k) =~= s);
    } else {
        let out = separated(s.take(k));
        let next = s.take(k + 1);
        assert(next.drop_last() =~= s.take(k));
        assert(next.last() == s[k]);
        if k > 0 {
            lemma_separated_last(s.take(k));
            assert(s.take(k).last() == s[k - 1]);
            assert(is_plain(s[k - 1]));
            assert(out.push(' ') + seq![s[k]] =~= out + seq![' ', s[k]]);
        } else {
            assert(out + seq![s[k]] =~= seq![s[k]]);
        }
        lemma_plain_render(s, k + 1, rules);
    }
}

/// The character elements of a text of plain characters are rendered,
/// whatever the rule table, as the characters with one space between each
/// two.
pub proof fn law_plain_text_renders(s: Seq<char>, rules: Seq<RuleModel>)
    requires
        all_plain(s),
    ensures
        render(literals(s), rules) == Ok::<Seq<char>, StructuralError>(separated(s)),
{
    lemma_plain_render(s, 0, rules);
    assert(s.take(0) =~= Seq::<char>::empty());
}

/// The names of the commands that rendering handles itself and never looks
/// up in the rule table.
pub open spec fn is_structural(name: Seq<char>) -> bool {
    name == "frac"@ || name == "mathcal"@ || name == "left"@ || name == "right"@ || name
        == "begin"@ || name == "end"@ || name == "label"@
}

/// A command on its own that rendering does not handle itself is written as
/// the replacement of the first rule that matches its name, and as its name
/// where no rule matches.
pub proof fn law_command_alone(name: Seq<char>, rules: Seq<RuleModel>)
    requires
        !is_structural(name),
    ensures
        render(seq![Node::Str(name)], rules) == Ok::<Seq<char>, StructuralError>(
            match lookup(rules, name) {
                Some(replacement) => replacement,
                None => name,
            },
        ),
{
    let elems = seq![Node::Str(name)];
    let text = match lookup(rules, name) {
        Some(replacement) => replacement,
        None => name,
    };
    assert(Seq::<char>::empty() + text =~= text);
    assert(render_from(elems, 1, text, Seq::empty(), rules) == Ok::<Seq<char>, StructuralError>(
        text,
    ));
}

/// With the built-in table, a command whose name the pattern `partial`
/// matches, and not the pattern `notag` before it, is written as `diff`.
pub proof fn law_default_partial(name: Seq<char>)
    requires
        !is_structural(name),
        regex_matches("partial"@, name),
        !regex_matches("notag"@, name),
    ensures
        render(seq![Node::Str(name)], default_rules_model()) == Ok::<Seq<char>, StructuralError>(
            "diff"@,
        ),
{
    law_earliest_rule_wins(default_rules_model(), name, 1);
    law_command_alone(name, default_rules_model());
}

/// With the built-in table, a command whose name the pattern `varepsilon`
/// matches, and neither of the two patterns before it, is written as
/// `epsilon`.
pub proof fn law_default_varepsilon(name: Seq<char>)
    requires
        !is_structural(name),
        regex_matches("varepsilon"@, name),
        !regex_matches("notag"@, name),
        !regex_matches("partial"@, name),
    ensures
        render(seq![Node::Str(name)], default_rules_model()) == Ok::<Seq<char>, StructuralError>(
            "epsilon"@,
        ),
{
    law_earliest_rule_wins(default_rules_model(), name, 2);
    law_command_alone(name, default_rules_model());
}

/// Rendering is a function of the tree and the table: two results for
/// trees and tables with the same models are the same, text for text and
/// error for error.
pub proof fn law_rendering_is_a_function(
    elems: Seq<Element<'_>>,
    rules: Seq<(Regex, String)>,
    again_elems: Seq<Element<'_>>,
    again_rules: Seq<(Regex, String)>,
    first: Result<String, StructuralError>,
    second: Result<String, StructuralError>,
)
    requires
        nodes(elems) == nodes(again_elems),
        rules_model(rules) == rules_model(again_rules),
        is_rendering(first, nodes(elems), rules_model(rules)),
        is_rendering(second, nodes(again_elems), rules_model(again_rules)),
    ensures
        match (first, second) {
            (Ok(a), Ok(b)) => a@ == b@,
            (Err(a), Err(b)) => a == b,
            _ => false,
        },
{
}

} // verus!
