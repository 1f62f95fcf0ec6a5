//! Laws of the rule table: which rule applies, and that rule text reads
//! back.
use vstd::prelude::*;
use crate::rules::{lookup, regex_matches, rules_of_text, rules_text, RuleModel};
use crate::text::position;

verus! {

/// The first rule in table order whose pattern matches a name is the one
/// that applies, also where later rules match the name too.
pub proof fn law_earliest_rule_wins(rules: Seq<RuleModel>, name: Seq<char>, i: int)
    requires
        0 <= i < rules.len(),
        regex_matches(rules[i].0, name),
        forall|j: int| 0 <= j < i ==> !regex_matches(rules[j].0, name),
    ensures
        lookup(rules, name) == Some(rules[i].1),
    decreases i,
{
    if i > 0 {
        let rest = rules.skip(1);
        assert(rest[i - 1] == rules[i]);
        assert forall|j: int| 0 <= j < i - 1 implies !regex_matches(rest[j].0, name) by {
            assert(rest[j] == rules[j + 1]);
        }
        law_earliest_rule_wins(rest, name, i - 1);
    }
}

/// A name that no rule matches has no replacement.
pub proof fn law_no_rule_matches(rules: Seq<RuleModel>, name: Seq<char>)
    requires
        forall|j: int| 0 <= j < rules.len() ==> !regex_matches(rules[j].0, name),
    ensures
        lookup(rules, name) is None,
    decreases rules.len(),
{
    if rules.len() > 0 {
        let rest = rules.skip(1);
        assert forall|j: int| 0 <= j < rest.len() implies !regex_matches(rest[j].0, name) by {
            assert(rest[j] == rules[j + 1]);
        }
        law_no_rule_matches(rest, name);
    }
}

/// A rule that rule text can hold: no `/` in its pattern, and no line feed
/// in its pattern or its replacement.
pub open spec fn fits_a_line(rule: RuleModel) -> bool {
    !rule.0.contains('/') && !rule.0.contains('\n') && !rule.1.contains('\n')
}

/// The line of rule text that holds `rule`.
pub open spec fn rule_line(rule: RuleModel) -> Seq<char> {
    rule.0 + seq!['/'] + rule.1 + seq!['\n']
}

proof fn lemma_position_after(a: Seq<char>, b: Seq<char>, c: char)
    requires
        !a.contains(c),
    ensures
        position(a + b, c) == a.len() + position(b, c),
    decreases a.len(),
{
    if a.len() == 0 {
        assert(a + b =~= b);
    } else {
        assert(a[0] != c);
        assert((a + b).skip(1) =~= a.skip(1) + b);
        assert forall|i: int| 0 <= i < a.skip(1).len() implies a.skip(1)[i] != c by {
            assert(a[i + 1] != c);
        }
        lemma_position_after(a.skip(1), b, c);
    }
}

proof fn lemma_rule_line_is_read(rule: RuleModel, tail: Seq<char>)
    requires
        fits_a_line(rule),
    ensures
        rules_of_text(rule_line(rule) + tail) == seq![rule] + rules_of_text(tail),
{
    let line = rule.0 + seq!['/'] + rule.1;
    let text = rule_line(rule) + tail;
    assert(!line.contains('\n')) by {
        if line.contains('\n') {
            let i = choose|i: int| 0 <= i < line.len() && line[i] == '\n';
            if i < rule.0.len() {
                assert(rule.0[i] == '\n');
            } else if i > rule.0.len() {
                assert(rule.1[i - rule.0.len() - 1] == '\n');
            }
        }
    }
    assert(text =~= line + (seq!['\n'] + tail));
    lemma_position_after(line, seq!['\n'] + tail, '\n');
    assert(position(text, '\n') == line.len());
    assert(text.take(line.len() as int) =~= line);
    assert(text.skip(line.len() as int + 1) =~= tail);
    assert(line =~= rule.0 + (seq!['/'] + rule.1));
    lemma_position_after(rule.0, seq!['/'] + rule.1, '/');
    assert(position(line, '/') == rule.0.len());
    assert(line.take(rule.0.len() as int) =~= rule.0);
    assert(line.skip(rule.0.len() as int + 1) =~= rule.1);
}

proof fn lemma_rules_text_prepend(rule: RuleModel, rest: Seq<RuleModel>)
    ensures
        rules_text(seq![rule] + rest) == rule_line(rule) + rules_text(rest),
    decreases rest.len(),
{
    let all = seq![rule] + rest;
    if rest.len() == 0 {
        assert(all.drop_last() =~= Seq::<RuleModel>::empty());
        assert(all.last() == rule);
        assert(rules_text(all.drop_last()) =~= Seq::<char>::empty());
        assert(rules_text(all) =~= rule_line(rule) + rules_text(rest));
    } else {
        assert(all.drop_last() =~= seq![rule] + rest.drop_last());
        assert(all.last() == rest.last());
        lemma_rules_text_prepend(rule, rest.drop_last());
        assert(rules_text(all) =~= rule_line(rule) + rules_text(rest));
    }
}

/// Rule text that was written from a table reads back as that table,
/// provided that each rule fits a line.
pub proof fn law_rule_text_reads_back(rules: Seq<RuleModel>)
    requires
        forall|i: int| 0 <= i < rules.len() ==> fits_a_line(#[trigger] rules[i]),
    ensures
        rules_of_text(rules_text(rules)) == rules,
    decreases rules.len(),
{
    if rules.len() == 0 {
        assert(rules_of_text(Seq::<char>::empty()) =~= Seq::<RuleModel>::empty());
    } else {
        let rest = rules.skip(1);
        assert(rules =~= seq![rules[0]] + rest);
        assert forall|i: int| 0 <= i < rest.len() implies fits_a_line(#[trigger] rest[i]) by {
            assert(rest[i] == rules[i + 1]);
        }
        assert(fits_a_line(rules[0]));
        lemma_rules_text_prepend(rules[0], rest);
        lemma_rule_line_is_read(rules[0], rules_text(rest));
        law_rule_text_reads_back(rest);
    }
}

} // verus!
