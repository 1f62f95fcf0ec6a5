//! The rule table: an ordered list of patterns, each with the text that
//! replaces a command whose name the pattern matches.
//!
//! A pattern is a regular expression of the `regex` crate. The table is
//! searched in order, and the first rule whose pattern matches anywhere in a
//! command's name applies.
use vstd::prelude::*;
use regex::Regex;
use crate::text::{lemma_position_bound, position, push_str, split_once, string_of};

verus! {

/// `regex::Regex`, a compiled regular expression. Nothing of its inside is
/// known here.
#[verifier::external_type_specification]
#[verifier::external_body]
pub struct ExRegex(regex::Regex);

/// `regex::Error`, the reason why a pattern did not compile. Nothing of its
/// inside is known here.
#[verifier::external_type_specification]
#[verifier::external_body]
pub struct ExRegexError(regex::Error);

/// The pattern of a compiled regular expression: what decides, together
/// with a text, whether it matches. For one that `Regex::new` made it is the
/// text that was compiled.
pub uninterp spec fn regex_source(re: Regex) -> Seq<char>;

/// Whether a regular expression with the pattern `pattern` matches somewhere
/// in `text`: what `Regex::is_match` answers.
pub uninterp spec fn regex_matches(pattern: Seq<char>, text: Seq<char>) -> bool;

/// `Regex::new` compiles a pattern. Nothing is claimed on which patterns it
/// accepts. A regular expression that it hands back has the text given as
/// its pattern.
pub assume_specification[ Regex::new ](re: &str) -> (r: Result<Regex, regex::Error>)
    ensures
        r matches Ok(compiled) ==> regex_source(compiled) == re@,
;

/// `Regex::is_match` says whether the regular expression matches anywhere in
/// the text. Its answer depends on the pattern and the text alone, and
/// `regex_matches` is the name of that answer.
pub assume_specification[ Regex::is_match ](re: &Regex, haystack: &str) -> (found: bool)
    ensures
        found == regex_matches(regex_source(*re), haystack@),
;

/// The model of a rule: its pattern and its replacement, as text.
pub type RuleModel = (Seq<char>, Seq<char>);

/// A pattern of a rule text could not be compiled.
#[derive(Debug, PartialEq)]
pub struct RuleParseError {
    /// Which rule it was, counting from 0 the lines that hold a rule.
    pub rule: usize,
    /// What the `regex` crate reported.
    pub cause: regex::Error,
}

/// The model of one rule of a table.
pub open spec fn rule_model(rule: (Regex, String)) -> RuleModel {
    (regex_source(rule.0), rule.1@)
}

/// The models of the rules of a table, in order.
pub open spec fn rules_model(rules: Seq<(Regex, String)>) -> Seq<RuleModel> {
    Seq::new(rules.len(), |i: int| rule_model(rules[i]))
}

/// The replacement of the first rule whose pattern matches `name`.
pub open spec fn lookup(rules: Seq<RuleModel>, name: Seq<char>) -> Option<Seq<char>>
    decreases rules.len(),
{
    if rules.len() == 0 {
        None
    } else if regex_matches(rules[0].0, name) {
        Some(rules[0].1)
    } else {
        lookup(rules.skip(1), name)
    }
}

/// The rule that a line of a rule text holds: the text before the first `/`
/// is the pattern, the text after it the replacement. A line without `/`
/// holds no rule.
pub open spec fn rule_of_line(line: Seq<char>) -> Option<RuleModel> {
    let n = position(line, '/') as int;
    if n < line.len() {
        Some((line.take(n), line.skip(n + 1)))
    } else {
        None
    }
}

/// The rules that one line of a rule text holds: one or none.
pub open spec fn rules_of_line(line: Seq<char>) -> Seq<RuleModel> {
    match rule_of_line(line) {
        Some(rule) => seq![rule],
        None => Seq::empty(),
    }
}

/// The rules that a rule text holds, line by line. Lines end at `\n`.
pub open spec fn rules_of_text(text: Seq<char>) -> Seq<RuleModel>
    decreases text.len(),
{
    let n = position(text, '\n') as int;
    if n < text.len() {
        rules_of_line(text.take(n)) + rules_of_text(text.skip(n + 1))
    } else {
        rules_of_line(text)
    }
}

/// The built-in table.
pub open spec fn default_rules_model() -> Seq<RuleModel> {
    seq![
        ("notag"@, ""@),
        ("partial"@, "diff"@),
        ("varepsilon"@, "epsilon"@),
        ("int"@, "integral"@),
        ("vec"@, "arrow"@),
        ("ddot"@, "dot.double"@),
        ("cdots"@, "dots"@),
        ("vdots"@, "dots"@),
        ("hdots"@, "dots"@),
        ("ddots"@, "dots.down"@),
        ("langle"@, "angle"@),
        ("rangle"@, "angle"@),
        ("circletimes"@, "times.circle"@),
        ("mathbf"@, "bold"@),
        ("textbf"@, "bold"@),
    ]
}

/// Looks `name` up in the table: the index of the first rule whose pattern
/// matches somewhere in `name`.
pub fn find_rule(name: &str, rules: &[(Regex, String)]) -> (r: Option<usize>)
    ensures
        match r {
            Some(i) => {
                &&& i < rules@.len()
                &&& regex_matches(regex_source(rules@[i as int].0), name@)
                &&& forall|j: int| 0 <= j < i ==> !regex_matches(regex_source(rules@[j].0), name@)
                &&& lookup(rules_model(rules@), name@) == Some(rules@[i as int].1@)
            },
            None => {
                &&& forall|j: int|
                    0 <= j < rules@.len() ==> !regex_matches(regex_source(rules@[j].0), name@)
                &&& lookup(rules_model(rules@), name@) is None
            },
        },
{
    let ghost table = rules_model(rules@);
    let mut i: usize = 0;
    assert(table.skip(0) =~= table);
    while i < rules.len()
        invariant
            i <= rules@.len(),
            table == rules_model(rules@),
            forall|j: int| 0 <= j < i ==> !regex_matches(regex_source(rules@[j].0), name@),
            lookup(table, name@) == lookup(table.skip(i as int), name@),
        decreases rules.len() - i,
    {
        let found = rules[i].0.is_match(name);
        proof {
            let tail = table.skip(i as int);
            assert(tail[0] == rule_model(rules@[i as int]));
            assert(tail.skip(1) =~= table.skip(i + 1));
        }
        if found {
            return Some(i);
        }
        i = i + 1;
    }
    None
}

/// Adds to the table the rule that `compiled` and `replacement` make, where
/// `compiled` is what compiling the rule's pattern gave. A pattern that did
/// not compile leaves the table as it was, and the error names the rule by
/// its place in the table.
pub fn add_rule(
    rules: &mut Vec<(Regex, String)>,
    compiled: Result<Regex, regex::Error>,
    replacement: &str,
) -> (r: Result<(), RuleParseError>)
    ensures
        match compiled {
            Ok(re) => {
                &&& r is Ok
                &&& final(rules)@.len() == old(rules)@.len() + 1
                &&& final(rules)@.drop_last() == old(rules)@
                &&& final(rules)@.last().0 == re
                &&& final(rules)@.last().1@ == replacement@
            },
            Err(cause) => {
                &&& r matches Err(e) && e.rule == old(rules)@.len() && e.cause == cause
                &&& final(rules)@ == old(rules)@
            },
        },
{
    match compiled {
        Ok(re) => {
            rules.push((re, replacement.to_owned()));
            assert(rules@.drop_last() =~= old(rules)@);
            Ok(())
        },
        Err(cause) => Err(RuleParseError { rule: rules.len(), cause }),
    }
}

/// Compiles `pattern` and adds the rule that it makes with `replacement`.
pub fn push_rule(rules: &mut Vec<(Regex, String)>, pattern: &str, replacement: &str) -> (r:
    Result<(), RuleParseError>)
    ensures
        match r {
            Ok(()) => {
                &&& final(rules)@.len() == old(rules)@.len() + 1
                &&& final(rules)@.drop_last() == old(rules)@
                &&& rule_model(final(rules)@.last()) == (pattern@, replacement@)
                &&& rules_model(final(rules)@) == rules_model(old(rules)@).push(
                    (pattern@, replacement@),
                )
            },
            Err(e) => e.rule == old(rules)@.len() && final(rules)@ == old(rules)@,
        },
{
    let compiled = Regex::new(pattern);
    let r = add_rule(rules, compiled, replacement);
    proof {
        if r is Ok {
            assert(rules@.drop_last() == old(rules)@);
            assert(rules_model(rules@) =~= rules_model(old(rules)@).push(
                (pattern@, replacement@),
            )) by {
                assert forall|i: int| 0 <= i < old(rules)@.len() implies rules@[i] == old(
                    rules,
                )@[i] by {
                    assert(rules@.drop_last()[i] == rules@[i]);
                }
            }
        }
    }
    r
}

/// Reads one line of a rule text into the table.
fn read_line(rules: &mut Vec<(Regex, String)>, line: &str) -> (r: Result<(), RuleParseError>)
    ensures
        match r {
            Ok(()) => rules_model(final(rules)@) == rules_model(old(rules)@) + rules_of_line(
                line@,
            ),
            Err(e) => {
                &&& rule_of_line(line@) is Some
                &&& e.rule == old(rules)@.len()
                &&& final(rules)@ == old(rules)@
            },
        },
        rule_of_line(line@) is None ==> r is Ok,
{
    match split_once(line, '/') {
        Some((from, to)) => {
            let r = push_rule(rules, from, to);
            proof {
                if r is Ok {
                    assert(rules_model(old(rules)@).push((from@, to@)) =~= rules_model(
                        old(rules)@,
                    ) + rules_of_line(line@));
                }
            }
            r
        },
        None => {
            assert(rules_model(rules@) + rules_of_line(line@) =~= rules_model(rules@));
            Ok(())
        },
    }
}

/// Reads a rule table from text. Each line that holds a `/` is a rule: the
/// text before the first `/` is the pattern, the rest of the line the
/// replacement, which may be empty. Other lines are skipped. The first
/// pattern that does not compile ends the reading with an error.
pub fn parse_replace_rules(s: &str) -> (r: Result<Vec<(Regex, String)>, RuleParseError>)
    ensures
        match r {
            Ok(rules) => rules_model(rules@) == rules_of_text(s@),
            Err(e) => e.rule < rules_of_text(s@).len(),
        },
        rules_of_text(s@).len() == 0 ==> r is Ok,
{
    let mut rules: Vec<(Regex, String)> = Vec::new();
    let mut cur = s;
    assert(rules_model(rules@) + rules_of_text(cur@) =~= rules_of_text(s@));
    loop
        invariant
            rules_of_text(s@) == rules_model(rules@) + rules_of_text(cur@),
        decreases cur@.len(),
    {
        proof {
            lemma_position_bound(cur@, '\n');
        }
        match split_once(cur, '\n') {
            Some((line, rest)) => {
                let ghost before = rules_model(rules@);
                match read_line(&mut rules, line) {
                    Ok(()) => {
                        assert((before + rules_of_line(line@)) + rules_of_text(rest@) =~= before
                            + (rules_of_line(line@) + rules_of_text(rest@)));
                    },
                    Err(e) => {
                        return Err(e);
                    },
                }
                cur = rest;
            },
            None => {
                return match read_line(&mut rules, cur) {
                    Ok(()) => Ok(rules),
                    Err(e) => Err(e),
                };
            },
        }
    }
}

/// The models of rules that are written as pairs of text.
pub open spec fn pairs_model(pairs: Seq<(&str, &str)>) -> Seq<RuleModel> {
    Seq::new(pairs.len(), |i: int| (pairs[i].0@, pairs[i].1@))
}

/// Makes a table of rules that are written as pairs of a pattern and a
/// replacement. The first pattern that does not compile ends it with an
/// error.
pub fn compile_rules(pairs: &[(&str, &str)]) -> (r: Result<Vec<(Regex, String)>, RuleParseError>)
    ensures
        match r {
            Ok(rules) => rules_model(rules@) == pairs_model(pairs@),
            Err(e) => e.rule < pairs@.len(),
        },
        pairs@.len() == 0 ==> r is Ok,
{
    let mut rules: Vec<(Regex, String)> = Vec::new();
    let mut i: usize = 0;
    assert(rules_model(rules@) =~= pairs_model(pairs@).take(0));
    while i < pairs.len()
        invariant
            i <= pairs@.len(),
            rules@.len() == i,
            rules_model(rules@) == pairs_model(pairs@).take(i as int),
        decreases pairs.len() - i,
    {
        match push_rule(&mut rules, pairs[i].0, pairs[i].1) {
            Ok(()) => {
                assert(pairs_model(pairs@).take(i as int).push((pairs@[i as int].0@, pairs@[i as int].1@))
                    =~= pairs_model(pairs@).take(i + 1));
            },
            Err(e) => {
                return Err(e);
            },
        }
        i = i + 1;
    }
    assert(pairs_model(pairs@).take(i as int) =~= pairs_model(pairs@));
    Ok(rules)
}

/// The built-in rules, as pairs of a pattern and a replacement.
fn default_pairs() -> (pairs: Vec<(&'static str, &'static str)>)
    ensures
        pairs_model(pairs@) == default_rules_model(),
{
    let pairs = vec![
        ("notag", ""),
        ("partial", "diff"),
        ("varepsilon", "epsilon"),
        ("int", "integral"),
        ("vec", "arrow"),
        ("ddot", "dot.double"),
        ("cdots", "dots"),
        ("vdots", "dots"),
        ("hdots", "dots"),
        ("ddots", "dots.down"),
        ("langle", "angle"),
        ("rangle", "angle"),
        ("circletimes", "times.circle"),
        ("mathbf", "bold"),
        ("textbf", "bold"),
    ];
    assert(pairs_model(pairs@) =~= default_rules_model());
    pairs
}

/// The built-in table. It removes the marker `notag` and renames, among
/// others, the partial-derivative sign, the epsilon variant, the integral,
/// the vector arrow, the dots, the angle brackets and the bold markers.
pub fn default_replace_rules() -> (r: Result<Vec<(Regex, String)>, RuleParseError>)
    ensures
        match r {
            Ok(rules) => rules_model(rules@) == default_rules_model(),
            Err(e) => e.rule < default_rules_model().len(),
        },
{
    let pairs = default_pairs();
    assert(pairs_model(pairs@).len() == pairs@.len());
    compile_rules(pairs.as_slice())
}

/// A table written as rule text: for each rule a line of its pattern, `/`
/// and its replacement.
pub open spec fn rules_text(rules: Seq<RuleModel>) -> Seq<char>
    decreases rules.len(),
{
    if rules.len() == 0 {
        Seq::empty()
    } else {
        rules_text(rules.drop_last()) + rules.last().0 + seq!['/'] + rules.last().1 + seq!['\n']
    }
}

/// The built-in table as rule text.
pub fn default_replace_rules_text() -> (text: String)
    ensures
        text@ == rules_text(default_rules_model()),
{
    let pairs = default_pairs();
    let ghost table = pairs_model(pairs@);
    let mut ret: Vec<char> = Vec::new();
    let mut i: usize = 0;
    assert(table.take(0) =~= Seq::<RuleModel>::empty());
    while i < pairs.len()
        invariant
            i <= pairs@.len(),
            table == pairs_model(pairs@),
            ret@ == rules_text(table.take(i as int)),
        decreases pairs.len() - i,
    {
        proof {
            let next = table.take(i + 1);
            assert(next.drop_last() =~= table.take(i as int));
            assert(next.last() == (pairs@[i as int].0@, pairs@[i as int].1@));
        }
        push_str(&mut ret, pairs[i].0);
        ret.push('/');
        push_str(&mut ret, pairs[i].1);
        ret.push('\n');
        i = i + 1;
    }
    assert(table.take(i as int) =~= table);
    string_of(&ret)
}

} // verus!
