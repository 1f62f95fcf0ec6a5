use latypst::{
    add_rule, compile_rules, default_replace_rules, find_rule, parse_replace_rules, push_rule,
};
use regex::Regex;

fn texts(rules: &[(Regex, String)]) -> Vec<(String, String)> {
    rules
        .iter()
        .map(|(pattern, replacement)| (pattern.as_str().to_string(), replacement.clone()))
        .collect()
}

fn pair(pattern: &str, replacement: &str) -> (String, String) {
    (pattern.to_string(), replacement.to_string())
}

#[test]
fn default_rules_are_the_built_in_table() {
    let rules = default_replace_rules().unwrap();
    assert_eq!(
        texts(&rules),
        vec![
            pair("notag", ""),
            pair("partial", "diff"),
            pair("varepsilon", "epsilon"),
            pair("int", "integral"),
            pair("vec", "arrow"),
            pair("ddot", "dot.double"),
            pair("cdots", "dots"),
            pair("vdots", "dots"),
            pair("hdots", "dots"),
            pair("ddots", "dots.down"),
            pair("langle", "angle"),
            pair("rangle", "angle"),
            pair("circletimes", "times.circle"),
            pair("mathbf", "bold"),
            pair("textbf", "bold"),
        ]
    );
}

#[test]
fn rule_text_is_read_line_by_line() {
    let rules = parse_replace_rules("\npartial/diff\nno rule here\n\n/x\nnotag/\na.c/b c").unwrap();
    assert_eq!(
        texts(&rules),
        vec![
            pair("partial", "diff"),
            pair("", "x"),
            pair("notag", ""),
            pair("a.c", "b c"),
        ]
    );
}

#[test]
fn rule_text_without_rules_gives_an_empty_table() {
    assert_eq!(parse_replace_rules("").unwrap().len(), 0);
    assert_eq!(parse_replace_rules("abc\n\ndef").unwrap().len(), 0);
}

#[test]
fn first_slash_separates_pattern_and_replacement() {
    let rules = parse_replace_rules("over/a/b").unwrap();
    assert_eq!(texts(&rules), vec![pair("over", "a/b")]);
}

#[test]
fn bad_pattern_is_an_error() {
    let first = parse_replace_rules("(/x").unwrap_err();
    assert_eq!(first.rule, 0);
    assert_eq!(Err(first.cause), Regex::new("(").map(|_| ()));
    let second = parse_replace_rules("skipped\na/b\n[/c\nd/e").unwrap_err();
    assert_eq!(second.rule, 1);
}

#[test]
fn add_rule_keeps_the_table_on_error() {
    let mut rules = Vec::new();
    assert_eq!(add_rule(&mut rules, Regex::new("a+"), "x"), Ok(()));
    let error = add_rule(&mut rules, Regex::new("(("), "y").unwrap_err();
    assert_eq!(error.rule, 1);
    assert_eq!(texts(&rules), vec![pair("a+", "x")]);
    assert!(push_rule(&mut rules, "b", "z").is_ok());
    assert_eq!(texts(&rules), vec![pair("a+", "x"), pair("b", "z")]);
    assert_eq!(push_rule(&mut rules, "*", "z").unwrap_err().rule, 2);
}

#[test]
fn compile_rules_keeps_the_order() {
    let rules = compile_rules(&[("b", "1"), ("a", "2")]).unwrap();
    assert_eq!(texts(&rules), vec![pair("b", "1"), pair("a", "2")]);
    assert_eq!(compile_rules(&[("b", "1"), ("(", "2")]).unwrap_err().rule, 1);
    assert_eq!(compile_rules(&[]).unwrap().len(), 0);
}

#[test]
fn first_matching_rule_wins() {
    let rules = compile_rules(&[("x", "0"), ("a", "1"), ("^ab", "2"), ("b$", "3")]).unwrap();
    assert_eq!(find_rule("ab", &rules), Some(1));
    assert_eq!(find_rule("bab", &rules), Some(1));
    assert_eq!(find_rule("bb", &rules), Some(3));
    assert_eq!(find_rule("bc", &rules), None);
    assert_eq!(find_rule("ab", &[]), None);
}

#[test]
fn patterns_match_anywhere_in_a_name() {
    let rules = default_replace_rules().unwrap();
    assert_eq!(find_rule("int", &rules), Some(3));
    assert_eq!(find_rule("point", &rules), Some(3));
    assert_eq!(find_rule("ddots", &rules), Some(5));
    assert_eq!(find_rule("alpha", &rules), None);
}

#[test]
fn default_rule_text_reads_back_as_the_default_table() {
    let text = latypst::default_replace_rules_text();
    assert!(text.starts_with("notag/\npartial/diff\nvarepsilon/epsilon\n"));
    assert!(text.ends_with("mathbf/bold\ntextbf/bold\n"));
    assert_eq!(text.lines().count(), 15);
    assert_eq!(
        texts(&parse_replace_rules(&text).unwrap()),
        texts(&default_replace_rules().unwrap())
    );
}
