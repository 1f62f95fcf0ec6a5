use latypst::{compile_rules, parse, replace_cmd, Element, ParseErrorKind};

fn source(element: &Element) -> String {
    match element {
        Element::Str(name) => format!("\\{}", name),
        Element::Char(c) => c.to_string(),
        Element::Brace(items) => format!("{{{}}}", source_all(items)),
        Element::IMath(items) => format!("${}$", source_all(items)),
        Element::DMath(items) => format!("$${}$$", source_all(items)),
    }
}

fn source_all(items: &[Element]) -> String {
    items.iter().map(source).collect::<Vec<String>>().join(" ")
}

fn without_space(text: &str) -> String {
    text.chars().filter(|c| !matches!(c, ' ' | '\t' | '\r' | '\n')).collect()
}

fn well_formed(element: &Element, math: bool) -> bool {
    match element {
        Element::Str(name) => !name.is_empty() && name.chars().all(|c| c.is_ascii_alphabetic()),
        Element::Char(c) => !matches!(c, '{' | '}' | '$' | ' ' | '\t' | '\r' | '\n'),
        Element::Brace(items) => items.iter().all(|e| well_formed(e, false)),
        Element::IMath(items) | Element::DMath(items) => {
            !math && items.iter().all(|e| well_formed(e, true))
        }
    }
}

fn texts() -> Vec<&'static str> {
    vec![
        "",
        "  \n",
        "abc",
        " a\tb \\c\\\\ d",
        "\\frac{a}{ b }\\\\ \\x1",
        "$x + {y $$z$$ $w$}$ $$ \\a {} $$",
        "\\begin{pmatrix} a & b \\\\ c & d \\end{pmatrix}",
        "$$a$b$",
        "{{{}}{}}$$$$",
        "é {ü} \u{a0}",
    ]
}

#[test]
fn parsing_drops_only_separating_characters() {
    for text in texts() {
        let tree = parse(text).unwrap();
        assert_eq!(without_space(&source_all(&tree)), without_space(text));
    }
}

#[test]
fn parsed_trees_are_well_formed() {
    for text in texts() {
        let tree = parse(text).unwrap();
        assert!(tree.iter().all(|e| well_formed(e, false)));
    }
}

#[test]
fn source_text_of_a_tree_parses_back() {
    let trees = vec![
        vec![],
        vec![Element::Char('a')],
        vec![Element::Str("a"), Element::Char('b'), Element::Char('\\'), Element::Char('c')],
        vec![
            Element::Brace(vec![]),
            Element::DMath(vec![]),
            Element::IMath(vec![Element::Char('\\')]),
            Element::IMath(vec![Element::Str("x")]),
            Element::DMath(vec![Element::Brace(vec![Element::IMath(vec![Element::Char('y')])])]),
        ],
        vec![Element::Brace(vec![
            Element::Str("frac"),
            Element::Brace(vec![Element::Char('1'), Element::Char('&')]),
            Element::Brace(vec![Element::DMath(vec![Element::Char('é'), Element::Str("B")])]),
        ])],
    ];
    for tree in trees {
        let text = source_all(&tree);
        assert_eq!(parse(&text), Ok(tree));
    }
}

#[test]
fn empty_inline_math_does_not_parse_back() {
    let tree = vec![Element::IMath(vec![]), Element::Char('a'), Element::IMath(vec![])];
    assert_eq!(source_all(&tree), "$$ a $$");
    assert_eq!(parse("$$ a $$"), Ok(vec![Element::DMath(vec![Element::Char('a')])]));
}

#[test]
fn errors_stand_at_delimiters() {
    for text in ["{a", "a}b", "$", "x $$ y $ z", " {$}", "{{}", "é$$é$", "\\a{\\b$"] {
        let error = parse(text).unwrap_err();
        let c = text.chars().nth(error.offset).unwrap();
        assert!(matches!(c, '{' | '}' | '$'));
        assert_eq!(error.kind == ParseErrorKind::UnterminatedMath, c == '$');
    }
}

#[test]
fn a_command_alone_is_replaced_or_kept() {
    let rules = compile_rules(&[("^al", "A"), ("pha", "B")]).unwrap();
    assert_eq!(replace_cmd(&[Element::Str("alpha")], &rules), Ok("A".to_string()));
    assert_eq!(replace_cmd(&[Element::Str("sigma")], &rules), Ok("sigma".to_string()));
    assert_eq!(replace_cmd(&[Element::Str("beta")], &[]), Ok("beta".to_string()));
}
