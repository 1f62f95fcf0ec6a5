use latypst::{
    compile_rules, default_replace_rules, entry, is_math_env, is_matrix_env, parse, replace_cmd,
    Element, EntryError, ParseError, ParseErrorKind, Structure, StructuralError,
};

fn convert(src: &str) -> String {
    replace_cmd(&parse(src).unwrap(), &[]).unwrap()
}

fn convert_default(src: &str) -> String {
    replace_cmd(&parse(src).unwrap(), &default_replace_rules().unwrap()).unwrap()
}

fn missing(command: Structure, index: usize) -> Result<String, StructuralError> {
    Err(StructuralError { command, index })
}

#[test]
fn literal_characters_are_separated_by_spaces() {
    assert_eq!(convert("abc"), "a b c");
    assert_eq!(convert("a"), "a");
    assert_eq!(convert(""), "");
    assert_eq!(convert("a   b"), "a b");
}

#[test]
fn white_space_in_the_output_is_not_doubled() {
    assert_eq!(convert("a\u{a0}b"), "a \u{a0}b");
    assert_eq!(convert("a\u{2003}b"), "a \u{2003}b");
}

#[test]
fn brace_group_becomes_round_brackets() {
    assert_eq!(convert("{a}"), "(a)");
    assert_eq!(convert("{a}{b c}"), "(a)(b c)");
    assert_eq!(convert("x{a{b}}y"), "x(a(b)) y");
}

#[test]
fn unmatched_commands_pass_through() {
    assert_eq!(convert("$\\Hello \\World$"), "$Hello World$\n");
    assert_eq!(convert("$$\\Hello \\World$$"), "$ Hello World $\n");
    assert_eq!(convert("\\alpha\\beta"), "alpha beta");
}

#[test]
fn frac_takes_two_arguments() {
    assert_eq!(convert("\\frac{a}{b}"), "(a)/(b)");
    assert_eq!(convert("x\\frac{a b}{\\frac{c}{d}}y"), "x(a b)/((c)/(d)) y");
    assert_eq!(convert("\\frac ab c"), "/ c");
}

#[test]
fn mathcal_takes_one_argument() {
    assert_eq!(convert("\\mathcal{A}"), "cal(A)");
    assert_eq!(convert("x\\mathcal{A}"), "x cal(A)");
    assert_eq!(convert("\\mathcal A"), "cal");
}

#[test]
fn left_right_and_label_write_nothing() {
    assert_eq!(convert("\\left(a\\right)"), "( a )");
    assert_eq!(convert("\\label{eq}x"), "x");
    assert_eq!(convert("x\\label y"), "x");
}

#[test]
fn matrix_environment() {
    assert_eq!(
        convert("\\begin{pmatrix}a&b\\\\c&d\\end{pmatrix}"),
        "mat( a , b ;\nc , d)"
    );
    assert_eq!(convert("\\begin\\matrix a&\\\\b\\end\\matrix &"), "mat( a , ;\nb) &");
    assert_eq!(convert("\\begin{matrix}a\\\\ b\\end{matrix}"), "mat( a ;\n;\nb)");
}

#[test]
fn innermost_environment_decides_on_matrix_characters() {
    assert_eq!(
        convert("\\begin{matrix}\\begin{other}&\\end{other}&\\end{matrix}&"),
        "mat( & ,) &"
    );
    assert_eq!(convert("{\\begin{matrix}{&}&}&"), "(mat((&) ,) &");
}

#[test]
fn math_environment() {
    assert_eq!(convert("\\begin{align}x\\end{align}"), "$ x $\n");
    assert_eq!(convert("\\begin{align*}x&y\\end{align*}"), "$ x & y $\n");
    assert_eq!(convert("\\begin{equation}\\end{equation}"), "$  $\n");
    assert_eq!(convert("\\begin{eqnarray}\\end{eqnarray}"), "$  $\n");
}

#[test]
fn other_environments_write_nothing() {
    assert_eq!(convert("\\begin{document}a\\end{document}"), "a");
    assert_eq!(convert("\\begin{$x$}a\\end$$y$$ b"), "a b");
    assert_eq!(convert("\\begin{p\\x matrix}&"), "&");
}

#[test]
fn end_without_begin_is_tolerated() {
    assert_eq!(convert("\\end{matrix}&"), ") &");
    assert_eq!(convert("\\end{x}\\end{x}a"), "a");
}

#[test]
fn default_rules_rename_commands() {
    assert_eq!(convert_default("\\partial"), "diff");
    assert_eq!(convert_default("\\varepsilon"), "epsilon");
    assert_eq!(convert_default("$\\int f \\partial x$"), "$integral f diff x$\n");
    assert_eq!(convert_default("a\\notag b"), "a b");
    assert_eq!(convert_default("\\langle\\vec x\\rangle"), "angle arrow x angle");
    assert_eq!(convert_default("\\mathbf{x}\\otimes\\circletimes"), "bold(x) otimes times.circle");
    assert_eq!(convert_default("\\cdots\\vdots\\hdots\\ddots"), "dots dots dots dot.double");
}

#[test]
fn earliest_rule_wins() {
    let rules = compile_rules(&[("alp", "first"), ("alpha", "second"), ("", "any")]).unwrap();
    let tree = parse("\\alpha\\beta").unwrap();
    assert_eq!(replace_cmd(&tree, &rules), Ok("first any".to_string()));
}

#[test]
fn structural_commands_are_not_looked_up() {
    let rules = compile_rules(&[("", "any")]).unwrap();
    let tree = parse("\\frac{\\x}{b}\\left\\label{a}").unwrap();
    assert_eq!(replace_cmd(&tree, &rules), Ok("(any)/(b)".to_string()));
}

#[test]
fn missing_arguments_are_errors() {
    assert_eq!(replace_cmd(&parse("\\frac").unwrap(), &[]), missing(Structure::Frac, 0));
    assert_eq!(replace_cmd(&parse("a\\frac{b}").unwrap(), &[]), missing(Structure::Frac, 1));
    assert_eq!(replace_cmd(&parse("ab\\mathcal").unwrap(), &[]), missing(Structure::Mathcal, 2));
    assert_eq!(replace_cmd(&parse("\\begin").unwrap(), &[]), missing(Structure::Begin, 0));
    assert_eq!(replace_cmd(&parse("\\begin{a}\\end").unwrap(), &[]), missing(Structure::End, 2));
    assert_eq!(replace_cmd(&parse("\\label").unwrap(), &[]), missing(Structure::Label, 0));
    assert_eq!(
        replace_cmd(&parse("a{b$c\\frac{d}$}").unwrap(), &[]),
        missing(Structure::Frac, 1)
    );
    assert_eq!(
        replace_cmd(&parse("\\frac{a}{\\label}").unwrap(), &[]),
        missing(Structure::Label, 0)
    );
}

#[test]
fn rendering_is_repeatable() {
    let rules = default_replace_rules().unwrap();
    let tree = parse("$\\int_a^b \\frac{x}{y} \\partial x$ \\begin{matrix}1&2\\end{matrix}").unwrap();
    let first = replace_cmd(&tree, &rules);
    let second = replace_cmd(&tree, &rules);
    assert_eq!(first, second);
    assert_eq!(
        first,
        Ok("$integral _ a ^ b(x)/(y) diff x$\nmat( 1 , 2)".to_string())
    );
}

#[test]
fn environment_names() {
    let brace = |name: &str| Element::Brace(name.chars().map(Element::Char).collect());
    for name in ["align", "align*", "equation", "eqnarray"] {
        assert!(is_math_env(&brace(name)));
        assert!(!is_matrix_env(&brace(name)));
    }
    for name in ["matrix", "pmatrix", "bmatrix", "Bmatrix", "vmatrix", "Vmatrix"] {
        assert!(is_matrix_env(&brace(name)));
        assert!(is_matrix_env(&Element::Str(name)));
        assert!(!is_math_env(&brace(name)));
    }
    assert!(is_math_env(&Element::Str("align")));
    assert!(!is_math_env(&brace("aligned")));
    assert!(!is_matrix_env(&brace("Pmatrix")));
    assert!(!is_matrix_env(&brace("")));
    assert!(!is_math_env(&Element::Char('a')));
    assert!(!is_matrix_env(&Element::IMath(vec![])));
    assert!(!is_matrix_env(&Element::Brace(vec![
        Element::Str("p"),
        Element::Char('m'),
    ])));
}

#[test]
fn entry_runs_the_whole_translation() {
    assert_eq!(
        entry("$\\alpha + \\beta$", "alpha/a\nbeta/b"),
        Ok("$a + b$\n".to_string())
    );
    assert_eq!(entry("{x}", ""), Ok("(x)".to_string()));
}

#[test]
fn entry_reports_the_first_failure() {
    assert_eq!(
        entry("{a", "(/x"),
        Err(EntryError::Parse(ParseError { kind: ParseErrorKind::UnbalancedBrace, offset: 0 }))
    );
    match entry("\\frac", "a/b\n(/x") {
        Err(EntryError::Rules(e)) => assert_eq!(e.rule, 1),
        other => panic!("{:?}", other),
    }
    assert_eq!(
        entry("\\frac", "a/b"),
        Err(EntryError::Structure(StructuralError { command: Structure::Frac, index: 0 }))
    );
}

#[test]
fn white_space_is_what_the_standard_library_says() {
    for code in 0..0x20000u32 {
        if let Some(c) = char::from_u32(code) {
            let text = replace_cmd(&[Element::Char(c), Element::Char('b')], &[]).unwrap();
            let mut expected = String::new();
            expected.push(c);
            if !c.is_whitespace() {
                expected.push(' ');
            }
            expected.push('b');
            assert_eq!(text, expected);
        }
    }
}
