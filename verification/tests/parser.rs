use latypst::{elements, escaped_element, parse, Element, ParseError, ParseErrorKind};

#[test]
fn test_element() {
    let s = "\\hello";
    assert_eq!(escaped_element(s), Ok(("", "hello")));
}

#[test]
fn test_elements() {
    let s = "a\\Hello \\World";
    assert_eq!(
        elements(s),
        (
            "",
            vec![
                Element::Char('a'),
                Element::Str("Hello"),
                Element::Str("World")
            ]
        )
    );
}

#[test]
fn test_dmath() {
    let s = "$$\\Hello \\World$$";
    assert_eq!(
        elements(s),
        (
            "",
            vec![Element::DMath(vec![
                Element::Str("Hello"),
                Element::Str("World")
            ])]
        )
    );
}

#[test]
fn test_imath() {
    let s = "$\\Hello \\World$";
    assert_eq!(
        elements(s),
        (
            "",
            vec![Element::IMath(vec![
                Element::Str("Hello"),
                Element::Str("World")
            ])]
        )
    );
}

#[test]
fn test_brace() {
    let s = "{a}";
    assert_eq!(
        elements(s),
        ("", vec![Element::Brace(vec![Element::Char('a')])])
    );
    let s = "\\begin{document}";
    let mut expected = vec![Element::Str("begin")];
    expected.push(Element::Brace(
        "document".chars().map(|c| Element::Char(c)).collect(),
    ));
    assert_eq!(elements(s), ("", expected));
}

#[test]
fn parse_rejects_unclosed_brace() {
    assert_eq!(
        parse("{a"),
        Err(ParseError { kind: ParseErrorKind::UnbalancedBrace, offset: 0 })
    );
}

#[test]
fn literal_characters_parse_one_by_one() {
    assert_eq!(
        parse("abc"),
        Ok(vec![Element::Char('a'), Element::Char('b'), Element::Char('c')])
    );
}

#[test]
fn separating_characters_are_skipped() {
    assert_eq!(
        elements(" a \t\r\n b\n"),
        ("", vec![Element::Char('a'), Element::Char('b')])
    );
    assert_eq!(parse("  "), Ok(vec![]));
    assert_eq!(parse(""), Ok(vec![]));
}

#[test]
fn other_white_space_is_a_literal_character() {
    assert_eq!(
        parse("a\u{a0}b"),
        Ok(vec![Element::Char('a'), Element::Char('\u{a0}'), Element::Char('b')])
    );
}

#[test]
fn command_names_are_ascii_letters() {
    assert_eq!(
        parse("\\alpha1\\béta"),
        Ok(vec![
            Element::Str("alpha"),
            Element::Char('1'),
            Element::Str("b"),
            Element::Char('é'),
            Element::Char('t'),
            Element::Char('a'),
        ])
    );
}

#[test]
fn backslash_without_letter_is_a_literal_character() {
    assert_eq!(
        parse("a\\\\b"),
        Ok(vec![Element::Char('a'), Element::Char('\\'), Element::Str("b")])
    );
    assert_eq!(parse("\\"), Ok(vec![Element::Char('\\')]));
    assert_eq!(parse("\\ x"), Ok(vec![Element::Char('\\'), Element::Char('x')]));
}

#[test]
fn escaped_element_wants_a_backslash_and_a_letter() {
    let bad = ParseError { kind: ParseErrorKind::BadEscape, offset: 0 };
    assert_eq!(escaped_element("hello"), Err(bad));
    assert_eq!(escaped_element("\\1"), Err(bad));
    assert_eq!(escaped_element("\\"), Err(bad));
    assert_eq!(escaped_element(""), Err(bad));
    assert_eq!(escaped_element("\\ab1 c"), Ok(("1 c", "ab")));
}

#[test]
fn groups_nest() {
    assert_eq!(
        parse("{a{b}}$x{$y$}$"),
        Ok(vec![
            Element::Brace(vec![
                Element::Char('a'),
                Element::Brace(vec![Element::Char('b')]),
            ]),
            Element::IMath(vec![
                Element::Char('x'),
                Element::Brace(vec![Element::IMath(vec![Element::Char('y')])]),
            ]),
        ])
    );
}

#[test]
fn display_math_is_tried_before_inline_math() {
    assert_eq!(
        parse("$$a$$"),
        Ok(vec![Element::DMath(vec![Element::Char('a')])])
    );
    assert_eq!(parse("$$$$"), Ok(vec![Element::DMath(vec![])]));
    assert_eq!(
        parse("$$a$b$"),
        Ok(vec![
            Element::IMath(vec![]),
            Element::Char('a'),
            Element::IMath(vec![Element::Char('b')]),
        ])
    );
}

#[test]
fn unbalanced_braces_are_errors() {
    assert_eq!(
        parse("ab}c"),
        Err(ParseError { kind: ParseErrorKind::UnbalancedBrace, offset: 2 })
    );
    assert_eq!(
        parse("a {b {c}"),
        Err(ParseError { kind: ParseErrorKind::UnbalancedBrace, offset: 2 })
    );
    assert_eq!(
        parse("{ }"),
        Err(ParseError { kind: ParseErrorKind::UnbalancedBrace, offset: 0 })
    );
    assert_eq!(
        parse("  é{"),
        Err(ParseError { kind: ParseErrorKind::UnbalancedBrace, offset: 3 })
    );
}

#[test]
fn unterminated_math_is_an_error() {
    assert_eq!(
        parse("$a"),
        Err(ParseError { kind: ParseErrorKind::UnterminatedMath, offset: 0 })
    );
    assert_eq!(
        parse("x $$a$"),
        Err(ParseError { kind: ParseErrorKind::UnterminatedMath, offset: 5 })
    );
    assert_eq!(
        parse("$a$$b$$"),
        Err(ParseError { kind: ParseErrorKind::UnterminatedMath, offset: 6 })
    );
}

#[test]
fn elements_stops_where_no_element_stands() {
    assert_eq!(elements("a}b"), ("}b", vec![Element::Char('a')]));
    assert_eq!(elements("  }"), ("  }", vec![]));
    assert_eq!(elements("{a"), ("{a", vec![]));
}
