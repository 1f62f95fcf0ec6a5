use latypst::{elements, parse, parse_replace_rules, Element, ParseError, ParseErrorKind};

#[derive(Debug, PartialEq)]
enum Tree {
    Str(String),
    Char(char),
    Brace(Vec<Tree>),
    IMath(Vec<Tree>),
    DMath(Vec<Tree>),
}

fn tree(element: &Element) -> Tree {
    match element {
        Element::Str(name) => Tree::Str(name.to_string()),
        Element::Char(c) => Tree::Char(*c),
        Element::Brace(items) => Tree::Brace(items.iter().map(tree).collect()),
        Element::IMath(items) => Tree::IMath(items.iter().map(tree).collect()),
        Element::DMath(items) => Tree::DMath(items.iter().map(tree).collect()),
    }
}

fn is_space(c: char) -> bool {
    c == ' ' || c == '\t' || c == '\r' || c == '\n'
}

fn skip_space(s: &[char], mut at: usize) -> usize {
    while at < s.len() && is_space(s[at]) {
        at += 1;
    }
    at
}

fn group(s: &[char], at: usize, open: &[char], close: &[char], math: bool) -> Option<(usize, Vec<Tree>)> {
    if !s[at..].starts_with(open) {
        return None;
    }
    let (end, items) = run(s, at + open.len(), math);
    if s[end..].starts_with(close) {
        Some((end + close.len(), items))
    } else {
        None
    }
}

fn alternatives(s: &[char], at: usize, math: bool) -> Option<(usize, Tree)> {
    if at < s.len() && s[at] == '{' {
        let (end, items) = group(s, at, &['{'], &['}'], false)?;
        return Some((end, Tree::Brace(items)));
    }
    if !math {
        if let Some((end, items)) = group(s, at, &['$', '$'], &['$', '$'], true) {
            return Some((end, Tree::DMath(items)));
        }
        if let Some((end, items)) = group(s, at, &['$'], &['$'], true) {
            return Some((end, Tree::IMath(items)));
        }
    }
    if at < s.len() && s[at] == '\\' {
        let mut end = at + 1;
        while end < s.len() && s[end].is_ascii_alphabetic() {
            end += 1;
        }
        if end > at + 1 {
            return Some((end, Tree::Str(s[at + 1..end].iter().collect())));
        }
    }
    if at < s.len() && !matches!(s[at], '}' | '$') {
        return Some((at + 1, Tree::Char(s[at])));
    }
    None
}

fn one(s: &[char], at: usize, math: bool) -> Option<(usize, Tree)> {
    let (end, found) = alternatives(s, skip_space(s, at), math)?;
    Some((skip_space(s, end), found))
}

fn run(s: &[char], mut at: usize, math: bool) -> (usize, Vec<Tree>) {
    let mut items = Vec::new();
    while let Some((end, found)) = one(s, at, math) {
        items.push(found);
        at = end;
    }
    (at, items)
}

fn document(s: &[char]) -> Result<Vec<Tree>, ParseError> {
    let (end, items) = run(s, 0, false);
    let stop = skip_space(s, end);
    if stop == s.len() {
        Ok(items)
    } else {
        let kind = if s[stop] == '$' {
            ParseErrorKind::UnterminatedMath
        } else {
            ParseErrorKind::UnbalancedBrace
        };
        Err(ParseError { kind, offset: stop })
    }
}

struct Random(u64);

impl Random {
    fn next(&mut self, bound: usize) -> usize {
        self.0 = self.0.wrapping_mul(6364136223846793005).wrapping_add(1442695040888963407);
        ((self.0 >> 33) as usize) % bound
    }

    fn text(&mut self, alphabet: &[char], longest: usize) -> String {
        let length = self.next(longest + 1);
        (0..length).map(|_| alphabet[self.next(alphabet.len())]).collect()
    }
}

#[test]
fn parse_agrees_with_the_grammar_on_many_texts() {
    let alphabet = ['{', '}', '$', '\\', 'a', 'Z', ' ', '\n', '\t', '&', 'é', '1', '\u{a0}'];
    let mut random = Random(1);
    for _ in 0..30000 {
        let text = random.text(&alphabet, 14);
        let characters: Vec<char> = text.chars().collect();
        let expected = document(&characters);
        let found = parse(&text).map(|items| items.iter().map(tree).collect::<Vec<Tree>>());
        assert_eq!(found, expected, "{:?}", text);
    }
}

#[test]
fn elements_agrees_with_the_grammar_on_many_texts() {
    let alphabet = ['{', '}', '$', '\\', 'b', ' ', '\r', '*', 'ß'];
    let mut random = Random(2);
    for _ in 0..30000 {
        let text = random.text(&alphabet, 12);
        let characters: Vec<char> = text.chars().collect();
        let (end, expected) = run(&characters, 0, false);
        let (rest, found) = elements(&text);
        assert_eq!(rest, characters[end..].iter().collect::<String>(), "{:?}", text);
        assert_eq!(found.iter().map(tree).collect::<Vec<Tree>>(), expected, "{:?}", text);
    }
}

#[test]
fn rule_text_agrees_with_its_lines_on_many_texts() {
    let alphabet = ['/', '\n', 'a', 'b', ' ', '.', '\r', 'é'];
    let mut random = Random(3);
    for _ in 0..30000 {
        let text = random.text(&alphabet, 12);
        let expected: Vec<(String, String)> = text
            .split('\n')
            .filter_map(|line| line.find('/').map(|at| (&line[..at], &line[at + 1..])))
            .map(|(pattern, replacement)| (pattern.to_string(), replacement.to_string()))
            .collect();
        let found: Vec<(String, String)> = parse_replace_rules(&text)
            .unwrap()
            .iter()
            .map(|(pattern, replacement)| (pattern.as_str().to_string(), replacement.clone()))
            .collect();
        assert_eq!(found, expected, "{:?}", text);
    }
}
