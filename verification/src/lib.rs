//! Converts a LaTeX-like markup subset into Typst markup.
//!
//! The work is done in two stages. [`parse`] turns source text into a tree of
//! [`Element`]s, and [`replace_cmd`] walks such a tree and writes Typst text,
//! guided by an ordered table of rename rules. [`entry`] runs both.
//!
//! Each function states what it returns over a model: a text is its sequence
//! of characters, a tree is a [`Node`], a rule is the pair of its pattern and
//! its replacement. The module [`grammar`] says what source text means, the
//! module [`render`] what is written for a tree, and the module [`laws`] what
//! follows for the two together.
use vstd::prelude::*;
use regex::Regex;

pub mod element;
pub mod error;
pub mod grammar;
pub mod laws;
pub mod parser;
pub mod render;
pub mod replace;
pub mod rules;
pub mod text;
pub mod token;

pub use element::{Element, Node};
pub use error::{ParseError, ParseErrorKind, Structure, StructuralError};
pub use parser::{elements, escaped_element, parse};
pub use replace::{is_math_env, is_matrix_env, replace_cmd};
pub use rules::{
    add_rule, compile_rules, default_replace_rules, default_replace_rules_text, find_rule,
    parse_replace_rules, push_rule, RuleParseError,
};

verus! {

/// Why a text could not be converted.
#[derive(Debug, PartialEq)]
pub enum EntryError {
    /// The source text is malformed.
    Parse(ParseError),
    /// A pattern of the rule text does not compile.
    Rules(RuleParseError),
    /// A command of the source text lacks an argument.
    Structure(StructuralError),
}

/// Converts the source text `src` with the rules that the text
/// `replace_rules_str` holds. The source is parsed first, then the rules are
/// read, then the tree is rendered; the first of the three that fails gives
/// the error.
pub fn entry(src: &str, replace_rules_str: &str) -> (r: Result<String, EntryError>)
    ensures
        match r {
            Ok(text) => grammar::parse_document(src@) matches Ok(items) && render::render(
                items,
                rules::rules_of_text(replace_rules_str@),
            ) == Ok::<Seq<char>, StructuralError>(text@),
            Err(EntryError::Parse(e)) => grammar::parse_document(src@) == Err::<
                Seq<Node>,
                ParseError,
            >(e),
            Err(EntryError::Rules(e)) => grammar::parse_document(src@) is Ok && e.rule
                < rules::rules_of_text(replace_rules_str@).len(),
            Err(EntryError::Structure(e)) => grammar::parse_document(src@) matches Ok(items)
                && render::render(items, rules::rules_of_text(replace_rules_str@)) == Err::<
                Seq<char>,
                StructuralError,
            >(e),
        },
        grammar::parse_document(src@) is Err ==> r matches Err(EntryError::Parse(_)),
        rules::rules_of_text(replace_rules_str@).len() == 0 ==> !(r matches Err(
            EntryError::Rules(_),
        )),
{
    let parse_result = match parse(src) {
        Ok(elems) => elems,
        Err(e) => {
            return Err(EntryError::Parse(e));
        },
    };
    let replace_rules: Vec<(Regex, String)> = match parse_replace_rules(replace_rules_str) {
        Ok(rules) => rules,
        Err(e) => {
            return Err(EntryError::Rules(e));
        },
    };
    match replace_cmd(parse_result.as_slice(), replace_rules.as_slice()) {
        Ok(text) => Ok(text),
        Err(e) => Err(EntryError::Structure(e)),
    }
}

} // verus!
