//! The errors that the library reports.
use vstd::prelude::*;

verus! {

/// What was wrong with a source text.
#[derive(Clone, Copy, Debug, PartialEq, Eq)]
pub enum ParseErrorKind {
    /// The text stops making sense at a brace: a `{` whose group is not
    /// closed or does not parse, or a `}` that closes nothing.
    UnbalancedBrace,
    /// The text stops making sense at a `$`: math that is not closed or does
    /// not parse.
    UnterminatedMath,
    /// A command was asked for where no backslash followed by a letter
    /// stands.
    BadEscape,
}

/// A source text is malformed.
#[derive(Clone, Copy, Debug, PartialEq, Eq)]
pub struct ParseError {
    pub kind: ParseErrorKind,
    /// How many characters of the text stand before the offending one.
    pub offset: usize,
}

/// The commands that take the elements after them as their arguments.
#[derive(Clone, Copy, Debug, PartialEq, Eq)]
pub enum Structure {
    /// `frac`, with two arguments.
    Frac,
    /// `mathcal`, with one argument.
    Mathcal,
    /// `begin`, with the name of an environment.
    Begin,
    /// `end`, with the name of an environment.
    End,
    /// `label`, with one argument.
    Label,
}

/// A command stands too close to the end of its group to have its
/// arguments.
#[derive(Clone, Copy, Debug, PartialEq, Eq)]
pub struct StructuralError {
    pub command: Structure,
    /// Where the command stands among the elements of its group.
    pub index: usize,
}

} // verus!
