//! What rendering writes, as functions on the model of a tree.
//!
//! A sequence of elements is walked from left to right. The walk carries the
//! text written so far and the stack of environments that `begin` opened and
//! `end` has not closed yet. A command that takes arguments takes the
//! elements that follow it.
use vstd::prelude::*;
use crate::element::Node;
use crate::error::{Structure, StructuralError};
use crate::rules::{lookup, RuleModel};
use crate::text::is_whitespace;

verus! {

/// What kind of environment a `begin` opens.
#[derive(Clone, Copy, Debug, PartialEq, Eq)]
pub enum Environment {
    /// Display math: `align`, `align*`, `equation`, `eqnarray`.
    Math,
    /// A matrix: `matrix`, `pmatrix`, `bmatrix`, `Bmatrix`, `vmatrix`,
    /// `Vmatrix`.
    Matrix,
    /// Any other.
    Other,
}

/// The names of the environments of display math.
pub open spec fn is_math_name(name: Seq<char>) -> bool {
    name == "align"@ || name == "align*"@ || name == "equation"@ || name == "eqnarray"@
}

/// The names of the matrix environments.
pub open spec fn is_matrix_name(name: Seq<char>) -> bool {
    name == "matrix"@ || name == "pmatrix"@ || name == "bmatrix"@ || name == "Bmatrix"@ || name
        == "vmatrix"@ || name == "Vmatrix"@
}

/// The text of a group that spells a name: its characters, with a space for
/// each child that is no character.
pub open spec fn flat_name(items: Seq<Node>) -> Seq<char> {
    Seq::new(
        items.len(),
        |i: int|
            match items[i] {
                Node::Char(c) => c,
                _ => ' ',
            },
    )
}

/// The name that the argument of `begin` or `end` gives: a command's name,
/// or the text of a brace group. Math groups give none.
pub open spec fn environment_name(node: Node) -> Option<Seq<char>> {
    match node {
        Node::Str(name) => Some(name),
        Node::Brace(items) => Some(flat_name(items)),
        _ => None,
    }
}

/// The kind of environment that the argument of `begin` or `end` names.
pub open spec fn environment_of(node: Node) -> Environment {
    match environment_name(node) {
        Some(name) => if is_math_name(name) {
            Environment::Math
        } else if is_matrix_name(name) {
            Environment::Matrix
        } else {
            Environment::Other
        },
        None => Environment::Other,
    }
}

/// What `begin` writes.
pub open spec fn opening(kind: Environment) -> Seq<char> {
    match kind {
        Environment::Math => seq!['$', ' '],
        Environment::Matrix => seq!['m', 'a', 't', '('],
        Environment::Other => Seq::empty(),
    }
}

/// What `end` writes.
pub open spec fn closing(kind: Environment) -> Seq<char> {
    match kind {
        Environment::Math => seq![' ', '$', '\n'],
        Environment::Matrix => seq![')'],
        Environment::Other => Seq::empty(),
    }
}

/// The stack of open environments after an `end`. An `end` that closes
/// nothing leaves the empty stack empty.
pub open spec fn closed(env: Seq<Environment>) -> Seq<Environment> {
    if env.len() > 0 {
        env.drop_last()
    } else {
        env
    }
}

/// Whether the innermost open environment is a matrix.
pub open spec fn in_matrix(env: Seq<Environment>) -> bool {
    env.len() > 0 && env.last() == Environment::Matrix
}

/// What a literal character is written as. In a matrix `&` separates
/// columns and a backslash ends a row.
pub open spec fn char_text(c: char, env: Seq<Environment>) -> Seq<char> {
    if in_matrix(env) && c == '&' {
        seq![',']
    } else if in_matrix(env) && c == '\\' {
        seq![';', '\n']
    } else {
        seq![c]
    }
}

/// `out` with a space after it, unless it is empty or ends in white space.
pub open spec fn spaced(out: Seq<char>) -> Seq<char> {
    if out.len() == 0 || is_whitespace(out.last()) {
        out
    } else {
        out.push(' ')
    }
}

/// The error of a command that stands at `ptr` and lacks an argument.
pub open spec fn missing(command: Structure, ptr: int) -> Result<Seq<char>, StructuralError> {
    Err(StructuralError { command, index: ptr as usize })
}

/// What an argument of `frac` or `mathcal` is written as: a brace group as
/// its content in round brackets, anything else as nothing.
pub open spec fn render_argument(node: Node, rules: Seq<RuleModel>) -> Result<
    Seq<char>,
    StructuralError,
>
    decreases node, 0int,
{
    match node {
        Node::Brace(items) => match render(items, rules) {
            Ok(inner) => Ok(seq!['('] + inner + seq![')']),
            Err(e) => Err(e),
        },
        _ => Ok(Seq::empty()),
    }
}

/// What the elements from `ptr` on add to `out`, with `env` the environments
/// that are open.
pub open spec fn render_from(
    elems: Seq<Node>,
    ptr: int,
    out: Seq<char>,
    env: Seq<Environment>,
    rules: Seq<RuleModel>,
) -> Result<Seq<char>, StructuralError>
    decreases elems, elems.len() - ptr,
{
    if ptr < 0 || ptr >= elems.len() {
        Ok(out)
    } else {
        match elems[ptr] {
            Node::Char(c) => render_from(
                elems,
                ptr + 1,
                spaced(out) + char_text(c, env),
                env,
                rules,
            ),
            Node::Brace(items) => match render(items, rules) {
                Ok(inner) => render_from(
                    elems,
                    ptr + 1,
                    out + seq!['('] + inner + seq![')'],
                    env,
                    rules,
                ),
                Err(e) => Err(e),
            },
            Node::IMath(items) => match render(items, rules) {
                Ok(inner) => render_from(
                    elems,
                    ptr + 1,
                    out + seq!['$'] + inner + seq!['$', '\n'],
                    env,
                    rules,
                ),
                Err(e) => Err(e),
            },
            Node::DMath(items) => match render(items, rules) {
                Ok(inner) => render_from(
                    elems,
                    ptr + 1,
                    out + seq!['$', ' '] + inner + seq![' ', '$', '\n'],
                    env,
                    rules,
                ),
                Err(e) => Err(e),
            },
            Node::Str(name) => if name == "frac"@ {
                if ptr + 2 < elems.len() {
                    match render_argument(elems[ptr + 1], rules) {
                        Ok(over) => match render_argument(elems[ptr + 2], rules) {
                            Ok(under) => render_from(
                                elems,
                                ptr + 3,
                                out + over + seq!['/'] + under,
                                env,
                                rules,
                            ),
                            Err(e) => Err(e),
                        },
                        Err(e) => Err(e),
                    }
                } else {
                    missing(Structure::Frac, ptr)
                }
            } else if name == "mathcal"@ {
                if ptr + 1 < elems.len() {
                    match render_argument(elems[ptr + 1], rules) {
                        Ok(argument) => render_from(
                            elems,
                            ptr + 2,
                            spaced(out) + seq!['c', 'a', 'l'] + argument,
                            env,
                            rules,
                        ),
                        Err(e) => Err(e),
                    }
                } else {
                    missing(Structure::Mathcal, ptr)
                }
            } else if name == "left"@ || name == "right"@ {
                render_from(elems, ptr + 1, out, env, rules)
            } else if name == "begin"@ {
                if ptr + 1 < elems.len() {
                    let kind = environment_of(elems[ptr + 1]);
                    render_from(elems, ptr + 2, out + opening(kind), env.push(kind), rules)
                } else {
                    missing(Structure::Begin, ptr)
                }
            } else if name == "end"@ {
                if ptr + 1 < elems.len() {
                    let kind = environment_of(elems[ptr + 1]);
                    render_from(elems, ptr + 2, out + closing(kind), closed(env), rules)
                } else {
                    missing(Structure::End, ptr)
                }
            } else if name == "label"@ {
                if ptr + 1 < elems.len() {
                    render_from(elems, ptr + 2, out, env, rules)
                } else {
                    missing(Structure::Label, ptr)
                }
            } else {
                match lookup(rules, name) {
                    Some(replacement) => render_from(
                        elems,
                        ptr + 1,
                        spaced(out) + replacement,
                        env,
                        rules,
                    ),
                    None => render_from(elems, ptr + 1, spaced(out) + name, env, rules),
                }
            },
        }
    }
}

/// What a sequence of elements is written as, on its own: from its first
/// element, after no text, with no environment open.
pub open spec fn render(elems: Seq<Node>, rules: Seq<RuleModel>) -> Result<
    Seq<char>,
    StructuralError,
>
    decreases elems, elems.len() + 1,
{
    render_from(elems, 0, Seq::empty(), Seq::empty(), rules)
}

} // verus!
