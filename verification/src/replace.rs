//! The rendering engine: from a tree of [`Element`]s to Typst text.
use vstd::prelude::*;
use regex::Regex;
use crate::element::{lemma_nodes_index, nodes, Element, Node};
use crate::error::{Structure, StructuralError};
use crate::render::{
    closing, environment_name, environment_of, flat_name, is_math_name, is_matrix_name, opening,
    render, render_argument, render_from, spaced, Environment,
};
use crate::rules::{find_rule, rules_model, RuleModel};
use crate::text::{char_is_whitespace, chars_of, push_str, same_chars, string_of};

verus! {

/// What rendering returned, as the functions on the model state it.
pub open spec fn rendered(r: Result<Vec<char>, StructuralError>) -> Result<
    Seq<char>,
    StructuralError,
> {
    match r {
        Ok(text) => Ok(text@),
        Err(e) => Err(e),
    }
}

/// Whether `r` is what rendering the tree `elems` with the table `rules`
/// gives: the text that [`render`] states, or its error.
pub open spec fn is_rendering(
    r: Result<String, StructuralError>,
    elems: Seq<Node>,
    rules: Seq<RuleModel>,
) -> bool {
    match r {
        Ok(text) => render(elems, rules) == Ok::<Seq<char>, StructuralError>(text@),
        Err(e) => render(elems, rules) == Err::<Seq<char>, StructuralError>(e),
    }
}

/// The text that the children of a brace group spell.
fn flatten(br: &Vec<Element>) -> (name: Vec<char>)
    ensures
        name@ == flat_name(nodes(br@)),
{
    let mut name: Vec<char> = Vec::new();
    let mut i: usize = 0;
    proof {
        lemma_nodes_index(br@);
    }
    while i < br.len()
        invariant
            i <= br@.len(),
            nodes(br@).len() == br@.len(),
            forall|k: int| 0 <= k < br@.len() ==> (#[trigger] nodes(br@)[k]) == br@[k]@,
            name@ == flat_name(nodes(br@)).take(i as int),
        decreases br.len() - i,
    {
        let c = match &br[i] {
            Element::Char(c) => *c,
            _ => ' ',
        };
        assert(flat_name(nodes(br@))[i as int] == c);
        assert(flat_name(nodes(br@)).take(i + 1) =~= flat_name(nodes(br@)).take(i as int).push(c));
        name.push(c);
        i = i + 1;
    }
    assert(flat_name(nodes(br@)).take(i as int) =~= flat_name(nodes(br@)));
    name
}

/// Whether `name` is the name of an environment of display math.
fn math_name(name: &Vec<char>) -> (r: bool)
    ensures
        r == is_math_name(name@),
{
    same_chars(name, "align") || same_chars(name, "align*") || same_chars(name, "equation")
        || same_chars(name, "eqnarray")
}

/// Whether `name` is the name of a matrix environment.
fn matrix_name(name: &Vec<char>) -> (r: bool)
    ensures
        r == is_matrix_name(name@),
{
    same_chars(name, "matrix") || same_chars(name, "pmatrix") || same_chars(name, "bmatrix")
        || same_chars(name, "Bmatrix") || same_chars(name, "vmatrix") || same_chars(
        name,
        "Vmatrix",
    )
}

/// Whether `elem` names an environment of display math.
pub fn is_math_env(elem: &Element) -> (r: bool)
    ensures
        r == (environment_name(elem@) matches Some(name) && is_math_name(name)),
{
    match elem {
        Element::Str(env) => {
            let name = chars_of(env);
            math_name(&name)
        },
        Element::Brace(br) => {
            let name = flatten(br);
            math_name(&name)
        },
        _ => false,
    }
}

/// Whether `env` names a matrix environment.
pub fn is_matrix_env(env: &Element) -> (r: bool)
    ensures
        r == (environment_name(env@) matches Some(name) && is_matrix_name(name)),
{
    match env {
        Element::Str(env) => {
            let name = chars_of(env);
            matrix_name(&name)
        },
        Element::Brace(br) => {
            let name = flatten(br);
            matrix_name(&name)
        },
        _ => false,
    }
}

/// The kind of environment that `elem` names.
fn environment(elem: &Element) -> (kind: Environment)
    ensures
        kind == environment_of(elem@),
{
    if is_math_env(elem) {
        Environment::Math
    } else if is_matrix_env(elem) {
        Environment::Matrix
    } else {
        Environment::Other
    }
}

/// Appends a space to `out` unless it is empty or ends in white space.
fn put_optional_space(out: &mut Vec<char>)
    ensures
        final(out)@ == spaced(old(out)@),
{
    if out.len() > 0 && !char_is_whitespace(out[out.len() - 1]) {
        out.push(' ');
    }
}

/// Writes what `begin` writes for an environment of kind `kind`.
fn push_opening(out: &mut Vec<char>, kind: Environment)
    ensures
        final(out)@ == old(out)@ + opening(kind),
{
    match kind {
        Environment::Math => {
            out.push('$');
            out.push(' ');
        },
        Environment::Matrix => {
            out.push('m');
            out.push('a');
            out.push('t');
            out.push('(');
        },
        Environment::Other => {},
    }
    assert(out@ =~= old(out)@ + opening(kind));
}

/// Writes what `end` writes for an environment of kind `kind`.
fn push_closing(out: &mut Vec<char>, kind: Environment)
    ensures
        final(out)@ == old(out)@ + closing(kind),
{
    match kind {
        Environment::Math => {
            out.push(' ');
            out.push('$');
            out.push('\n');
        },
        Environment::Matrix => {
            out.push(')');
        },
        Environment::Other => {},
    }
    assert(out@ =~= old(out)@ + closing(kind));
}

/// Writes a literal character, as the innermost open environment asks.
fn push_char(out: &mut Vec<char>, c: char, matrix: bool)
    ensures
        final(out)@ == old(out)@ + (if matrix && c == '&' {
            seq![',']
        } else if matrix && c == '\\' {
            seq![';', '\n']
        } else {
            seq![c]
        }),
{
    if matrix && c == '&' {
        out.push(',');
        assert(out@ =~= old(out)@ + seq![',']);
    } else if matrix && c == '\\' {
        out.push(';');
        out.push('\n');
        assert(out@ =~= old(out)@ + seq![';', '\n']);
    } else {
        out.push(c);
        assert(out@ =~= old(out)@ + seq![c]);
    }
}

/// Appends `more` to `out`.
fn push_all(out: &mut Vec<char>, more: Vec<char>)
    ensures
        final(out)@ == old(out)@ + more@,
{
    let mut more = more;
    out.append(&mut more);
}

/// Renders an argument of `frac` or `mathcal`: a brace group as its content
/// in round brackets, anything else as nothing.
fn replace_brace(br: &Element, replace_rules: &[(Regex, String)]) -> (r: Result<
    Vec<char>,
    StructuralError,
>)
    ensures
        rendered(r) == render_argument(br@, rules_model(replace_rules@)),
    decreases br, 0nat,
{
    match br {
        Element::Brace(br) => {
            let inner = render_elements(br.as_slice(), replace_rules)?;
            let ghost text = inner@;
            let mut ret: Vec<char> = Vec::new();
            ret.push('(');
            push_all(&mut ret, inner);
            ret.push(')');
            assert(ret@ =~= seq!['('] + text + seq![')']);
            Ok(ret)
        },
        _ => Ok(Vec::new()),
    }
}

/// Renders a sequence of elements on its own.
fn render_elements(elems: &[Element], replace_rules: &[(Regex, String)]) -> (r: Result<
    Vec<char>,
    StructuralError,
>)
    ensures
        rendered(r) == render(nodes(elems@), rules_model(replace_rules@)),
    decreases elems@, 1nat,
{
    let mut ret: Vec<char> = Vec::new();
    let mut ptr: usize = 0;
    let mut env_stack: Vec<Environment> = Vec::new();
    let ghost items = nodes(elems@);
    let ghost rules = rules_model(replace_rules@);
    proof {
        lemma_nodes_index(elems@);
    }
    while ptr < elems.len()
        invariant
            ptr <= elems@.len(),
            items == nodes(elems@),
            rules == rules_model(replace_rules@),
            items.len() == elems@.len(),
            forall|k: int| 0 <= k < elems@.len() ==> (#[trigger] items[k]) == elems@[k]@,
            render(items, rules) == render_from(items, ptr as int, ret@, env_stack@, rules),
        decreases elems@.len() - ptr,
    {
        let elem = &elems[ptr];
        assert(items[ptr as int] == elem@);
        match elem {
            Element::Char(c) => {
                put_optional_space(&mut ret);
                let matrix = env_stack.len() > 0 && matches!(
                    env_stack[env_stack.len() - 1],
                    Environment::Matrix
                );
                push_char(&mut ret, *c, matrix);
                ptr = ptr + 1;
            },
            Element::Str(s) => {
                let name = chars_of(s);
                if same_chars(&name, "frac") {
                    if elems.len() - ptr <= 2 {
                        return Err(StructuralError { command: Structure::Frac, index: ptr });
                    }
                    let over = replace_brace(&elems[ptr + 1], replace_rules)?;
                    let under = replace_brace(&elems[ptr + 2], replace_rules)?;
                    let ghost before = ret@;
                    let ghost (over_text, under_text) = (over@, under@);
                    push_all(&mut ret, over);
                    ret.push('/');
                    push_all(&mut ret, under);
                    assert(ret@ =~= before + over_text + seq!['/'] + under_text);
                    ptr = ptr + 3;
                } else if same_chars(&name, "mathcal") {
                    if elems.len() - ptr <= 1 {
                        return Err(StructuralError { command: Structure::Mathcal, index: ptr });
                    }
                    let argument = replace_brace(&elems[ptr + 1], replace_rules)?;
                    let ghost before = ret@;
                    let ghost text = argument@;
                    put_optional_space(&mut ret);
                    ret.push('c');
                    ret.push('a');
                    ret.push('l');
                    push_all(&mut ret, argument);
                    assert(ret@ =~= spaced(before) + seq!['c', 'a', 'l'] + text);
                    ptr = ptr + 2;
                } else if same_chars(&name, "left") || same_chars(&name, "right") {
                    ptr = ptr + 1;
                } else if same_chars(&name, "begin") {
                    if elems.len() - ptr <= 1 {
                        return Err(StructuralError { command: Structure::Begin, index: ptr });
                    }
                    let kind = environment(&elems[ptr + 1]);
                    push_opening(&mut ret, kind);
                    env_stack.push(kind);
                    ptr = ptr + 2;
                } else if same_chars(&name, "end") {
                    if elems.len() - ptr <= 1 {
                        return Err(StructuralError { command: Structure::End, index: ptr });
                    }
                    let kind = environment(&elems[ptr + 1]);
                    push_closing(&mut ret, kind);
                    env_stack.pop();
                    ptr = ptr + 2;
                } else if same_chars(&name, "label") {
                    if elems.len() - ptr <= 1 {
                        return Err(StructuralError { command: Structure::Label, index: ptr });
                    }
                    ptr = ptr + 2;
                } else {
                    put_optional_space(&mut ret);
                    match find_rule(s, replace_rules) {
                        Some(i) => {
                            push_str(&mut ret, replace_rules[i].1.as_str());
                        },
                        None => {
                            push_str(&mut ret, s);
                        },
                    }
                    ptr = ptr + 1;
                }
            },
            Element::Brace(br) => {
                let inner = render_elements(br.as_slice(), replace_rules)?;
                let ghost before = ret@;
                let ghost text = inner@;
                ret.push('(');
                push_all(&mut ret, inner);
                ret.push(')');
                assert(ret@ =~= before + seq!['('] + text + seq![')']);
                ptr = ptr + 1;
            },
            Element::IMath(im) => {
                let inner = render_elements(im.as_slice(), replace_rules)?;
                let ghost before = ret@;
                let ghost text = inner@;
                ret.push('$');
                push_all(&mut ret, inner);
                ret.push('$');
                ret.push('\n');
                assert(ret@ =~= before + seq!['$'] + text + seq!['$', '\n']);
                ptr = ptr + 1;
            },
            Element::DMath(im) => {
                let inner = render_elements(im.as_slice(), replace_rules)?;
                let ghost before = ret@;
                let ghost text = inner@;
                ret.push('$');
                ret.push(' ');
                push_all(&mut ret, inner);
                ret.push(' ');
                ret.push('$');
                ret.push('\n');
                assert(ret@ =~= before + seq!['$', ' '] + text + seq![' ', '$', '\n']);
                ptr = ptr + 1;
            },
        }
    }
    Ok(ret)
}

/// Renders a sequence of elements as Typst text, with `replace_rules` as the
/// rule table. A command that lacks an argument ends the rendering with an
/// error.
pub fn replace_cmd(elems: &[Element], replace_rules: &[(Regex, String)]) -> (r: Result<
    String,
    StructuralError,
>)
    ensures
        is_rendering(r, nodes(elems@), rules_model(replace_rules@)),
{
    match render_elements(elems, replace_rules) {
        Ok(text) => Ok(string_of(&text)),
        Err(e) => Err(e),
    }
}

} // verus!
