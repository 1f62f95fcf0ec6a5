//! The syntax tree, and the mathematical model that contracts speak of.
use vstd::prelude::*;

verus! {

/// A node of the tree that parsing produces.
#[derive(PartialEq, Eq, Debug)]
pub enum Element<'src> {
    /// The name of a command: the letters that followed a backslash.
    Str(&'src str),
    /// A literal character.
    Char(char),
    /// A group written between `{` and `}`.
    Brace(Vec<Element<'src>>),
    /// Inline math, written between `$` and `$`.
    IMath(Vec<Element<'src>>),
    /// Display math, written between `$$` and `$$`.
    DMath(Vec<Element<'src>>),
}

/// The model of an [`Element`]: the same tree over sequences.
pub enum Node {
    Str(Seq<char>),
    Char(char),
    Brace(Seq<Node>),
    IMath(Seq<Node>),
    DMath(Seq<Node>),
}

impl<'src> View for Element<'src> {
    type V = Node;

    open spec fn view(&self) -> Node {
        node_of(*self)
    }
}

/// The model of one element.
pub open spec fn node_of(e: Element<'_>) -> Node
    decreases e, 0nat,
{
    match e {
        Element::Str(s) => Node::Str(s@),
        Element::Char(c) => Node::Char(c),
        Element::Brace(v) => Node::Brace(nodes(v@)),
        Element::IMath(v) => Node::IMath(nodes(v@)),
        Element::DMath(v) => Node::DMath(nodes(v@)),
    }
}

/// The models of a sequence of elements, in order.
pub open spec fn nodes(elems: Seq<Element<'_>>) -> Seq<Node>
    decreases elems, 1nat,
{
    if elems.len() == 0 {
        Seq::empty()
    } else {
        nodes(elems.drop_last()).push(node_of(elems.last()))
    }
}

/// `nodes` keeps the length and models each element in its place.
pub proof fn lemma_nodes_index(elems: Seq<Element<'_>>)
    ensures
        nodes(elems).len() == elems.len(),
        forall|i: int| 0 <= i < elems.len() ==> (#[trigger] nodes(elems)[i]) == elems[i]@,
    decreases elems.len(),
{
    if elems.len() > 0 {
        lemma_nodes_index(elems.drop_last());
    }
}

/// Appending an element appends its model.
pub proof fn lemma_nodes_push(elems: Seq<Element<'_>>, e: Element<'_>)
    ensures
        nodes(elems.push(e)) == nodes(elems).push(e@),
{
    assert(elems.push(e).drop_last() =~= elems);
}

} // verus!
