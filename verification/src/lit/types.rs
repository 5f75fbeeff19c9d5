//! The node tree produced by the markup parser, and its mathematical model.

use vstd::prelude::*;

verus! {

/// A parsed markup document: an ordered sequence of nodes.
pub type LitDocument = Vec<LitNode>;

/// One node of the markup tree: a run of literal text, an annotation call
/// `\name{arg}...` with its arguments, or a comment `{- ... -}`.
///
/// Text content is kept exactly as it stood in the source; the escape
/// sequences `\{`, `\}` are resolved only by the markdown renderer.
#[derive(Debug, PartialEq, Eq, Hash)]
pub enum LitNode {
    Text(String),
    Fn(String, Vec<LitDocument>),
    Comment(String),
}

/// Mathematical model of a node: each string becomes its sequence of
/// characters.
pub enum NodeV {
    Text(Seq<char>),
    Fn(Seq<char>, Seq<Seq<NodeV>>),
    Comment(Seq<char>),
}

/// The model of a document: each node modelled by `node_view`.
pub open spec fn doc_view(d: Seq<LitNode>) -> Seq<NodeV>
    decreases d,
{
    if d.len() == 0 {
        seq![]
    } else {
        seq![node_view(d[0])] + doc_view(d.drop_first())
    }
}

/// The model of an argument list: each argument is itself a document.
pub open spec fn args_view(a: Seq<LitDocument>) -> Seq<Seq<NodeV>>
    decreases a,
{
    if a.len() == 0 {
        seq![]
    } else {
        seq![doc_view(a[0]@)] + args_view(a.drop_first())
    }
}

/// The model of a node.
pub open spec fn node_view(n: LitNode) -> NodeV
    decreases n,
{
    match n {
        LitNode::Text(s) => NodeV::Text(s@),
        LitNode::Comment(s) => NodeV::Comment(s@),
        LitNode::Fn(name, args) => NodeV::Fn(name@, args_view(args@)),
    }
}

/// `doc_view` maps the nodes one by one.
pub proof fn lemma_doc_view(d: Seq<LitNode>)
    ensures
        doc_view(d).len() == d.len(),
        forall|i: int| 0 <= i < d.len() ==> doc_view(d)[i] == node_view(d[i]),
    decreases d,
{
    if d.len() > 0 {
        lemma_doc_view(d.drop_first());
    }
}

/// `args_view` maps the arguments one by one.
pub proof fn lemma_args_view(a: Seq<LitDocument>)
    ensures
        args_view(a).len() == a.len(),
        forall|i: int| 0 <= i < a.len() ==> args_view(a)[i] == doc_view(a[i]@),
    decreases a,
{
    if a.len() > 0 {
        lemma_args_view(a.drop_first());
    }
}

/// Whether every node of the list is a text node.
pub open spec fn all_text(nodes: Seq<NodeV>) -> bool {
    forall|i: int| 0 <= i < nodes.len() ==> nodes[i] is Text
}

/// The literal text content of the list: the contents of its text nodes,
/// concatenated in order; calls and comments contribute nothing.
pub open spec fn raw_text_view(nodes: Seq<NodeV>) -> Seq<char>
    decreases nodes,
{
    if nodes.len() == 0 {
        seq![]
    } else {
        (match nodes[0] {
            NodeV::Text(t) => t,
            _ => seq![],
        }) + raw_text_view(nodes.drop_first())
    }
}

/// A positioned markup parse error: `offset` is the character index at which
/// no further node could be parsed; `line` and `column` are the 1-based
/// position of that character in the input.
#[derive(Debug, PartialEq, Eq, Hash, Clone, Copy)]
pub struct ParseError {
    pub offset: usize,
    pub line: usize,
    pub column: usize,
}

} // verus!
