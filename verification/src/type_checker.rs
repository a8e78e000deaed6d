//! The beginning of a type checker: the types of literals.

use crate::ast::{no_info, Info, Node, NodeView, Sym, SymView};
use crate::primitives::{Prim, PrimView};
use vstd::prelude::*;

verus! {

/// The name of the type of a literal.
pub open spec fn literal_type(literal: PrimView) -> Option<Seq<char>> {
    match literal {
        PrimView::I32(_) => Some("I32"@),
        PrimView::Bool(_) => Some("Bool"@),
        PrimView::Str(_) => Some("String"@),
        _ => None,
    }
}

/// The name of the type of a tree, for the trees whose type can be
/// inferred so far: the literals of numbers, booleans and texts.
pub open spec fn inferred_type(expr: NodeView) -> Option<Seq<char>> {
    match expr {
        NodeView::PrimNode(literal, _) => literal_type(literal),
        _ => None,
    }
}

/// Whether the type of a tree can be inferred so far.
pub fn can_infer(expr: &Node) -> (known: bool)
    ensures
        known == inferred_type(expr@) is Some,
{
    match expr {
        Node::PrimNode(Prim::I32(_), _) => true,
        Node::PrimNode(Prim::Bool(_), _) => true,
        Node::PrimNode(Prim::Str(_), _) => true,
        _ => false,
    }
}

/// Infers that `expr` has the type that is returned: a reference to the
/// name of the type.
pub fn infer(expr: &Node) -> (ty: Node)
    requires
        inferred_type(expr@) is Some,
    ensures
        ty@ == NodeView::SymNode(
            SymView { name: inferred_type(expr@).unwrap(), depth: None, info: no_info() },
        ),
{
    let name = match expr {
        Node::PrimNode(Prim::I32(_), _) => "I32",
        Node::PrimNode(Prim::Bool(_), _) => "Bool",
        _ => "String",
    };
    Node::SymNode(Sym { name: String::from_str(name), depth: None, info: Info::default() })
}

} // verus!
