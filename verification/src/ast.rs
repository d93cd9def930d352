use vstd::prelude::*;

use crate::token::Token;
use crate::token::TokenV;
use crate::token::is_op_token;
use crate::token::valid_number;

verus! {

/// A node of the abstract syntax tree: a numeric leaf carrying its
/// literal text, or a binary operation owning both subtrees together
/// with its operator token.
#[derive(Debug)]
pub enum AstNode {
    Number(String),
    BinaryOp(Box<AstNode>, Token, Box<AstNode>),
}

/// The mathematical value of a tree: the same shape over character
/// sequences and token values.
pub enum AstV {
    Number(Seq<char>),
    BinaryOp(Box<AstV>, TokenV, Box<AstV>),
}

pub open spec fn ast_view(n: AstNode) -> AstV
    decreases n,
{
    match n {
        AstNode::Number(s) => AstV::Number(s@),
        AstNode::BinaryOp(l, op, r) => AstV::BinaryOp(
            Box::new(ast_view(*l)),
            op@,
            Box::new(ast_view(*r)),
        ),
    }
}

impl View for AstNode {
    type V = AstV;

    open spec fn view(&self) -> AstV {
        ast_view(*self)
    }
}

/// The operator invariant: every binary node's operator is one of
/// {plus, minus, mul, div} - never a parenthesis or the end marker.
/// The parser establishes this by construction, and the evaluator is
/// total over trees that satisfy it.
pub open spec fn ast_ops_ok(a: AstV) -> bool
    decreases a,
{
    match a {
        AstV::Number(_) => true,
        AstV::BinaryOp(l, op, r) => is_op_token(op) && ast_ops_ok(*l) && ast_ops_ok(*r),
    }
}

/// Every leaf of the tree carries a valid numeric literal, so each
/// denotes a decimal number.
pub open spec fn ast_leaves_valid(a: AstV) -> bool
    decreases a,
{
    match a {
        AstV::Number(t) => valid_number(t),
        AstV::BinaryOp(l, _, r) => ast_leaves_valid(*l) && ast_leaves_valid(*r),
    }
}

} // verus!
