use vstd::prelude::*;

use crate::ast::AstNode;
use crate::ast::AstV;
use crate::ast::ast_leaves_valid;
use crate::ast::ast_ops_ok;
use crate::token::Token;
use crate::token::TokenV;
use crate::token::is_op_token;
use crate::token::valid_number;

verus! {

/// One step of an evaluation schedule: place a number, or combine the
/// two values most recently produced with an operator.
#[derive(Debug, PartialEq)]
pub enum EvalStep {
    Operand(String),
    Apply(Token),
}

pub enum EvalStepV {
    Operand(Seq<char>),
    Apply(TokenV),
}

impl View for EvalStep {
    type V = EvalStepV;

    open spec fn view(&self) -> EvalStepV {
        match self {
            EvalStep::Operand(s) => EvalStepV::Operand(s@),
            EvalStep::Apply(t) => EvalStepV::Apply(t@),
        }
    }
}

pub open spec fn step_views(ss: Seq<EvalStep>) -> Seq<EvalStepV> {
    ss.map_values(|s: EvalStep| s@)
}

/// The evaluation schedule of a tree: left subtree, then right
/// subtree, then the node's operator - the order in which the
/// evaluator produces and combines values.
pub open spec fn postorder(a: AstV) -> Seq<EvalStepV>
    decreases a,
{
    match a {
        AstV::Number(t) => seq![EvalStepV::Operand(t)],
        AstV::BinaryOp(l, op, r) => postorder(*l) + postorder(*r) + seq![EvalStepV::Apply(op)],
    }
}

/// A step an evaluator can always act on: an operand that denotes a
/// decimal number, or one of the four operators.
pub open spec fn step_ok(s: EvalStepV) -> bool {
    match s {
        EvalStepV::Operand(t) => valid_number(t),
        EvalStepV::Apply(op) => is_op_token(op),
    }
}

pub open spec fn steps_wf(ss: Seq<EvalStepV>) -> bool {
    forall|k: int| 0 <= k < ss.len() ==> step_ok(#[trigger] ss[k])
}

/// A tree that keeps the operator invariant and carries valid
/// literals yields a schedule of actable steps alone.
pub proof fn lemma_postorder_wf(a: AstV)
    requires
        ast_ops_ok(a),
        ast_leaves_valid(a),
    ensures
        steps_wf(postorder(a)),
    decreases a,
{
    match a {
        AstV::Number(_) => {},
        AstV::BinaryOp(l, op, r) => {
            lemma_postorder_wf(*l);
            lemma_postorder_wf(*r);
            let pl = postorder(*l);
            let pr = postorder(*r);
            let all = pl + pr + seq![EvalStepV::Apply(op)];
            assert forall|k: int| 0 <= k < all.len() implies step_ok(#[trigger] all[k]) by {
                if k < pl.len() {
                    assert(all[k] == pl[k]);
                } else if k < pl.len() + pr.len() {
                    assert(all[k] == pr[k - pl.len()]);
                } else {
                    assert(all[k] == EvalStepV::Apply(op));
                }
            }
        },
    }
}

/// The stack depth after acting on a schedule that starts at depth
/// `d`: an operand places one value, an apply takes two and places
/// one; taking from fewer than two is an underflow, and no depth
/// results.
pub open spec fn depth_after(ss: Seq<EvalStepV>, d: int) -> Option<int>
    decreases ss.len(),
{
    if ss.len() == 0 {
        Some(d)
    } else {
        match ss[0] {
            EvalStepV::Operand(_) => depth_after(ss.drop_first(), d + 1),
            EvalStepV::Apply(_) => if d >= 2 {
                depth_after(ss.drop_first(), d - 1)
            } else {
                None
            },
        }
    }
}

proof fn lemma_depth_after_concat(x: Seq<EvalStepV>, y: Seq<EvalStepV>, d: int)
    ensures
        depth_after(x + y, d) == (match depth_after(x, d) {
            Some(m) => depth_after(y, m),
            None => None::<int>,
        }),
    decreases x.len(),
{
    if x.len() == 0 {
        assert(x + y =~= y);
    } else {
        assert((x + y).drop_first() =~= x.drop_first() + y);
        assert((x + y)[0] == x[0]);
        match x[0] {
            EvalStepV::Operand(_) => {
                lemma_depth_after_concat(x.drop_first(), y, d + 1);
            },
            EvalStepV::Apply(_) => {
                if d >= 2 {
                    lemma_depth_after_concat(x.drop_first(), y, d - 1);
                }
            },
        }
    }
}

proof fn lemma_postorder_depth(a: AstV, d: int)
    requires
        d >= 0,
    ensures
        depth_after(postorder(a), d) == Some(d + 1),
    decreases a,
{
    match a {
        AstV::Number(t) => {
            assert(seq![EvalStepV::Operand(t)].drop_first() =~= Seq::<EvalStepV>::empty());
            assert(depth_after(Seq::<EvalStepV>::empty(), d + 1) == Some(d + 1));
        },
        AstV::BinaryOp(l, op, r) => {
            let pl = postorder(*l);
            let pr = postorder(*r);
            let tail = seq![EvalStepV::Apply(op)];
            lemma_postorder_depth(*l, d);
            lemma_postorder_depth(*r, d + 1);
            assert(postorder(a) =~= pl + (pr + tail));
            lemma_depth_after_concat(pl, pr + tail, d);
            lemma_depth_after_concat(pr, tail, d + 1);
            assert(tail.drop_first() =~= Seq::<EvalStepV>::empty());
        },
    }
}

/// Every schedule is balanced: an evaluator that starts with an empty
/// stack never wants for values and ends holding exactly one, the
/// tree's.
pub proof fn lemma_schedule_balanced(a: AstV)
    ensures
        depth_after(postorder(a), 0) == Some(1int),
{
    lemma_postorder_depth(a, 0);
}

/// The evaluator's verified half: it fixes the order in which values
/// are produced and combined. Walking the schedule with a stack - an
/// operand places its number, an apply takes the right value, then
/// the left, and places their combination - computes the tree's
/// value. The numeric domain itself is 64-bit floating point, which
/// the verifier does not model, so acting on a step stays with the
/// calling shell.
pub struct Interpreter;

impl Interpreter {
    pub fn new() -> (interpreter: Interpreter) {
        Interpreter
    }

    /// The evaluation schedule of the tree: its postorder walk. On a
    /// tree of the parser's making - operator invariant kept, leaves
    /// valid - every step of the schedule is actable.
    pub fn interpret(&mut self, node: &AstNode) -> (steps: Vec<EvalStep>)
        ensures
            step_views(steps@) == postorder(node@),
            ast_ops_ok(node@) && ast_leaves_valid(node@) ==> steps_wf(step_views(steps@)),
            depth_after(step_views(steps@), 0) == Some(1int),
    {
        let mut steps: Vec<EvalStep> = Vec::new();
        proof {
            assert(step_views(steps@) =~= Seq::<EvalStepV>::empty());
        }
        push_postorder(node, &mut steps);
        proof {
            assert(Seq::<EvalStepV>::empty() + postorder(node@) =~= postorder(node@));
            if ast_ops_ok(node@) && ast_leaves_valid(node@) {
                lemma_postorder_wf(node@);
            }
            lemma_schedule_balanced(node@);
        }
        steps
    }
}

fn push_postorder(node: &AstNode, out: &mut Vec<EvalStep>)
    ensures
        step_views(final(out)@) == step_views(old(out)@) + postorder(node@),
    decreases node,
{
    match node {
        AstNode::Number(text) => {
            let step = EvalStep::Operand(text.clone());
            let ghost sv = step@;
            let ghost before = out@;
            out.push(step);
            proof {
                assert(sv == EvalStepV::Operand(text@));
                assert(step_views(out@) =~= step_views(before) + seq![sv]);
            }
        },
        AstNode::BinaryOp(l, op, r) => {
            push_postorder(&**l, out);
            push_postorder(&**r, out);
            let step = EvalStep::Apply(op.clone());
            let ghost sv = step@;
            let ghost before = out@;
            out.push(step);
            proof {
                assert(sv == EvalStepV::Apply(op@));
                assert(step_views(out@) =~= step_views(before) + seq![sv]);
                assert(step_views(out@) =~= step_views(old(out)@) + postorder(node@));
            }
        },
    }
}

} // verus!
