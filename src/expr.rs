use vstd::prelude::*;

use crate::op_code::OpCode;
use crate::value::{
    binary_result, concatenation, is_falsey, negation, values_equal, BinaryOp, ValueView,
};

verus! {

/// An expression as the compiler sees it: a constant of the pool by index, a
/// literal, a unary operator on an operand, or a binary operator on two.
pub enum Expr {
    Constant(nat),
    Literal(OpCode),
    Unary(OpCode, Box<Expr>),
    Binary(OpCode, Box<Expr>, Box<Expr>),
}

/// The instructions of an expression in postfix order: operands first, left
/// before right, then the operator.
pub open spec fn postfix(e: Expr) -> Seq<(OpCode, Option<u8>)>
    decreases e,
{
    match e {
        Expr::Constant(i) => seq![(OpCode::OP_CONSTANT, Some(i as u8))],
        Expr::Literal(op) => seq![(op, None::<u8>)],
        Expr::Unary(op, a) => postfix(*a).push((op, None::<u8>)),
        Expr::Binary(op, a, b) => (postfix(*a) + postfix(*b)).push((op, None::<u8>)),
    }
}

/// Every constant exists among `n_constants`, and each operator is one that
/// takes that many operands.
pub open spec fn expr_wf(e: Expr, n_constants: nat) -> bool
    decreases e,
{
    match e {
        Expr::Constant(i) => i < n_constants && i < 256,
        Expr::Literal(op) => op == OpCode::OP_TRUE || op == OpCode::OP_FALSE || op
            == OpCode::OP_NIL,
        Expr::Unary(op, a) => (op == OpCode::OP_NEGATE || op == OpCode::OP_NOT) && expr_wf(
            *a,
            n_constants,
        ),
        Expr::Binary(op, a, b) => {
            &&& (op == OpCode::OP_ADD || op == OpCode::OP_SUBTRACT || op == OpCode::OP_MULTIPLY
                || op == OpCode::OP_DIVIDE || op == OpCode::OP_EQUAL || op == OpCode::OP_GREATER
                || op == OpCode::OP_LESS)
            &&& expr_wf(*a, n_constants)
            &&& expr_wf(*b, n_constants)
        },
    }
}

/// How many stack slots evaluating the expression needs.
pub open spec fn depth(e: Expr) -> nat
    decreases e,
{
    match e {
        Expr::Constant(_) => 1,
        Expr::Literal(_) => 1,
        Expr::Unary(_, a) => depth(*a),
        Expr::Binary(_, a, b) => {
            let l = depth(*a);
            let r = 1 + depth(*b);
            if l >= r {
                l
            } else {
                r
            }
        },
    }
}

/// A binary operator applied to two values; `None` on a type mismatch.
pub open spec fn apply_binary(op: OpCode, x: ValueView, y: ValueView) -> Option<ValueView> {
    match op {
        OpCode::OP_ADD => match concatenation(x, y) {
            Some(v) => Some(v),
            None => binary_result(BinaryOp::Add, x, y),
        },
        OpCode::OP_EQUAL => Some(ValueView::Bool(values_equal(x, y))),
        OpCode::OP_SUBTRACT => binary_result(BinaryOp::Sub, x, y),
        OpCode::OP_MULTIPLY => binary_result(BinaryOp::Mul, x, y),
        OpCode::OP_DIVIDE => binary_result(BinaryOp::Div, x, y),
        OpCode::OP_GREATER => binary_result(BinaryOp::Greater, x, y),
        _ => binary_result(BinaryOp::Less, x, y),
    }
}

/// The value of an expression, the left operand evaluated before the right;
/// `None` where an operator meets operands of the wrong type.
pub open spec fn eval(e: Expr, consts: Seq<ValueView>) -> Option<ValueView>
    decreases e,
{
    match e {
        Expr::Constant(i) => Some(consts[i as int]),
        Expr::Literal(op) => Some(
            if op == OpCode::OP_TRUE {
                ValueView::Bool(true)
            } else if op == OpCode::OP_FALSE {
                ValueView::Bool(false)
            } else {
                ValueView::Nil
            },
        ),
        Expr::Unary(op, a) => match eval(*a, consts) {
            Some(v) => if op == OpCode::OP_NEGATE {
                negation(v)
            } else {
                Some(ValueView::Bool(is_falsey(v)))
            },
            None => None,
        },
        Expr::Binary(op, a, b) => match (eval(*a, consts), eval(*b, consts)) {
            (Some(x), Some(y)) => apply_binary(op, x, y),
            _ => None,
        },
    }
}

/// An expression well formed over some constants stays so over more.
pub proof fn lemma_expr_wf_grows(e: Expr, n: nat, m: nat)
    requires
        expr_wf(e, n),
        n <= m,
    ensures
        expr_wf(e, m),
    decreases e,
{
    match e {
        Expr::Unary(_, a) => lemma_expr_wf_grows(*a, n, m),
        Expr::Binary(_, a, b) => {
            lemma_expr_wf_grows(*a, n, m);
            lemma_expr_wf_grows(*b, n, m);
        },
        _ => {},
    }
}

} // verus!
