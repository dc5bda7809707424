use vstd::prelude::*;

use crate::chunk::{decode, encode, encode_lines, instr_bytes, lemma_encode_append, lemma_encode_push, Chunk};
use crate::expr::{apply_binary, depth, eval, expr_wf, postfix, Expr};
use crate::compiler::grammar::{
    arith_op, binary_ops, compile_spec, constant_at, is_arith_operator, kind_at, lemma_parse_tree,
    lemma_three_operands, lemma_two_operands, literal_value, number_at, literal_constant,
    Compilation,
};
use crate::compiler::parse_rule::rule_of;
use crate::compiler::precedence::level;
use crate::compiler::scanner::nth_lexeme;
use crate::compiler::precedence::Precedence;
use crate::compiler::{Compiler, Diagnostic};
use crate::op_code::{op_byte, op_of_byte, OpCode};
use crate::token::TokenType;
use crate::value::{
    binary_result, concatenation, f32_difference, f32_product, f32_quotient, f32_sum, is_falsey,
    negation, values_equal, BinaryOp, Value, ValueView,
};

verus! {

/// The operand stack holds at most this many values.
pub const STACK_MAX: usize = 256;

/// The two ways `interpret` can fail.
#[derive(Clone, Copy, Debug, PartialEq, Eq, Structural)]
pub enum InterpretError {
    RUNTIME_ERROR,
    COMPILE_ERROR,
}

/// What went wrong at run time.
#[derive(Clone, Copy, Debug, PartialEq, Eq, Structural)]
pub enum FaultKind {
    /// `-` applied to a value that is not a number.
    OperandMustBeNumber,
    /// An arithmetic or comparison operator applied to a non-number.
    OperandsMustBeNumbers,
    /// `+` applied to anything but two numbers or two strings.
    OperandsMustBeNumbersOrStrings,
    /// A push onto a full stack.
    StackOverflow,
    /// A pop from an empty stack.
    StackUnderflow,
    /// A byte that is no opcode, a missing operand, an unknown constant, or
    /// the end of the code reached without `OP_RETURN`.
    BadInstruction,
}

/// The text reported for each kind of fault.
pub open spec fn fault_message(k: FaultKind) -> Seq<char> {
    match k {
        FaultKind::OperandMustBeNumber => "Operand must be a number."@,
        FaultKind::OperandsMustBeNumbers => "Operands must be numbers."@,
        FaultKind::OperandsMustBeNumbersOrStrings => "Operands must be two numbers or two strings."@,
        FaultKind::StackOverflow => "Stack overflow."@,
        FaultKind::StackUnderflow => "Stack underflow."@,
        FaultKind::BadInstruction => "Malformed instruction."@,
    }
}

impl FaultKind {
    pub fn message(self) -> (r: &'static str)
        ensures
            r@ == fault_message(self),
    {
        match self {
            FaultKind::OperandMustBeNumber => "Operand must be a number.",
            FaultKind::OperandsMustBeNumbers => "Operands must be numbers.",
            FaultKind::OperandsMustBeNumbersOrStrings => "Operands must be two numbers or two strings.",
            FaultKind::StackOverflow => "Stack overflow.",
            FaultKind::StackUnderflow => "Stack underflow.",
            FaultKind::BadInstruction => "Malformed instruction.",
        }
    }
}

/// A runtime error with the source line of the instruction that raised it.
#[derive(Clone, Copy, Debug, PartialEq, Eq, Structural)]
pub struct RuntimeFault {
    pub kind: FaultKind,
    pub line: usize,
}

/// How a run ends: at `OP_RETURN`, with the stack and the offset after that
/// instruction; or with a fault raised by the instruction at an offset.
pub enum Outcome {
    Returned(Seq<ValueView>, nat),
    Failed(FaultKind, nat),
}

/// One step of execution: on to a new offset and stack, or stop.
pub enum Step {
    Next(nat, Seq<ValueView>),
    Stop(Outcome),
}

/// Pushes `v` and moves on to `next`, unless the stack is full.
pub open spec fn push_step(ip: nat, next: nat, stack: Seq<ValueView>, v: ValueView) -> Step {
    if stack.len() >= STACK_MAX {
        Step::Stop(Outcome::Failed(FaultKind::StackOverflow, ip))
    } else {
        Step::Next(next, stack.push(v))
    }
}

/// Replaces the top `n` values by `v` and moves on to `ip + 1`.
pub open spec fn replace_top(ip: nat, stack: Seq<ValueView>, n: nat, v: ValueView) -> Step {
    Step::Next(ip + 1, stack.take(stack.len() - n).push(v))
}

/// The semantics of the instruction at `ip`.
pub open spec fn step(code: Seq<u8>, consts: Seq<ValueView>, ip: nat, stack: Seq<ValueView>) -> Step {
    let bad = Step::Stop(Outcome::Failed(FaultKind::BadInstruction, ip));
    let underflow = Step::Stop(Outcome::Failed(FaultKind::StackUnderflow, ip));
    let n = stack.len();
    if ip >= code.len() {
        bad
    } else {
        match op_of_byte(code[ip as int]) {
            None => bad,
            Some(op) => match op {
                OpCode::OP_RETURN => Step::Stop(Outcome::Returned(stack, ip + 1)),
                OpCode::OP_CONSTANT => {
                    if ip + 1 >= code.len() || code[ip + 1int] >= consts.len() {
                        bad
                    } else {
                        push_step(ip, ip + 2, stack, consts[code[ip + 1int] as int])
                    }
                },
                OpCode::OP_TRUE => push_step(ip, ip + 1, stack, ValueView::Bool(true)),
                OpCode::OP_FALSE => push_step(ip, ip + 1, stack, ValueView::Bool(false)),
                OpCode::OP_NIL => push_step(ip, ip + 1, stack, ValueView::Nil),
                OpCode::OP_NEGATE => {
                    if n < 1 {
                        underflow
                    } else {
                        match negation(stack[n - 1]) {
                            Some(v) => replace_top(ip, stack, 1, v),
                            None => Step::Stop(Outcome::Failed(FaultKind::OperandMustBeNumber, ip)),
                        }
                    }
                },
                OpCode::OP_NOT => {
                    if n < 1 {
                        underflow
                    } else {
                        replace_top(ip, stack, 1, ValueView::Bool(is_falsey(stack[n - 1])))
                    }
                },
                OpCode::OP_EQUAL => {
                    if n < 2 {
                        underflow
                    } else {
                        replace_top(
                            ip,
                            stack,
                            2,
                            ValueView::Bool(values_equal(stack[n - 2], stack[n - 1])),
                        )
                    }
                },
                OpCode::OP_ADD => {
                    if n < 2 {
                        underflow
                    } else {
                        match concatenation(stack[n - 2], stack[n - 1]) {
                            Some(v) => replace_top(ip, stack, 2, v),
                            None => match binary_result(BinaryOp::Add, stack[n - 2], stack[n - 1]) {
                                Some(v) => replace_top(ip, stack, 2, v),
                                None => Step::Stop(
                                    Outcome::Failed(FaultKind::OperandsMustBeNumbersOrStrings, ip),
                                ),
                            },
                        }
                    }
                },
                _ => {
                    let bop = op_binary(op);
                    if n < 2 {
                        underflow
                    } else {
                        match binary_result(bop, stack[n - 2], stack[n - 1]) {
                            Some(v) => replace_top(ip, stack, 2, v),
                            None => Step::Stop(
                                Outcome::Failed(FaultKind::OperandsMustBeNumbers, ip),
                            ),
                        }
                    }
                },
            },
        }
    }
}

/// The number operator that an arithmetic or comparison opcode stands for.
pub open spec fn op_binary(op: OpCode) -> BinaryOp {
    match op {
        OpCode::OP_SUBTRACT => BinaryOp::Sub,
        OpCode::OP_MULTIPLY => BinaryOp::Mul,
        OpCode::OP_DIVIDE => BinaryOp::Div,
        OpCode::OP_GREATER => BinaryOp::Greater,
        OpCode::OP_LESS => BinaryOp::Less,
        _ => BinaryOp::Add,
    }
}

/// Running the code from `ip` with `stack` until it returns or fails. Every
/// step moves forward, so every run ends.
pub open spec fn run_from(code: Seq<u8>, consts: Seq<ValueView>, ip: nat, stack: Seq<ValueView>) -> Outcome
    decreases code.len() - ip,
{
    match step(code, consts, ip, stack) {
        Step::Stop(o) => o,
        Step::Next(next, s) => {
            if ip < next <= code.len() {
                run_from(code, consts, next, s)
            } else {
                Outcome::Failed(FaultKind::BadInstruction, ip)
            }
        },
    }
}

/// The constant pool as values.
pub open spec fn constants_view(chunk: Chunk) -> Seq<ValueView> {
    chunk.constants.values@.map_values(|v: Value| v@)
}

/// The line reported for a fault raised at `at`: that byte's line, or the
/// last line where the run went past the end.
pub open spec fn fault_line(lines: Seq<usize>, at: nat) -> usize {
    if at < lines.len() {
        lines[at as int]
    } else if lines.len() > 0 {
        lines.last()
    } else {
        0
    }
}

/// An operator on numbers fails on any operand that is not a number, whatever
/// the other one is: no coercion takes place.
pub proof fn lemma_mismatched_operands_fail(
    code: Seq<u8>,
    consts: Seq<ValueView>,
    ip: nat,
    stack: Seq<ValueView>,
    op: OpCode,
)
    requires
        ip < code.len(),
        op_of_byte(code[ip as int]) == Some(op),
        op == OpCode::OP_SUBTRACT || op == OpCode::OP_MULTIPLY || op == OpCode::OP_DIVIDE || op
            == OpCode::OP_GREATER || op == OpCode::OP_LESS || op == OpCode::OP_ADD,
        stack.len() >= 2,
        !(stack[stack.len() - 2] is Number) || !(stack[stack.len() - 1] is Number),
        op == OpCode::OP_ADD ==> !(stack[stack.len() - 2] is Str && stack[stack.len() - 1] is Str),
    ensures
        run_from(code, consts, ip, stack) is Failed,
        run_from(code, consts, ip, stack)->Failed_1 == ip,
{
}

/// What interpreting `src` comes to: `None` where it does not compile,
/// otherwise how running its code on an empty stack ends.
pub open spec fn interpretation_of(src: Seq<u8>) -> Option<Outcome> {
    let c = compile_spec(src);
    if !c.ok {
        None
    } else {
        Some(run_from(encode(c.code), c.consts, 0, Seq::empty()))
    }
}

/// The result that `interpret` reports for an interpretation.
pub open spec fn result_of(o: Option<Outcome>) -> Result<(), InterpretError> {
    match o {
        None => Err(InterpretError::COMPILE_ERROR),
        Some(Outcome::Returned(_, _)) => Ok(()),
        Some(Outcome::Failed(_, _)) => Err(InterpretError::RUNTIME_ERROR),
    }
}

/// The faults that come from operand types.
pub open spec fn is_type_fault(k: FaultKind) -> bool {
    k == FaultKind::OperandMustBeNumber || k == FaultKind::OperandsMustBeNumbers || k
        == FaultKind::OperandsMustBeNumbersOrStrings
}

/// Running the code of an expression, wherever it stands, either pushes the
/// expression's value and moves on past the code, or stops on a type fault;
/// it never underflows the stack or meets a malformed instruction.
pub proof fn lemma_expr_runs(
    e: Expr,
    code: Seq<u8>,
    consts: Seq<ValueView>,
    ip: nat,
    stack: Seq<ValueView>,
)
    requires
        expr_wf(e, consts.len()),
        ip + encode(postfix(e)).len() <= code.len(),
        code.subrange(ip as int, (ip + encode(postfix(e)).len()) as int) == encode(postfix(e)),
        stack.len() + depth(e) <= STACK_MAX,
    ensures
        match eval(e, consts) {
            Some(v) => run_from(code, consts, ip, stack) == run_from(
                code,
                consts,
                ip + encode(postfix(e)).len(),
                stack.push(v),
            ),
            None => run_from(code, consts, ip, stack) is Failed && is_type_fault(
                run_from(code, consts, ip, stack)->Failed_0,
            ),
        },
    decreases e,
{
    let c = encode(postfix(e));
    let len = c.len();
    match e {
        Expr::Constant(i) => {
            lemma_encode_push(Seq::empty(), (OpCode::OP_CONSTANT, Some(i as u8)));
            assert(Seq::<(OpCode, Option<u8>)>::empty().push((OpCode::OP_CONSTANT, Some(i as u8)))
                =~= postfix(e));
            assert(c =~= instr_bytes((OpCode::OP_CONSTANT, Some(i as u8))));
            assert(code[ip as int] == c[0]);
            assert(code[ip + 1int] == c[1]);
        },
        Expr::Literal(op) => {
            lemma_encode_push(Seq::empty(), (op, None::<u8>));
            assert(Seq::<(OpCode, Option<u8>)>::empty().push((op, None::<u8>)) =~= postfix(e));
            assert(c =~= instr_bytes((op, None::<u8>)));
            assert(code[ip as int] == c[0]);
        },
        Expr::Unary(op, a) => {
            let pa = postfix(*a);
            let ca = encode(pa);
            lemma_encode_push(pa, (op, None::<u8>));
            assert(c =~= ca + seq![op_byte(op)]);
            assert(code.subrange(ip as int, (ip + ca.len()) as int) =~= ca) by {
                assert(c.subrange(0, ca.len() as int) =~= ca);
            }
            lemma_expr_runs(*a, code, consts, ip, stack);
            let at: nat = ip + ca.len();
            assert(code[at as int] == c[ca.len() as int]);
            match eval(*a, consts) {
                Some(x) => {
                    let s1 = stack.push(x);
                    assert(s1[s1.len() - 1] == x);
                    if let Some(v) = eval(e, consts) {
                        assert(s1.take(s1.len() - 1).push(v) =~= stack.push(v));
                    }
                },
                None => {},
            }
        },
        Expr::Binary(op, a, b) => {
            let pa = postfix(*a);
            let pb = postfix(*b);
            let ca = encode(pa);
            let cb = encode(pb);
            lemma_encode_append(pa, pb);
            lemma_encode_push(pa + pb, (op, None::<u8>));
            assert(c =~= ca + cb + seq![op_byte(op)]);
            assert(code.subrange(ip as int, (ip + ca.len()) as int) =~= ca) by {
                assert(c.subrange(0, ca.len() as int) =~= ca);
            }
            lemma_expr_runs(*a, code, consts, ip, stack);
            let mid: nat = ip + ca.len();
            match eval(*a, consts) {
                Some(x) => {
                    let s1 = stack.push(x);
                    assert(code.subrange(mid as int, (mid + cb.len()) as int) =~= cb) by {
                        assert(c.subrange(ca.len() as int, (ca.len() + cb.len()) as int) =~= cb);
                    }
                    lemma_expr_runs(*b, code, consts, mid, s1);
                    let at: nat = mid + cb.len();
                    assert(code[at as int] == c[(ca.len() + cb.len()) as int]);
                    match eval(*b, consts) {
                        Some(y) => {
                            let s2 = s1.push(y);
                            assert(s2[s2.len() - 2] == x);
                            assert(s2[s2.len() - 1] == y);
                            if let Some(v) = apply_binary(op, x, y) {
                                assert(s2.take(s2.len() - 2).push(v) =~= stack.push(v));
                            }
                        },
                        None => {},
                    }
                },
                None => {},
            }
        },
    }
}

/// A compiled program is the postfix code of one expression, followed by
/// `OP_RETURN`. Where the expression fits the stack, running it returns with
/// exactly its value on the stack, or stops on a type fault: the stack never
/// underflows and no malformed instruction is met.
pub proof fn lemma_compiled_program_evaluates(src: Seq<u8>) -> (e: Expr)
    requires
        compile_spec(src).ok,
    ensures
        compile_spec(src).code == postfix(e).push((OpCode::OP_RETURN, None::<u8>)),
        expr_wf(e, compile_spec(src).consts.len()),
        depth(e) <= STACK_MAX ==> match eval(e, compile_spec(src).consts) {
            Some(v) => interpretation_of(src) == Some(
                Outcome::Returned(seq![v], encode(postfix(e)).len() + 1),
            ),
            None => interpretation_of(src) is Some && interpretation_of(src)->Some_0 is Failed
                && is_type_fault(interpretation_of(src)->Some_0->Failed_0),
        },
{
    let st0 = Compilation {
        ok: true,
        pos: 0,
        code: Seq::empty(),
        lines: Seq::empty(),
        consts: Seq::empty(),
        last_line: 0,
    };
    let e = lemma_parse_tree(src, st0, Precedence::PREC_ASSIGNMENT);
    let c = compile_spec(src);
    assert(c.code =~= postfix(e).push((OpCode::OP_RETURN, None::<u8>)));
    if depth(e) <= STACK_MAX {
        let code = encode(c.code);
        lemma_encode_push(postfix(e), (OpCode::OP_RETURN, None::<u8>));
        let pe = encode(postfix(e));
        assert(code.subrange(0, pe.len() as int) =~= pe);
        lemma_expr_runs(e, code, c.consts, 0, Seq::empty());
        assert(code[pe.len() as int] == op_byte(OpCode::OP_RETURN));
        if let Some(v) = eval(e, c.consts) {
            assert(Seq::<ValueView>::empty().push(v) =~= seq![v]);
        }
    }
    e
}

/// The binary32 operation of an arithmetic opcode.
pub open spec fn f32_apply(op: OpCode, x: u32, y: u32) -> u32 {
    match op {
        OpCode::OP_ADD => f32_sum(x, y),
        OpCode::OP_SUBTRACT => f32_difference(x, y),
        OpCode::OP_MULTIPLY => f32_product(x, y),
        _ => f32_quotient(x, y),
    }
}

/// The value of the number literal that is the `i`-th token.
pub open spec fn number_value(src: Seq<u8>, i: nat) -> u32 {
    literal_value(src, nth_lexeme(src, i)->Some_0)->Some_0->Number_0
}

/// `a op1 b op2 c` over number literals evaluates with binary32 arithmetic,
/// grouped as precedence and left associativity say: `(a op1 b) op2 c` where
/// `op2` binds no more tightly than `op1`, else `a op1 (b op2 c)`. The run
/// returns with that value alone on the stack.
#[verifier::rlimit(60)]
#[verifier::spinoff_prover]
pub proof fn lemma_three_operands_evaluate(src: Seq<u8>)
    requires
        number_at(src, 0),
        is_arith_operator(kind_at(src, 1)),
        number_at(src, 2),
        is_arith_operator(kind_at(src, 3)),
        number_at(src, 4),
        kind_at(src, 5) == TokenType::TOKEN_EOF,
    ensures
        ({
            let op1 = arith_op(kind_at(src, 1));
            let op2 = arith_op(kind_at(src, 3));
            let (x, y, z) = (number_value(src, 0), number_value(src, 2), number_value(src, 4));
            let v = if level(rule_of(kind_at(src, 3)).precedence) <= level(
                rule_of(kind_at(src, 1)).precedence,
            ) {
                f32_apply(op2, f32_apply(op1, x, y), z)
            } else {
                f32_apply(op1, x, f32_apply(op2, y, z))
            };
            &&& interpretation_of(src) is Some
            &&& interpretation_of(src)->Some_0 is Returned
            &&& interpretation_of(src)->Some_0->Returned_0 == seq![ValueView::Number(v)]
        }),
{
    lemma_three_operands(src);
    let c = compile_spec(src);
    let op1 = arith_op(kind_at(src, 1));
    let op2 = arith_op(kind_at(src, 3));
    assert(binary_ops(kind_at(src, 1)) == seq![(op1, None::<u8>)]);
    assert(binary_ops(kind_at(src, 3)) == seq![(op2, None::<u8>)]);
    let k0 = Expr::Constant(0);
    let k1 = Expr::Constant(1);
    let k2 = Expr::Constant(2);
    assert(postfix(k0) == seq![(OpCode::OP_CONSTANT, Some(0u8))]);
    assert(postfix(k1) == seq![(OpCode::OP_CONSTANT, Some(1u8))]);
    assert(postfix(k2) == seq![(OpCode::OP_CONSTANT, Some(2u8))]);
    assert(expr_wf(k0, 3) && expr_wf(k1, 3) && expr_wf(k2, 3));
    assert(depth(k0) == 1 && depth(k1) == 1 && depth(k2) == 1);
    let (x, y, z) = (number_value(src, 0), number_value(src, 2), number_value(src, 4));
    assert(eval(k0, c.consts) == Some(ValueView::Number(x)));
    assert(eval(k1, c.consts) == Some(ValueView::Number(y)));
    assert(eval(k2, c.consts) == Some(ValueView::Number(z)));
    let e = if level(rule_of(kind_at(src, 3)).precedence) <= level(
        rule_of(kind_at(src, 1)).precedence,
    ) {
        let inner = Expr::Binary(op1, Box::new(k0), Box::new(k1));
        assert(postfix(inner) =~= (postfix(k0) + postfix(k1)).push((op1, None::<u8>)));
        assert(expr_wf(inner, 3));
        assert(depth(inner) == 2);
        assert(eval(inner, c.consts) == Some(ValueView::Number(f32_apply(op1, x, y))));
        Expr::Binary(op2, Box::new(inner), Box::new(k2))
    } else {
        let inner = Expr::Binary(op2, Box::new(k1), Box::new(k2));
        assert(postfix(inner) =~= (postfix(k1) + postfix(k2)).push((op2, None::<u8>)));
        assert(expr_wf(inner, 3));
        assert(depth(inner) == 2);
        assert(eval(inner, c.consts) == Some(ValueView::Number(f32_apply(op2, y, z))));
        Expr::Binary(op1, Box::new(k0), Box::new(inner))
    };
    assert(expr_wf(e, 3));
    assert(depth(e) <= 3);
    assert(c.code =~= postfix(e).push((OpCode::OP_RETURN, None::<u8>)));
    let code = encode(c.code);
    lemma_encode_push(postfix(e), (OpCode::OP_RETURN, None::<u8>));
    let pe = encode(postfix(e));
    assert(code.subrange(0, pe.len() as int) =~= pe);
    lemma_expr_runs(e, code, c.consts, 0, Seq::empty());
    assert(code[pe.len() as int] == op_byte(OpCode::OP_RETURN));
    let v = eval(e, c.consts)->Some_0;
    assert(Seq::<ValueView>::empty().push(v) =~= seq![v]);
}

/// `a + b + c` over string literals concatenates left to right: the run
/// returns with the text of `a`, then `b`, then `c`, alone on the stack.
#[verifier::rlimit(60)]
#[verifier::spinoff_prover]
pub proof fn lemma_strings_concatenate_in_order(src: Seq<u8>)
    requires
        kind_at(src, 0) == TokenType::TOKEN_STRING,
        kind_at(src, 1) == TokenType::TOKEN_PLUS,
        kind_at(src, 2) == TokenType::TOKEN_STRING,
        kind_at(src, 3) == TokenType::TOKEN_PLUS,
        kind_at(src, 4) == TokenType::TOKEN_STRING,
        kind_at(src, 5) == TokenType::TOKEN_EOF,
    ensures
        ({
            let t0 = literal_constant(src, 0)->Str_0;
            let t1 = literal_constant(src, 2)->Str_0;
            let t2 = literal_constant(src, 4)->Str_0;
            &&& interpretation_of(src) is Some
            &&& interpretation_of(src)->Some_0 is Returned
            &&& interpretation_of(src)->Some_0->Returned_0 == seq![ValueView::Str(t0 + t1 + t2)]
        }),
{
    assert(constant_at(src, 0) && constant_at(src, 2) && constant_at(src, 4));
    lemma_three_operands(src);
    let c = compile_spec(src);
    let add = OpCode::OP_ADD;
    assert(binary_ops(kind_at(src, 1)) == seq![(add, None::<u8>)]);
    let k0 = Expr::Constant(0);
    let k1 = Expr::Constant(1);
    let k2 = Expr::Constant(2);
    assert(postfix(k0) == seq![(OpCode::OP_CONSTANT, Some(0u8))]);
    assert(postfix(k1) == seq![(OpCode::OP_CONSTANT, Some(1u8))]);
    assert(postfix(k2) == seq![(OpCode::OP_CONSTANT, Some(2u8))]);
    assert(expr_wf(k0, 3) && expr_wf(k1, 3) && expr_wf(k2, 3));
    assert(depth(k0) == 1 && depth(k1) == 1 && depth(k2) == 1);
    let t0 = literal_constant(src, 0)->Str_0;
    let t1 = literal_constant(src, 2)->Str_0;
    let t2 = literal_constant(src, 4)->Str_0;
    assert(eval(k0, c.consts) == Some(ValueView::Str(t0)));
    assert(eval(k1, c.consts) == Some(ValueView::Str(t1)));
    assert(eval(k2, c.consts) == Some(ValueView::Str(t2)));
    let inner = Expr::Binary(add, Box::new(k0), Box::new(k1));
    assert(postfix(inner) =~= (postfix(k0) + postfix(k1)).push((add, None::<u8>)));
    assert(expr_wf(inner, 3));
    assert(depth(inner) == 2);
    assert(eval(inner, c.consts) == Some(ValueView::Str(t0 + t1)));
    let e = Expr::Binary(add, Box::new(inner), Box::new(k2));
    assert(expr_wf(e, 3));
    assert(depth(e) <= 3);
    assert(c.code =~= postfix(e).push((OpCode::OP_RETURN, None::<u8>)));
    let code = encode(c.code);
    lemma_encode_push(postfix(e), (OpCode::OP_RETURN, None::<u8>));
    let pe = encode(postfix(e));
    assert(code.subrange(0, pe.len() as int) =~= pe);
    lemma_expr_runs(e, code, c.consts, 0, Seq::empty());
    assert(code[pe.len() as int] == op_byte(OpCode::OP_RETURN));
    let v = eval(e, c.consts)->Some_0;
    assert(Seq::<ValueView>::empty().push(v) =~= seq![v]);
}

/// String equality compares texts: `a == b` over two string literals, each its
/// own constant, is true exactly when their texts are equal.
#[verifier::rlimit(60)]
#[verifier::spinoff_prover]
pub proof fn lemma_string_equality_compares_text(src: Seq<u8>)
    requires
        kind_at(src, 0) == TokenType::TOKEN_STRING,
        kind_at(src, 1) == TokenType::TOKEN_EQUAL_EQUAL,
        kind_at(src, 2) == TokenType::TOKEN_STRING,
        kind_at(src, 3) == TokenType::TOKEN_EOF,
    ensures
        ({
            let t0 = literal_constant(src, 0)->Str_0;
            let t1 = literal_constant(src, 2)->Str_0;
            &&& interpretation_of(src) is Some
            &&& interpretation_of(src)->Some_0 is Returned
            &&& interpretation_of(src)->Some_0->Returned_0 == seq![ValueView::Bool(t0 == t1)]
        }),
{
    assert(constant_at(src, 0) && constant_at(src, 2));
    lemma_two_operands(src);
    let c = compile_spec(src);
    let eq = OpCode::OP_EQUAL;
    assert(binary_ops(kind_at(src, 1)) == seq![(eq, None::<u8>)]);
    let k0 = Expr::Constant(0);
    let k1 = Expr::Constant(1);
    assert(postfix(k0) == seq![(OpCode::OP_CONSTANT, Some(0u8))]);
    assert(postfix(k1) == seq![(OpCode::OP_CONSTANT, Some(1u8))]);
    assert(expr_wf(k0, 2) && expr_wf(k1, 2));
    assert(depth(k0) == 1 && depth(k1) == 1);
    let t0 = literal_constant(src, 0)->Str_0;
    let t1 = literal_constant(src, 2)->Str_0;
    assert(eval(k0, c.consts) == Some(ValueView::Str(t0)));
    assert(eval(k1, c.consts) == Some(ValueView::Str(t1)));
    let e = Expr::Binary(eq, Box::new(k0), Box::new(k1));
    assert(postfix(e) =~= (postfix(k0) + postfix(k1)).push((eq, None::<u8>)));
    assert(expr_wf(e, 2));
    assert(depth(e) == 2);
    assert(eval(e, c.consts) == Some(ValueView::Bool(t0 == t1)));
    assert(c.code =~= postfix(e).push((OpCode::OP_RETURN, None::<u8>)));
    let code = encode(c.code);
    lemma_encode_push(postfix(e), (OpCode::OP_RETURN, None::<u8>));
    let pe = encode(postfix(e));
    assert(code.subrange(0, pe.len() as int) =~= pe);
    lemma_expr_runs(e, code, c.consts, 0, Seq::empty());
    assert(code[pe.len() as int] == op_byte(OpCode::OP_RETURN));
    let v = eval(e, c.consts)->Some_0;
    assert(Seq::<ValueView>::empty().push(v) =~= seq![v]);
}

/// A virtual machine running one chunk on a bounded stack.
pub struct VM {
    pub chunk: Chunk,
    pub ip: usize,
    pub stack: Vec<Value>,
    pub fault: Option<RuntimeFault>,
}

/// Everything one call of the interpreter produced: the chunk it compiled,
/// the compile errors, the runtime fault if any, the final stack, and the
/// outcome.
pub struct Interpretation {
    pub chunk: Chunk,
    pub diagnostics: Vec<Diagnostic>,
    pub fault: Option<RuntimeFault>,
    pub stack: Vec<Value>,
    pub result: Result<(), InterpretError>,
}

/// Whether `result`, `fault` and `stack` are what `outcome` says for a run
/// over `chunk`.
pub open spec fn ends_as(
    outcome: Outcome,
    chunk: Chunk,
    result: Result<(), InterpretError>,
    fault: Option<RuntimeFault>,
    stack: Seq<Value>,
) -> bool {
    match outcome {
        Outcome::Returned(s, _) => {
            &&& result == Ok::<(), InterpretError>(())
            &&& fault is None
            &&& stack.map_values(|v: Value| v@) == s
        },
        Outcome::Failed(kind, at) => {
            &&& result == Err::<(), InterpretError>(InterpretError::RUNTIME_ERROR)
            &&& fault == Some(RuntimeFault { kind, line: fault_line(chunk.lines@, at) })
        },
    }
}

impl VM {
    pub open spec fn stack_view(&self) -> Seq<ValueView> {
        self.stack@.map_values(|v: Value| v@)
    }

    pub fn new(chunk: Chunk) -> (r: VM)
        ensures
            r.chunk == chunk,
            r.ip == 0,
            r.stack@ == Seq::<Value>::empty(),
            r.fault is None,
    {
        VM { chunk, ip: 0, stack: Vec::new(), fault: None }
    }

    /// Compiles `source` and, where that succeeds, runs it: a compile error
    /// comes before any execution; otherwise the run's outcome is returned.
    pub fn interpret(source: Vec<u8>) -> (r: Result<(), InterpretError>)
        requires
            source.len() < usize::MAX,
        ensures
            r == result_of(interpretation_of(source@)),
    {
        let report = Self::run_source(source);
        report.result
    }

    /// Compiles `source` and, where that succeeds, runs the chunk on an empty
    /// stack, keeping everything the call produced.
    pub fn run_source(source: Vec<u8>) -> (r: Interpretation)
        requires
            source.len() < usize::MAX,
        ensures
            r.result == result_of(interpretation_of(source@)),
            r.diagnostics.len() > 0 <==> !compile_spec(source@).ok,
            r.diagnostics.len() > 0 ==> r.fault is None && r.stack@.len() == 0,
            compile_spec(source@).ok ==> {
                &&& r.chunk.code@ == encode(compile_spec(source@).code)
                &&& r.chunk.lines@ == encode_lines(
                    compile_spec(source@).code,
                    compile_spec(source@).lines,
                )
                &&& constants_view(r.chunk) == compile_spec(source@).consts
                &&& decode(r.chunk.code@) == Some(compile_spec(source@).code)
                &&& ends_as(
                    interpretation_of(source@)->Some_0,
                    r.chunk,
                    r.result,
                    r.fault,
                    r.stack@,
                )
            },
    {
        let mut compiler = Compiler::new();
        let ok = compiler.compile(source);
        if !ok {
            return Interpretation {
                chunk: compiler.chunk,
                diagnostics: compiler.diagnostics,
                fault: None,
                stack: Vec::new(),
                result: Err(InterpretError::COMPILE_ERROR),
            };
        }
        proof {
            assert(constants_view(compiler.chunk) == compiler.consts_view());
        }
        let mut vm = VM::new(compiler.chunk);
        proof {
            assert(vm.stack_view() =~= Seq::<ValueView>::empty());
        }
        let result = vm.run();
        Interpretation {
            chunk: vm.chunk,
            diagnostics: compiler.diagnostics,
            fault: vm.fault,
            stack: vm.stack,
            result,
        }
    }

    /// Records a fault raised by the instruction at `at` and stops.
    fn runtime_error(&mut self, kind: FaultKind, at: usize) -> (r: Result<(), InterpretError>)
        requires
            old(self).chunk.wf(),
        ensures
            r == Err::<(), InterpretError>(InterpretError::RUNTIME_ERROR),
            final(self).fault == Some(RuntimeFault { kind, line: fault_line(old(self).chunk.lines@, at as nat) }),
            final(self).chunk == old(self).chunk,
            final(self).stack == old(self).stack,
            final(self).ip == old(self).ip,
    {
        let n = self.chunk.lines.len();
        let line = if at < n {
            self.chunk.lines[at]
        } else if n > 0 {
            self.chunk.lines[n - 1]
        } else {
            0
        };
        self.fault = Some(RuntimeFault { kind, line });
        Err(InterpretError::RUNTIME_ERROR)
    }

    fn push(&mut self, value: Value)
        requires
            old(self).stack.len() < STACK_MAX,
        ensures
            final(self).stack@ == old(self).stack@.push(value),
            final(self).stack_view() == old(self).stack_view().push(value@),
            final(self).chunk == old(self).chunk,
            final(self).ip == old(self).ip,
            final(self).fault == old(self).fault,
    {
        self.stack.push(value);
        proof {
            assert(self.stack_view() =~= old(self).stack_view().push(value@));
        }
    }

    fn pop(&mut self) -> (r: Value)
        requires
            old(self).stack.len() > 0,
        ensures
            r == old(self).stack@.last(),
            final(self).stack@ == old(self).stack@.drop_last(),
            final(self).stack_view() == old(self).stack_view().drop_last(),
            final(self).chunk == old(self).chunk,
            final(self).ip == old(self).ip,
            final(self).fault == old(self).fault,
    {
        let r = self.stack.pop();
        proof {
            assert(self.stack_view() =~= old(self).stack_view().drop_last());
        }
        match r {
            Some(v) => v,
            None => Value::VAL_NIL,
        }
    }

    /// Replaces the top `n` values by `value`.
    fn replace_top(&mut self, n: usize, value: Value)
        requires
            1 <= n <= 2,
            old(self).stack.len() >= n,
            old(self).stack.len() <= STACK_MAX,
        ensures
            final(self).stack_view() == old(self).stack_view().take(old(self).stack.len() - n).push(value@),
            final(self).stack.len() <= STACK_MAX,
            final(self).chunk == old(self).chunk,
            final(self).ip == old(self).ip,
            final(self).fault == old(self).fault,
    {
        let _ = self.pop();
        if n == 2 {
            let _ = self.pop();
        }
        self.push(value);
        proof {
            let s = old(self).stack_view();
            if n == 2 {
                assert(s.drop_last().drop_last() =~= s.take(s.len() - 2));
            } else {
                assert(s.drop_last() =~= s.take(s.len() - 1));
            }
        }
    }

    /// Applies `op` to the top two values, replacing them by the result; a
    /// non-number operand is a fault.
    fn binary_op(&mut self, op: BinaryOp, fault: FaultKind, at: usize) -> (r: Result<(), InterpretError>)
        requires
            old(self).chunk.wf(),
            old(self).stack.len() >= 2,
            old(self).stack.len() <= STACK_MAX,
        ensures
            final(self).chunk == old(self).chunk,
            final(self).ip == old(self).ip,
            final(self).stack.len() <= STACK_MAX,
            ({
                let s = old(self).stack_view();
                let n = s.len();
                match binary_result(op, s[n - 2], s[n - 1]) {
                    Some(v) => r is Ok && final(self).fault == old(self).fault
                        && final(self).stack_view() == s.take(n - 2).push(v),
                    None => r == Err::<(), InterpretError>(InterpretError::RUNTIME_ERROR)
                        && final(self).fault == Some(RuntimeFault { kind: fault, line: fault_line(old(self).chunk.lines@, at as nat) }),
                }
            }),
    {
        let n = self.stack.len();
        let result = Value::binary(op, &self.stack[n - 2], &self.stack[n - 1]);
        proof {
            assert(self.stack_view()[n - 2] == self.stack@[n - 2]@);
            assert(self.stack_view()[n - 1] == self.stack@[n - 1]@);
        }
        match result {
            Some(v) => {
                self.replace_top(2, v);
                Ok(())
            },
            None => self.runtime_error(fault, at),
        }
    }

    /// Runs from `ip` until `OP_RETURN` or a fault.
    pub fn run(&mut self) -> (r: Result<(), InterpretError>)
        requires
            old(self).chunk.wf(),
            old(self).stack.len() <= STACK_MAX,
            old(self).fault is None,
        ensures
            final(self).chunk == old(self).chunk,
            ends_as(
                run_from(old(self).chunk.code@, constants_view(old(self).chunk), old(self).ip as nat, old(self).stack_view()),
                old(self).chunk,
                r,
                final(self).fault,
                final(self).stack@,
            ),
            run_from(old(self).chunk.code@, constants_view(old(self).chunk), old(self).ip as nat, old(self).stack_view()) is Returned
                ==> final(self).ip == run_from(old(self).chunk.code@, constants_view(old(self).chunk), old(self).ip as nat, old(self).stack_view())->Returned_1,
    {
        let ghost code = self.chunk.code@;
        let ghost consts = constants_view(self.chunk);
        let ghost goal = run_from(code, consts, self.ip as nat, self.stack_view());
        loop
            invariant
                self.chunk == old(self).chunk,
                self.chunk.wf(),
                code == self.chunk.code@,
                consts == constants_view(self.chunk),
                self.stack.len() <= STACK_MAX,
                self.fault is None,
                run_from(code, consts, self.ip as nat, self.stack_view()) == goal,
                goal == run_from(
                    old(self).chunk.code@,
                    constants_view(old(self).chunk),
                    old(self).ip as nat,
                    old(self).stack_view(),
                ),
            decreases self.chunk.code.len() - self.ip,
        {
            let at = self.ip;
            let len = self.chunk.code.len();
            let n = self.stack.len();
            if at >= len {
                return self.runtime_error(FaultKind::BadInstruction, at);
            }
            let op = OpCode::from_byte(self.chunk.code[at]);
            self.ip = at + 1;
            let ghost s = self.stack_view();
            proof {
                if n >= 1 {
                    assert(s[n - 1] == self.stack@[n - 1]@);
                }
                if n >= 2 {
                    assert(s[n - 2] == self.stack@[n - 2]@);
                }
            }
            match op {
                None => {
                    return self.runtime_error(FaultKind::BadInstruction, at);
                },
                Some(OpCode::OP_RETURN) => {
                    return Ok(());
                },
                Some(OpCode::OP_CONSTANT) => {
                    if at + 1 >= len {
                        return self.runtime_error(FaultKind::BadInstruction, at);
                    }
                    let index = self.chunk.code[at + 1] as usize;
                    if index >= self.chunk.constants.values.len() {
                        return self.runtime_error(FaultKind::BadInstruction, at);
                    }
                    if n >= STACK_MAX {
                        return self.runtime_error(FaultKind::StackOverflow, at);
                    }
                    self.ip = at + 2;
                    let v = self.chunk.constants.values[index].duplicate();
                    self.push(v);
                },
                Some(OpCode::OP_TRUE) => {
                    if n >= STACK_MAX {
                        return self.runtime_error(FaultKind::StackOverflow, at);
                    }
                    self.push(Value::VAL_BOOL(true));
                },
                Some(OpCode::OP_FALSE) => {
                    if n >= STACK_MAX {
                        return self.runtime_error(FaultKind::StackOverflow, at);
                    }
                    self.push(Value::VAL_BOOL(false));
                },
                Some(OpCode::OP_NIL) => {
                    if n >= STACK_MAX {
                        return self.runtime_error(FaultKind::StackOverflow, at);
                    }
                    self.push(Value::VAL_NIL);
                },
                Some(OpCode::OP_NEGATE) => {
                    if n < 1 {
                        return self.runtime_error(FaultKind::StackUnderflow, at);
                    }
                    match self.stack[n - 1].negate() {
                        Some(v) => self.replace_top(1, v),
                        None => {
                            return self.runtime_error(FaultKind::OperandMustBeNumber, at);
                        },
                    }
                },
                Some(OpCode::OP_NOT) => {
                    if n < 1 {
                        return self.runtime_error(FaultKind::StackUnderflow, at);
                    }
                    let falsey = self.stack[n - 1].is_falsey();
                    self.replace_top(1, Value::VAL_BOOL(falsey));
                },
                Some(OpCode::OP_EQUAL) => {
                    if n < 2 {
                        return self.runtime_error(FaultKind::StackUnderflow, at);
                    }
                    let equal = self.stack[n - 2].equals(&self.stack[n - 1]);
                    self.replace_top(2, Value::VAL_BOOL(equal));
                },
                Some(OpCode::OP_ADD) => {
                    if n < 2 {
                        return self.runtime_error(FaultKind::StackUnderflow, at);
                    }
                    match Value::concatenate(&self.stack[n - 2], &self.stack[n - 1]) {
                        Some(v) => self.replace_top(2, v),
                        None => {
                            let r = self.binary_op(
                                BinaryOp::Add,
                                FaultKind::OperandsMustBeNumbersOrStrings,
                                at,
                            );
                            if r.is_err() {
                                return r;
                            }
                        },
                    }
                },
                Some(op) => {
                    if n < 2 {
                        return self.runtime_error(FaultKind::StackUnderflow, at);
                    }
                    let bop = match op {
                        OpCode::OP_SUBTRACT => BinaryOp::Sub,
                        OpCode::OP_MULTIPLY => BinaryOp::Mul,
                        OpCode::OP_DIVIDE => BinaryOp::Div,
                        OpCode::OP_GREATER => BinaryOp::Greater,
                        OpCode::OP_LESS => BinaryOp::Less,
                        _ => BinaryOp::Add,
                    };
                    let r = self.binary_op(bop, FaultKind::OperandsMustBeNumbers, at);
                    if r.is_err() {
                        return r;
                    }
                },
            }
        }
    }
}

} // verus!
