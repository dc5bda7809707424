use vstd::prelude::*;

use crate::chunk::{encode, lemma_encode_len};
use crate::compiler::MAX_CONSTANTS;
use crate::compiler::parse_rule::{rule_of, ParseFn};
use crate::compiler::precedence::{level, next_prec, Precedence};
use crate::compiler::scanner::{lemma_stream_ends_bound, lexeme_text, nth_lexeme, Lexeme};
use crate::expr::{expr_wf, lemma_expr_wf_grows, postfix, Expr};
use crate::op_code::OpCode;
use crate::text::utf8_lossy;
use crate::token::TokenType;
use crate::value::{f32_from_decimal, ValueView};

verus! {

/// The state of a compile: whether it still succeeds, the index of the token
/// ahead in the token stream, the instructions written, the source line of
/// each, the constants, and the line of the token just consumed.
pub struct Compilation {
    pub ok: bool,
    pub pos: nat,
    pub code: Seq<(OpCode, Option<u8>)>,
    pub lines: Seq<usize>,
    pub consts: Seq<ValueView>,
    pub last_line: usize,
}

/// The line of the `n`-th token; 0 past end of input.
pub open spec fn line_at(src: Seq<u8>, n: nat) -> usize {
    match nth_lexeme(src, n) {
        Some(lx) => lx.line as usize,
        None => 0,
    }
}

/// The kind of the `n`-th token; past end of input, an error.
pub open spec fn kind_at(src: Seq<u8>, n: nat) -> TokenType {
    match nth_lexeme(src, n) {
        Some(lx) => lx.kind,
        None => TokenType::TOKEN_ERROR,
    }
}

/// Whether the `n`-th token is a lexical error.
pub open spec fn lexical_error_at(src: Seq<u8>, n: nat) -> bool {
    match nth_lexeme(src, n) {
        Some(lx) => lx.kind == TokenType::TOKEN_ERROR,
        None => false,
    }
}

pub open spec fn failed(st: Compilation) -> Compilation {
    Compilation { ok: false, ..st }
}

/// Moves past the token ahead, whose line becomes the line of what is
/// written next; a lexical error in the next token fails.
pub open spec fn step_over(src: Seq<u8>, st: Compilation) -> Compilation {
    let moved = Compilation { pos: st.pos + 1, last_line: line_at(src, st.pos), ..st };
    if lexical_error_at(src, st.pos + 1) {
        failed(moved)
    } else {
        moved
    }
}

/// Whether the code written so far leaves room for one more instruction.
pub open spec fn code_has_room(st: Compilation) -> bool {
    encode(st.code).len() < usize::MAX - 2
}

pub open spec fn emit(st: Compilation, op: OpCode) -> Compilation {
    if !code_has_room(st) {
        failed(st)
    } else {
        Compilation {
            code: st.code.push((op, None::<u8>)),
            lines: st.lines.push(st.last_line),
            ..st
        }
    }
}

/// Adds `v` to the pool and writes `OP_CONSTANT` with its index.
pub open spec fn emit_constant(st: Compilation, v: ValueView) -> Compilation {
    if st.consts.len() >= MAX_CONSTANTS || !code_has_room(st) {
        failed(st)
    } else {
        Compilation {
            code: st.code.push((OpCode::OP_CONSTANT, Some(st.consts.len() as u8))),
            lines: st.lines.push(st.last_line),
            consts: st.consts.push(v),
            ..st
        }
    }
}

/// The value of a number or string literal: a number is the nearest binary32
/// value; a string is the text between its quotes.
pub open spec fn literal_value(src: Seq<u8>, lx: Lexeme) -> Option<ValueView> {
    if lx.kind == TokenType::TOKEN_NUMBER {
        match f32_from_decimal(lexeme_text(src, lx)) {
            Some(bits) => Some(ValueView::Number(bits)),
            None => None,
        }
    } else {
        Some(ValueView::Str(utf8_lossy(src.subrange(lx.start + 1int, lx.end - 1int))))
    }
}

/// The instructions an infix operator writes after its operands.
pub open spec fn emit_binary(st: Compilation, k: TokenType) -> Compilation {
    match k {
        TokenType::TOKEN_PLUS => emit(st, OpCode::OP_ADD),
        TokenType::TOKEN_MINUS => emit(st, OpCode::OP_SUBTRACT),
        TokenType::TOKEN_STAR => emit(st, OpCode::OP_MULTIPLY),
        TokenType::TOKEN_SLASH => emit(st, OpCode::OP_DIVIDE),
        TokenType::TOKEN_BANG_EQUAL => emit(emit(st, OpCode::OP_EQUAL), OpCode::OP_NOT),
        TokenType::TOKEN_EQUAL_EQUAL => emit(st, OpCode::OP_EQUAL),
        TokenType::TOKEN_GREATER => emit(st, OpCode::OP_GREATER),
        TokenType::TOKEN_GREATER_EQUAL => emit(emit(st, OpCode::OP_LESS), OpCode::OP_NOT),
        TokenType::TOKEN_LESS => emit(st, OpCode::OP_LESS),
        TokenType::TOKEN_LESS_EQUAL => emit(emit(st, OpCode::OP_GREATER), OpCode::OP_NOT),
        _ => st,
    }
}

/// An upper bound on token indices worth parsing: every token but the last
/// covers at least one byte.
pub open spec fn bound(src: Seq<u8>) -> nat {
    src.len() + 2
}

/// Parses an expression whose operators bind at least as tightly as `prec`,
/// starting at the token ahead.
pub open spec fn parse_prec(src: Seq<u8>, st: Compilation, prec: Precedence) -> Compilation
    decreases bound(src) - st.pos, 1nat,
{
    if st.pos >= bound(src) {
        failed(st)
    } else {
        let n = st.pos;
        let s0 = step_over(src, st);
        if !s0.ok {
            s0
        } else {
            let s1 = prefix(src, n, s0);
            if !s1.ok {
                s1
            } else if s1.pos <= n || s1.pos > bound(src) {
                failed(s1)
            } else {
                infix(src, s1, prec)
            }
        }
    }
}

/// The prefix handler for the `n`-th token, just moved past.
pub open spec fn prefix(src: Seq<u8>, n: nat, st: Compilation) -> Compilation
    decreases bound(src) - n, 0nat,
{
    let k = kind_at(src, n);
    if n >= bound(src) || st.pos != n + 1 {
        failed(st)
    } else {
        match rule_of(k).prefix {
            ParseFn::Grouping => {
                let s1 = parse_prec(src, st, Precedence::PREC_ASSIGNMENT);
                if !s1.ok {
                    s1
                } else {
                    expect(src, s1, TokenType::TOKEN_RIGHT_PAREN)
                }
            },
            ParseFn::Unary => {
                let s1 = parse_prec(src, st, Precedence::PREC_UNARY);
                if !s1.ok {
                    s1
                } else if k == TokenType::TOKEN_MINUS {
                    emit(s1, OpCode::OP_NEGATE)
                } else {
                    emit(s1, OpCode::OP_NOT)
                }
            },
            ParseFn::Number | ParseFn::String => match literal_value(src, nth_lexeme(src, n)->Some_0) {
                Some(v) => emit_constant(st, v),
                None => failed(st),
            },
            ParseFn::Literal => {
                if k == TokenType::TOKEN_FALSE {
                    emit(st, OpCode::OP_FALSE)
                } else if k == TokenType::TOKEN_TRUE {
                    emit(st, OpCode::OP_TRUE)
                } else {
                    emit(st, OpCode::OP_NIL)
                }
            },
            _ => failed(st),
        }
    }
}

/// Moves past the token ahead if it is of kind `k`, else fails.
pub open spec fn expect(src: Seq<u8>, st: Compilation, k: TokenType) -> Compilation {
    if kind_at(src, st.pos) == k {
        step_over(src, st)
    } else {
        failed(st)
    }
}

/// Applies infix operators that bind at least as tightly as `prec`, left to
/// right.
pub open spec fn infix(src: Seq<u8>, st: Compilation, prec: Precedence) -> Compilation
    decreases bound(src) - st.pos, 2nat,
{
    let k = kind_at(src, st.pos);
    if level(prec) <= level(rule_of(k).precedence) {
        if st.pos >= bound(src) {
            failed(st)
        } else {
            let n = st.pos;
            let s0 = step_over(src, st);
            if !s0.ok {
                s0
            } else {
                let s1 = parse_prec(src, s0, next_prec(rule_of(k).precedence));
                if !s1.ok {
                    s1
                } else {
                    let s2 = emit_binary(s1, k);
                    if !s2.ok {
                        s2
                    } else if s2.pos <= n || s2.pos > bound(src) {
                        failed(s2)
                    } else {
                        infix(src, s2, prec)
                    }
                }
            }
        }
    } else {
        st
    }
}

/// The infix loop stops only at a token that binds more loosely than `prec`.
proof fn lemma_infix_stops(src: Seq<u8>, st: Compilation, prec: Precedence)
    ensures
        infix(src, st, prec).ok && st.ok ==> level(
            rule_of(kind_at(src, infix(src, st, prec).pos)).precedence,
        ) < level(prec),
    decreases bound(src) - st.pos,
{
    let k = kind_at(src, st.pos);
    if level(prec) <= level(rule_of(k).precedence) && st.pos < bound(src) {
        let n = st.pos;
        let s0 = step_over(src, st);
        if s0.ok {
            let s1 = parse_prec(src, s0, next_prec(rule_of(k).precedence));
            if s1.ok {
                let s2 = emit_binary(s1, k);
                if s2.ok && n < s2.pos <= bound(src) {
                    lemma_infix_stops(src, s2, prec);
                }
            }
        }
    }
}

/// Operators bind in this order, tightest first: the operand of unary `-` and
/// `!`; then `*` and `/`; then `+` and `-`; then `<`, `<=`, `>`, `>=`; then
/// `==` and `!=`. An operand parsed at some precedence ends at the first
/// operator that binds more loosely, which is left to the enclosing
/// expression: so the right operand of a binary operator, parsed one level
/// above it, never takes in an operator of the same or a looser level, and
/// the operand of a unary operator never takes in a binary one.
pub proof fn lemma_binding_order(src: Seq<u8>, st: Compilation, prec: Precedence)
    ensures
        level(Precedence::PREC_UNARY) > level(rule_of(TokenType::TOKEN_STAR).precedence),
        level(rule_of(TokenType::TOKEN_STAR).precedence) == level(
            rule_of(TokenType::TOKEN_SLASH).precedence,
        ),
        level(rule_of(TokenType::TOKEN_SLASH).precedence) > level(
            rule_of(TokenType::TOKEN_PLUS).precedence,
        ),
        level(rule_of(TokenType::TOKEN_PLUS).precedence) == level(
            rule_of(TokenType::TOKEN_MINUS).precedence,
        ),
        level(rule_of(TokenType::TOKEN_MINUS).precedence) > level(
            rule_of(TokenType::TOKEN_LESS).precedence,
        ),
        level(rule_of(TokenType::TOKEN_LESS).precedence) == level(
            rule_of(TokenType::TOKEN_LESS_EQUAL).precedence,
        ),
        level(rule_of(TokenType::TOKEN_LESS).precedence) == level(
            rule_of(TokenType::TOKEN_GREATER).precedence,
        ),
        level(rule_of(TokenType::TOKEN_LESS).precedence) == level(
            rule_of(TokenType::TOKEN_GREATER_EQUAL).precedence,
        ),
        level(rule_of(TokenType::TOKEN_GREATER).precedence) > level(
            rule_of(TokenType::TOKEN_EQUAL_EQUAL).precedence,
        ),
        level(rule_of(TokenType::TOKEN_EQUAL_EQUAL).precedence) == level(
            rule_of(TokenType::TOKEN_BANG_EQUAL).precedence,
        ),
        level(rule_of(TokenType::TOKEN_BANG_EQUAL).precedence) > level(Precedence::PREC_NONE),
        forall|k: TokenType|
            level(rule_of(k).precedence) > 0 ==> level(next_prec(rule_of(k).precedence)) == level(
                rule_of(k).precedence,
            ) + 1,
        parse_prec(src, st, prec).ok ==> level(
            rule_of(kind_at(src, parse_prec(src, st, prec).pos)).precedence,
        ) < level(prec),
{
    if st.pos < bound(src) {
        let n = st.pos;
        let s0 = step_over(src, st);
        if s0.ok {
            let s1 = prefix(src, n, s0);
            if s1.ok && n < s1.pos <= bound(src) {
                lemma_infix_stops(src, s1, prec);
            }
        }
    }
}

/// Whether `a` is a prefix of `b`.
pub open spec fn is_prefix<T>(a: Seq<T>, b: Seq<T>) -> bool {
    a.len() <= b.len() && b.subrange(0, a.len() as int) == a
}

proof fn lemma_is_prefix_trans<T>(a: Seq<T>, b: Seq<T>, c: Seq<T>)
    requires
        is_prefix(a, b),
        is_prefix(b, c),
    ensures
        is_prefix(a, c),
{
    assert(c.subrange(0, a.len() as int) =~= b.subrange(0, a.len() as int));
}

/// Whether going from `st` to `r` wrote exactly the postfix code of `e` after
/// `base`, with `e` naming constants of `r`, which extend those of `st`.
pub open spec fn wrote_tree(
    st: Compilation,
    r: Compilation,
    base: Seq<(OpCode, Option<u8>)>,
    e: Expr,
) -> bool {
    &&& r.code == base + postfix(e)
    &&& expr_wf(e, r.consts.len())
    &&& is_prefix(st.consts, r.consts)
}

/// The expression that an infix operator of kind `k` builds from its operands:
/// `!=`, `>=` and `<=` are the negations of `==`, `<` and `>`.
pub open spec fn binary_tree(k: TokenType, a: Expr, b: Expr) -> Expr {
    match k {
        TokenType::TOKEN_PLUS => Expr::Binary(OpCode::OP_ADD, Box::new(a), Box::new(b)),
        TokenType::TOKEN_MINUS => Expr::Binary(OpCode::OP_SUBTRACT, Box::new(a), Box::new(b)),
        TokenType::TOKEN_STAR => Expr::Binary(OpCode::OP_MULTIPLY, Box::new(a), Box::new(b)),
        TokenType::TOKEN_SLASH => Expr::Binary(OpCode::OP_DIVIDE, Box::new(a), Box::new(b)),
        TokenType::TOKEN_BANG_EQUAL => Expr::Unary(
            OpCode::OP_NOT,
            Box::new(Expr::Binary(OpCode::OP_EQUAL, Box::new(a), Box::new(b))),
        ),
        TokenType::TOKEN_EQUAL_EQUAL => Expr::Binary(OpCode::OP_EQUAL, Box::new(a), Box::new(b)),
        TokenType::TOKEN_GREATER => Expr::Binary(OpCode::OP_GREATER, Box::new(a), Box::new(b)),
        TokenType::TOKEN_GREATER_EQUAL => Expr::Unary(
            OpCode::OP_NOT,
            Box::new(Expr::Binary(OpCode::OP_LESS, Box::new(a), Box::new(b))),
        ),
        TokenType::TOKEN_LESS => Expr::Binary(OpCode::OP_LESS, Box::new(a), Box::new(b)),
        _ => Expr::Unary(
            OpCode::OP_NOT,
            Box::new(Expr::Binary(OpCode::OP_GREATER, Box::new(a), Box::new(b))),
        ),
    }
}

/// What a successful parse writes is the postfix code of one expression.
pub proof fn lemma_parse_tree(src: Seq<u8>, st: Compilation, prec: Precedence) -> (e: Expr)
    requires
        st.ok,
        level(prec) >= 1,
    ensures
        parse_prec(src, st, prec).ok ==> wrote_tree(st, parse_prec(src, st, prec), st.code, e),
    decreases bound(src) - st.pos, 1nat,
{
    let none = Expr::Literal(OpCode::OP_NIL);
    if st.pos >= bound(src) {
        return none;
    }
    let n = st.pos;
    let s0 = step_over(src, st);
    if !s0.ok {
        return none;
    }
    let left = lemma_prefix_tree(src, n, s0);
    let s1 = prefix(src, n, s0);
    if !s1.ok || s1.pos <= n || s1.pos > bound(src) {
        return left;
    }
    assert(is_prefix(st.consts, st.consts)) by {
        assert(st.consts.subrange(0, st.consts.len() as int) =~= st.consts);
    }
    lemma_infix_tree(src, s1, prec, st.code, st.consts, left)
}

/// What a successful prefix handler writes is the postfix code of one
/// expression.
#[verifier::rlimit(40)]
pub proof fn lemma_prefix_tree(src: Seq<u8>, n: nat, st: Compilation) -> (e: Expr)
    requires
        st.ok,
    ensures
        prefix(src, n, st).ok ==> wrote_tree(st, prefix(src, n, st), st.code, e),
    decreases bound(src) - n, 0nat,
{
    let none = Expr::Literal(OpCode::OP_NIL);
    let k = kind_at(src, n);
    if n >= bound(src) || st.pos != n + 1 {
        return none;
    }
    let r = prefix(src, n, st);
    assert(is_prefix(st.consts, st.consts)) by {
        assert(st.consts.subrange(0, st.consts.len() as int) =~= st.consts);
    }
    match rule_of(k).prefix {
        ParseFn::Grouping => {
            let e = lemma_parse_tree(src, st, Precedence::PREC_ASSIGNMENT);
            e
        },
        ParseFn::Unary => {
            let a = lemma_parse_tree(src, st, Precedence::PREC_UNARY);
            let s1 = parse_prec(src, st, Precedence::PREC_UNARY);
            let op = if k == TokenType::TOKEN_MINUS {
                OpCode::OP_NEGATE
            } else {
                OpCode::OP_NOT
            };
            let e = Expr::Unary(op, Box::new(a));
            if r.ok {
                assert(r.code =~= st.code + postfix(e));
            }
            e
        },
        ParseFn::Number | ParseFn::String => {
            let e = Expr::Constant(st.consts.len());
            if r.ok {
                assert(r.code =~= st.code + postfix(e));
                assert(r.consts.subrange(0, st.consts.len() as int) =~= st.consts);
            }
            e
        },
        ParseFn::Literal => {
            let op = if k == TokenType::TOKEN_FALSE {
                OpCode::OP_FALSE
            } else if k == TokenType::TOKEN_TRUE {
                OpCode::OP_TRUE
            } else {
                OpCode::OP_NIL
            };
            let e = Expr::Literal(op);
            if r.ok {
                assert(r.code =~= st.code + postfix(e));
            }
            e
        },
        _ => none,
    }
}

/// The instructions of an infix operator complete the expression it builds.
proof fn lemma_emit_binary_tree(
    s1: Compilation,
    k: TokenType,
    base: Seq<(OpCode, Option<u8>)>,
    left: Expr,
    right: Expr,
)
    requires
        level(rule_of(k).precedence) >= 1,
        s1.code == (base + postfix(left)) + postfix(right),
        expr_wf(left, s1.consts.len()),
        expr_wf(right, s1.consts.len()),
        emit_binary(s1, k).ok,
    ensures
        emit_binary(s1, k).code == base + postfix(binary_tree(k, left, right)),
        emit_binary(s1, k).consts == s1.consts,
        emit_binary(s1, k).pos == s1.pos,
        expr_wf(binary_tree(k, left, right), s1.consts.len()),
{
    let e = binary_tree(k, left, right);
    let both = postfix(left) + postfix(right);
    assert(s1.code =~= base + both);
    match e {
        Expr::Unary(op, inner) => {
            assert(postfix(e) == postfix(*inner).push((op, None::<u8>)));
            assert(postfix(*inner) == both.push((op_of_inner(k), None::<u8>)));
            assert(expr_wf(*inner, s1.consts.len()));
            assert(emit_binary(s1, k).code =~= base + postfix(e));
        },
        _ => {
            assert(emit_binary(s1, k).code =~= base + postfix(e));
        },
    }
}

/// The comparison that a negated operator (`!=`, `>=`, `<=`) negates.
pub open spec fn op_of_inner(k: TokenType) -> OpCode {
    match k {
        TokenType::TOKEN_BANG_EQUAL => OpCode::OP_EQUAL,
        TokenType::TOKEN_GREATER_EQUAL => OpCode::OP_LESS,
        _ => OpCode::OP_GREATER,
    }
}

/// Each infix operator applied wraps the expression so far with its right
/// operand; what the loop writes stays one expression.
pub proof fn lemma_infix_tree(
    src: Seq<u8>,
    st: Compilation,
    prec: Precedence,
    base: Seq<(OpCode, Option<u8>)>,
    base_consts: Seq<ValueView>,
    left: Expr,
) -> (e: Expr)
    requires
        st.ok,
        level(prec) >= 1,
        st.code == base + postfix(left),
        expr_wf(left, st.consts.len()),
        is_prefix(base_consts, st.consts),
    ensures
        infix(src, st, prec).ok ==> {
            let r = infix(src, st, prec);
            &&& r.code == base + postfix(e)
            &&& expr_wf(e, r.consts.len())
            &&& is_prefix(base_consts, r.consts)
        },
    decreases bound(src) - st.pos, 2nat,
{
    let k = kind_at(src, st.pos);
    if !(level(prec) <= level(rule_of(k).precedence)) || st.pos >= bound(src) {
        return left;
    }
    let n = st.pos;
    let s0 = step_over(src, st);
    if !s0.ok {
        return left;
    }
    let right = lemma_parse_tree(src, s0, next_prec(rule_of(k).precedence));
    let s1 = parse_prec(src, s0, next_prec(rule_of(k).precedence));
    if !s1.ok {
        return left;
    }
    let s2 = emit_binary(s1, k);
    if !s2.ok || s2.pos <= n || s2.pos > bound(src) {
        return left;
    }
    let combined = binary_tree(k, left, right);
    lemma_expr_wf_grows(left, st.consts.len(), s1.consts.len());
    assert(s1.code =~= (base + postfix(left)) + postfix(right));
    lemma_emit_binary_tree(s1, k, base, left, right);
    lemma_is_prefix_trans(base_consts, st.consts, s2.consts);
    lemma_infix_tree(src, s2, prec, base, base_consts, combined)
}

/// Whether `k` is one of the infix operators `+ - * /`.
pub open spec fn is_arith_operator(k: TokenType) -> bool {
    k == TokenType::TOKEN_PLUS || k == TokenType::TOKEN_MINUS || k == TokenType::TOKEN_STAR || k
        == TokenType::TOKEN_SLASH
}

/// The opcode that an arithmetic operator token writes.
pub open spec fn arith_op(k: TokenType) -> OpCode {
    match k {
        TokenType::TOKEN_PLUS => OpCode::OP_ADD,
        TokenType::TOKEN_MINUS => OpCode::OP_SUBTRACT,
        TokenType::TOKEN_STAR => OpCode::OP_MULTIPLY,
        _ => OpCode::OP_DIVIDE,
    }
}

/// Whether `k` is an infix operator.
pub open spec fn is_binary_operator(k: TokenType) -> bool {
    level(rule_of(k).precedence) >= 1
}

/// The instructions that an infix operator writes after its operands.
pub open spec fn binary_ops(k: TokenType) -> Seq<(OpCode, Option<u8>)> {
    match k {
        TokenType::TOKEN_PLUS => seq![(OpCode::OP_ADD, None::<u8>)],
        TokenType::TOKEN_MINUS => seq![(OpCode::OP_SUBTRACT, None::<u8>)],
        TokenType::TOKEN_STAR => seq![(OpCode::OP_MULTIPLY, None::<u8>)],
        TokenType::TOKEN_SLASH => seq![(OpCode::OP_DIVIDE, None::<u8>)],
        TokenType::TOKEN_BANG_EQUAL => seq![(OpCode::OP_EQUAL, None::<u8>), (OpCode::OP_NOT, None::<u8>)],
        TokenType::TOKEN_EQUAL_EQUAL => seq![(OpCode::OP_EQUAL, None::<u8>)],
        TokenType::TOKEN_GREATER => seq![(OpCode::OP_GREATER, None::<u8>)],
        TokenType::TOKEN_GREATER_EQUAL => seq![(OpCode::OP_LESS, None::<u8>), (OpCode::OP_NOT, None::<u8>)],
        TokenType::TOKEN_LESS => seq![(OpCode::OP_LESS, None::<u8>)],
        _ => seq![(OpCode::OP_GREATER, None::<u8>), (OpCode::OP_NOT, None::<u8>)],
    }
}

proof fn lemma_emit_binary_ops(st: Compilation, k: TokenType)
    requires
        st.ok,
        st.code.len() <= 64,
        is_binary_operator(k),
    ensures
        emit_binary(st, k).ok,
        emit_binary(st, k).pos == st.pos,
        emit_binary(st, k).consts == st.consts,
        emit_binary(st, k).code == st.code + binary_ops(k),
{
    lemma_encode_len(st.code);
    lemma_encode_len(st.code.push((OpCode::OP_EQUAL, None::<u8>)));
    lemma_encode_len(st.code.push((OpCode::OP_LESS, None::<u8>)));
    lemma_encode_len(st.code.push((OpCode::OP_GREATER, None::<u8>)));
    assert(emit_binary(st, k).code =~= st.code + binary_ops(k));
}

/// Whether the `i`-th token of `src` is a number literal with a value.
pub open spec fn number_at(src: Seq<u8>, i: nat) -> bool {
    &&& kind_at(src, i) == TokenType::TOKEN_NUMBER
    &&& literal_value(src, nth_lexeme(src, i)->Some_0) is Some
}

/// Whether the `i`-th token of `src` is a number literal with a value or a
/// string literal.
pub open spec fn constant_at(src: Seq<u8>, i: nat) -> bool {
    &&& (kind_at(src, i) == TokenType::TOKEN_NUMBER || kind_at(src, i) == TokenType::TOKEN_STRING)
    &&& literal_value(src, nth_lexeme(src, i)->Some_0) is Some
}

/// The constant that the `i`-th token, a literal, adds to the pool.
pub open spec fn literal_constant(src: Seq<u8>, i: nat) -> ValueView {
    literal_value(src, nth_lexeme(src, i)->Some_0)->Some_0
}

/// Two literals joined by an infix operator, `a op b`, compile to the two
/// constants, then the operator's instructions.
#[verifier::rlimit(60)]
#[verifier::spinoff_prover]
pub proof fn lemma_two_operands(src: Seq<u8>)
    requires
        constant_at(src, 0),
        is_binary_operator(kind_at(src, 1)),
        constant_at(src, 2),
        kind_at(src, 3) == TokenType::TOKEN_EOF,
    ensures
        compile_spec(src).ok,
        compile_spec(src).code == seq![
            (OpCode::OP_CONSTANT, Some(0u8)),
            (OpCode::OP_CONSTANT, Some(1u8)),
        ] + binary_ops(kind_at(src, 1)) + seq![(OpCode::OP_RETURN, None::<u8>)],
        compile_spec(src).consts == seq![literal_constant(src, 0), literal_constant(src, 2)],
{
    lemma_stream_ends_bound(src, 3);
    let k1 = kind_at(src, 1);
    let assign = Precedence::PREC_ASSIGNMENT;
    let p1 = next_prec(rule_of(k1).precedence);
    let st0 = Compilation {
        ok: true,
        pos: 0,
        code: Seq::empty(),
        lines: Seq::empty(),
        consts: Seq::empty(),
        last_line: 0,
    };
    let a0 = step_over(src, st0);
    assert(a0.ok && a0.pos == 1);
    let a1 = prefix(src, 0, a0);
    assert(a1 == emit_constant(a0, literal_constant(src, 0)));
    assert(a1.ok && a1.pos == 1);
    let b0 = step_over(src, a1);
    assert(b0.ok && b0.pos == 2);
    let b1 = step_over(src, b0);
    assert(b1.ok && b1.pos == 3);
    lemma_encode_len(b1.code);
    let b2 = prefix(src, 2, b1);
    assert(b2 == emit_constant(b1, literal_constant(src, 2)));
    assert(infix(src, b2, p1) == b2);
    assert(parse_prec(src, b0, p1) == b2);
    lemma_emit_binary_ops(b2, k1);
    let b3 = emit_binary(b2, k1);
    assert(infix(src, a1, assign) == infix(src, b3, assign));
    assert(infix(src, b3, assign) == b3);
    assert(parse_prec(src, st0, assign) == b3);
    lemma_encode_len(b3.code);
    assert(compile_spec(src).code =~= b3.code.push((OpCode::OP_RETURN, None::<u8>)));
    assert(compile_spec(src).consts =~= seq![literal_constant(src, 0), literal_constant(src, 2)]);
}

/// Three literals joined by two infix operators, `a op1 b op2 c`, compile to
/// constants and operators in evaluation order: where `op2` binds no more
/// tightly than `op1`, the left pair is combined first (left associativity);
/// where it binds more tightly, `b op2 c` is combined first. So `*` and `/`
/// bind tighter than `+` and `-`, which bind tighter than the comparisons,
/// which bind tighter than `==` and `!=`.
#[verifier::rlimit(60)]
#[verifier::spinoff_prover]
pub proof fn lemma_three_operands(src: Seq<u8>)
    requires
        constant_at(src, 0),
        is_binary_operator(kind_at(src, 1)),
        constant_at(src, 2),
        is_binary_operator(kind_at(src, 3)),
        constant_at(src, 4),
        kind_at(src, 5) == TokenType::TOKEN_EOF,
    ensures
        compile_spec(src).ok,
        ({
            let ops1 = binary_ops(kind_at(src, 1));
            let ops2 = binary_ops(kind_at(src, 3));
            let c0 = seq![(OpCode::OP_CONSTANT, Some(0u8))];
            let c1 = seq![(OpCode::OP_CONSTANT, Some(1u8))];
            let c2 = seq![(OpCode::OP_CONSTANT, Some(2u8))];
            let ret = seq![(OpCode::OP_RETURN, None::<u8>)];
            if level(rule_of(kind_at(src, 3)).precedence) <= level(
                rule_of(kind_at(src, 1)).precedence,
            ) {
                compile_spec(src).code == c0 + c1 + ops1 + c2 + ops2 + ret
            } else {
                compile_spec(src).code == c0 + c1 + c2 + ops2 + ops1 + ret
            }
        }),
        compile_spec(src).consts == seq![
            literal_constant(src, 0),
            literal_constant(src, 2),
            literal_constant(src, 4),
        ],
{
    lemma_stream_ends_bound(src, 5);
    let k1 = kind_at(src, 1);
    let k3 = kind_at(src, 3);
    let v0 = literal_constant(src, 0);
    let v1 = literal_constant(src, 2);
    let v2 = literal_constant(src, 4);
    let assign = Precedence::PREC_ASSIGNMENT;
    let p1 = next_prec(rule_of(k1).precedence);
    let p3 = next_prec(rule_of(k3).precedence);
    let st0 = Compilation {
        ok: true,
        pos: 0,
        code: Seq::empty(),
        lines: Seq::empty(),
        consts: Seq::empty(),
        last_line: 0,
    };
    // the first operand
    let a0 = step_over(src, st0);
    assert(a0.ok && a0.pos == 1);
    let a1 = prefix(src, 0, a0);
    assert(a1 == emit_constant(a0, v0));
    assert(a1.ok && a1.pos == 1 && a1.code == seq![(OpCode::OP_CONSTANT, Some(0u8))]);
    // `op1` and the operand after it
    let b0 = step_over(src, a1);
    assert(b0.ok && b0.pos == 2);
    let b1 = step_over(src, b0);
    assert(b1.ok && b1.pos == 3);
    lemma_encode_len(b1.code);
    let b2 = prefix(src, 2, b1);
    assert(b2 == emit_constant(b1, v1));
    assert(b2.ok && b2.pos == 3);
    if level(rule_of(k3).precedence) <= level(rule_of(k1).precedence) {
        // `op2` does not bind inside the right operand of `op1`
        assert(infix(src, b2, p1) == b2);
        assert(parse_prec(src, b0, p1) == b2);
        lemma_emit_binary_ops(b2, k1);
        let b3 = emit_binary(b2, k1);
        assert(infix(src, a1, assign) == infix(src, b3, assign));
        let c0 = step_over(src, b3);
        assert(c0.ok && c0.pos == 4);
        let c1 = step_over(src, c0);
        assert(c1.ok && c1.pos == 5);
        lemma_encode_len(c1.code);
        let c2 = prefix(src, 4, c1);
        assert(c2 == emit_constant(c1, v2));
        assert(infix(src, c2, p3) == c2);
        assert(parse_prec(src, c0, p3) == c2);
        lemma_emit_binary_ops(c2, k3);
        let c3 = emit_binary(c2, k3);
        assert(infix(src, b3, assign) == infix(src, c3, assign));
        assert(infix(src, c3, assign) == c3);
        assert(parse_prec(src, st0, assign) == c3);
        lemma_encode_len(c3.code);
        assert(compile_spec(src).code =~= c3.code.push((OpCode::OP_RETURN, None::<u8>)));
        assert(compile_spec(src).consts =~= seq![v0, v1, v2]);
    } else {
        // `op2` binds inside the right operand of `op1`
        let c0 = step_over(src, b2);
        assert(c0.ok && c0.pos == 4);
        let c1 = step_over(src, c0);
        assert(c1.ok && c1.pos == 5);
        lemma_encode_len(c1.code);
        let c2 = prefix(src, 4, c1);
        assert(c2 == emit_constant(c1, v2));
        assert(infix(src, c2, p3) == c2);
        assert(parse_prec(src, c0, p3) == c2);
        lemma_emit_binary_ops(c2, k3);
        let c3 = emit_binary(c2, k3);
        assert(infix(src, b2, p1) == infix(src, c3, p1));
        assert(infix(src, c3, p1) == c3);
        assert(parse_prec(src, b0, p1) == c3);
        lemma_emit_binary_ops(c3, k1);
        let c4 = emit_binary(c3, k1);
        assert(infix(src, a1, assign) == infix(src, c4, assign));
        assert(infix(src, c4, assign) == c4);
        assert(parse_prec(src, st0, assign) == c4);
        lemma_encode_len(c4.code);
        assert(compile_spec(src).code =~= c4.code.push((OpCode::OP_RETURN, None::<u8>)));
        assert(compile_spec(src).consts =~= seq![v0, v1, v2]);
    }
}

/// Unary `-` binds tighter than every infix operator: `-a op b` negates `a`
/// alone, then applies `op`.
#[verifier::rlimit(60)]
#[verifier::spinoff_prover]
pub proof fn lemma_unary_minus_binds_tightest(src: Seq<u8>)
    requires
        kind_at(src, 0) == TokenType::TOKEN_MINUS,
        number_at(src, 1),
        is_binary_operator(kind_at(src, 2)),
        number_at(src, 3),
        kind_at(src, 4) == TokenType::TOKEN_EOF,
    ensures
        compile_spec(src).ok,
        compile_spec(src).code == seq![
            (OpCode::OP_CONSTANT, Some(0u8)),
            (OpCode::OP_NEGATE, None::<u8>),
            (OpCode::OP_CONSTANT, Some(1u8)),
        ] + binary_ops(kind_at(src, 2)) + seq![(OpCode::OP_RETURN, None::<u8>)],
{
    lemma_stream_ends_bound(src, 4);
    let k2 = kind_at(src, 2);
    let assign = Precedence::PREC_ASSIGNMENT;
    let unary = Precedence::PREC_UNARY;
    let p2 = next_prec(rule_of(k2).precedence);
    let st0 = Compilation {
        ok: true,
        pos: 0,
        code: Seq::empty(),
        lines: Seq::empty(),
        consts: Seq::empty(),
        last_line: 0,
    };
    let a0 = step_over(src, st0);
    assert(a0.ok && a0.pos == 1);
    // the operand of `-`
    let b0 = step_over(src, a0);
    assert(b0.ok && b0.pos == 2);
    let b1 = prefix(src, 1, b0);
    assert(b1 == emit_constant(b0, literal_constant(src, 1)));
    assert(b1.ok && b1.pos == 2);
    assert(infix(src, b1, unary) == b1);
    assert(parse_prec(src, a0, unary) == b1);
    lemma_encode_len(b1.code);
    let a1 = prefix(src, 0, a0);
    assert(a1 == emit(b1, OpCode::OP_NEGATE));
    assert(a1.ok && a1.pos == 2);
    // the infix operator and its right operand
    let c0 = step_over(src, a1);
    assert(c0.ok && c0.pos == 3);
    let c1 = step_over(src, c0);
    assert(c1.ok && c1.pos == 4);
    lemma_encode_len(c1.code);
    let c2 = prefix(src, 3, c1);
    assert(c2 == emit_constant(c1, literal_constant(src, 3)));
    assert(infix(src, c2, p2) == c2);
    assert(parse_prec(src, c0, p2) == c2);
    lemma_emit_binary_ops(c2, k2);
    let c3 = emit_binary(c2, k2);
    assert(infix(src, a1, assign) == infix(src, c3, assign));
    assert(infix(src, c3, assign) == c3);
    assert(parse_prec(src, st0, assign) == c3);
    lemma_encode_len(c3.code);
    assert(compile_spec(src).code =~= c3.code.push((OpCode::OP_RETURN, None::<u8>)));
}

/// What compiling `src` gives: one expression, then end of input, then
/// `OP_RETURN`; `ok` says whether it succeeds.
pub open spec fn compile_spec(src: Seq<u8>) -> Compilation {
    let st0 = Compilation {
        ok: !lexical_error_at(src, 0),
        pos: 0,
        code: Seq::empty(),
        lines: Seq::empty(),
        consts: Seq::empty(),
        last_line: 0,
    };
    if !st0.ok {
        st0
    } else {
        let s1 = parse_prec(src, st0, Precedence::PREC_ASSIGNMENT);
        if !s1.ok {
            s1
        } else {
            let s2 = expect(src, s1, TokenType::TOKEN_EOF);
            if !s2.ok {
                s2
            } else {
                emit(s2, OpCode::OP_RETURN)
            }
        }
    }
}

} // verus!
