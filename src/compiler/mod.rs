use vstd::prelude::*;

use crate::chunk::{
    decode, encode, encode_lines, instr_valid, lemma_decode_encode, lemma_encode_lines_push,
    lemma_encode_push, Chunk,
};
use crate::compiler::parse_rule::{rule_of, ParseFn, ParseRule};
use crate::compiler::parser::Parser;
use crate::compiler::precedence::{level, next_prec, Precedence};
use crate::compiler::grammar::{
    compile_spec, emit, emit_binary, emit_constant, expect, infix, kind_at, lexical_error_at,
    parse_prec, prefix, step_over, Compilation,
};
use crate::compiler::scanner::{
    lemma_lex_from_bounds, lemma_stream_ends, lemma_stream_ends_bound, lex_from, lexeme_text,
    nth_lexeme, scan_state, token_matches, Scanner,
};
use crate::object::Object;
use crate::op_code::{operand_count, OpCode};
use crate::text::text_of;
use crate::token::{Token, TokenType};
use crate::value::{parse_number, Value, ValueView};

pub mod grammar;
pub mod parse_rule;
pub mod parser;
pub mod precedence;
pub mod scanner;

verus! {

/// A constant operand is one byte, so a chunk holds at most this many constants.
pub const MAX_CONSTANTS: usize = 256;

/// One reported compile error: the line and offset of the token it concerns,
/// that token's kind and text, and what went wrong.
pub struct Diagnostic {
    pub line: usize,
    pub start: usize,
    pub token_type: TokenType,
    pub lexeme: String,
    pub message: String,
}

/// A single-pass compiler from source bytes to a chunk.
pub struct Compiler {
    pub parser: Parser,
    pub scanner: Scanner,
    pub chunk: Chunk,
    pub diagnostics: Vec<Diagnostic>,
    /// Where the scanner stood after producing `parser.current`.
    pub current_end: usize,
    /// Where the scanner stood after producing `parser.previous`.
    pub previous_end: usize,
    /// The instructions written so far, in order.
    pub emitted: Ghost<Seq<(OpCode, Option<u8>)>>,
    /// How many times the scanner has been asked for a token.
    pub next: Ghost<nat>,
    /// The source line of each instruction written, in order.
    pub emitted_lines: Ghost<Seq<usize>>,
}

/// A token held by the parser lies within the source up to where the scanner
/// stood after it; a string token covers at least its two quotes.
pub open spec fn token_fits(t: Option<Token>, end: usize, src_len: nat) -> bool {
    match t {
        Some(tok) => {
            &&& tok.start <= end <= src_len
            &&& tok.token_type == TokenType::TOKEN_STRING ==> tok.start + 2 <= end
        },
        None => true,
    }
}

/// Every constant operand in `instrs` names one of `n_constants` constants.
pub open spec fn operands_in_pool(instrs: Seq<(OpCode, Option<u8>)>, n_constants: nat) -> bool {
    forall|k: int|
        0 <= k < instrs.len() && (#[trigger] instrs[k]).1 is Some ==> (instrs[k].1->Some_0 as nat)
            < n_constants
}

/// Whether `t`, read up to `end`, is the `n`-th token of `src`; past the end
/// of the stream there is no token.
pub open spec fn holds_token(t: Option<Token>, end: usize, src: Seq<u8>, n: nat) -> bool {
    match nth_lexeme(src, n) {
        Some(lx) => t is Some && token_matches(t->Some_0, src, lx) && end == lx.end,
        None => t is None,
    }
}

/// Whether `d` reports `message` at token `t`; with no token, at end of
/// input (offset `src_len`, line `line`).
pub open spec fn reports_at(
    d: Diagnostic,
    t: Option<Token>,
    src_len: nat,
    line: usize,
    message: Seq<char>,
) -> bool {
    &&& d.message@ == message
    &&& match t {
        Some(tok) => {
            &&& d.token_type == tok.token_type
            &&& d.start == tok.start
            &&& d.line == tok.line
            &&& d.lexeme@ == tok.message@
        },
        None => {
            &&& d.token_type == TokenType::TOKEN_EOF
            &&& d.start == src_len
            &&& d.line == line
            &&& d.lexeme@ == Seq::<char>::empty()
        },
    }
}

/// Whether `d` reports the lexical error that is the `n`-th token of `src`,
/// with that token's message, offset and line.
pub open spec fn reports_lexical_error(d: Diagnostic, src: Seq<u8>, n: nat) -> bool {
    let lx = nth_lexeme(src, n)->Some_0;
    &&& d.token_type == TokenType::TOKEN_ERROR
    &&& d.start == lx.start
    &&& d.line == lx.line
    &&& d.lexeme@ == Seq::<char>::empty()
    &&& d.message@ == lexeme_text(src, lx)
}

impl Compiler {
    /// The chunk is the encoding of the instructions written, each valid and
    /// naming a constant that exists; an error has been seen exactly when one
    /// has been reported.
    pub open spec fn wf(&self) -> bool {
        &&& self.scanner.wf()
        &&& self.chunk.wf()
        &&& self.chunk.code@ == encode(self.emitted@)
        &&& self.emitted_lines@.len() == self.emitted@.len()
        &&& self.chunk.lines@ == encode_lines(self.emitted@, self.emitted_lines@)
        &&& forall|k: int| 0 <= k < self.emitted@.len() ==> instr_valid(#[trigger] self.emitted@[k])
        &&& operands_in_pool(self.emitted@, self.chunk.constants.values@.len())
        &&& self.chunk.constants.values.len() <= MAX_CONSTANTS
        &&& token_fits(self.parser.current, self.current_end, self.scanner.source.len() as nat)
        &&& token_fits(self.parser.previous, self.previous_end, self.scanner.source.len() as nat)
        &&& self.parser.panic_mode == self.parser.had_error
        &&& self.parser.had_error <==> self.diagnostics.len() > 0
        &&& self.diagnostics.len() <= 1
        &&& (self.scanner.current as nat, self.scanner.line as nat, self.scanner.is_finished)
            == scan_state(self.scanner.source@, self.next@)
    }

    /// The index of the token ahead.
    pub open spec fn pos(&self) -> nat {
        (self.next@ - 1) as nat
    }

    pub open spec fn consts_view(&self) -> Seq<ValueView> {
        self.chunk.constants.values@.map_values(|v: Value| v@)
    }

    /// The compile so far, as the grammar describes it.
    pub open spec fn state(&self) -> Compilation {
        Compilation {
            ok: true,
            pos: self.pos(),
            code: self.emitted@,
            lines: self.emitted_lines@,
            consts: self.consts_view(),
            last_line: self.last_line(),
        }
    }

    /// The line of the token just consumed, which every byte written carries;
    /// 0 before any token.
    pub open spec fn last_line(&self) -> usize {
        match self.parser.previous {
            Some(t) => t.line,
            None => 0,
        }
    }

    /// No error so far, and the parser holds the token ahead and the one just
    /// consumed, as the token stream has them.
    pub open spec fn in_sync(&self) -> bool {
        &&& !self.parser.had_error
        &&& self.next@ >= 1
        &&& nth_lexeme(self.scanner.source@, self.pos()) is Some
        &&& holds_token(self.parser.current, self.current_end, self.scanner.source@, self.pos())
        &&& self.pos() >= 1 ==> holds_token(
            self.parser.previous,
            self.previous_end,
            self.scanner.source@,
            (self.pos() - 1) as nat,
        )
    }

    /// Whether the compile stands where the grammar says it comes to, `s`: an
    /// error exactly where `s` fails, and otherwise the same state, in step
    /// with the token stream.
    pub open spec fn follows(&self, s: Compilation) -> bool {
        &&& self.parser.had_error == !s.ok
        &&& s.ok ==> self.in_sync() && self.state() == s
    }

    /// What is left to read: bytes not yet scanned, end of input if not yet
    /// produced, and the token ahead if there is one. Every call that the
    /// parser makes on itself follows a drop of this measure.
    pub open spec fn progress(&self) -> nat {
        ((self.scanner.source.len() - self.scanner.current) as nat) + (if self.scanner.is_finished {
            0nat
        } else {
            1nat
        }) + (if self.parser.current is Some {
            1nat
        } else {
            0nat
        })
    }

    pub fn new() -> (r: Self)
        ensures
            r.wf(),
            r.chunk.code@ == Seq::<u8>::empty(),
            r.diagnostics.len() == 0,
    {
        Compiler {
            parser: Parser::new(),
            scanner: Scanner::new(Vec::new()),
            chunk: Chunk::new(),
            diagnostics: Vec::new(),
            current_end: 0,
            previous_end: 0,
            emitted: Ghost(Seq::empty()),
            next: Ghost(0),
            emitted_lines: Ghost(Seq::empty()),
        }
    }

    /// Compiles one expression followed by end of input into a fresh chunk,
    /// ending it with `OP_RETURN`. Returns whether no error was reported; the
    /// grammar decides which, and what the chunk holds.
    pub fn compile(&mut self, source: Vec<u8>) -> (r: bool)
        requires
            source.len() < usize::MAX,
        ensures
            final(self).wf(),
            final(self).scanner.source@ == source@,
            r == !final(self).parser.had_error,
            r <==> final(self).diagnostics.len() == 0,
            !r ==> final(self).diagnostics.len() == 1,
            r == compile_spec(source@).ok,
            r ==> final(self).emitted@ == compile_spec(source@).code,
            r ==> final(self).emitted_lines@ == compile_spec(source@).lines,
            final(self).chunk.lines@ == encode_lines(final(self).emitted@, final(self).emitted_lines@),
            r ==> final(self).consts_view() == compile_spec(source@).consts,
            decode(final(self).chunk.code@) == Some(final(self).emitted@),
            operands_in_pool(final(self).emitted@, final(self).chunk.constants.values@.len()),
            final(self).chunk.constants.values.len() <= MAX_CONSTANTS,
            r ==> final(self).emitted@.len() > 0 && final(self).emitted@.last() == (
                OpCode::OP_RETURN,
                None::<u8>,
            ),
    {
        self.scanner = Scanner::new(source);
        self.chunk = Chunk::new();
        self.parser = Parser::new();
        self.diagnostics = Vec::new();
        self.current_end = 0;
        self.previous_end = 0;
        self.emitted = Ghost(Seq::empty());
        self.next = Ghost(0);
        self.emitted_lines = Ghost(Seq::empty());
        proof {
            assert(self.consts_view() =~= Seq::<ValueView>::empty());
        }
        self.advance();
        self.expression();
        self.consume(TokenType::TOKEN_EOF, "Expected end of expression.");
        self.emit_op(OpCode::OP_RETURN);
        proof {
            lemma_decode_encode(self.emitted@);
        }
        !self.parser.had_error
    }

    /// Moves the token ahead into `previous` and reads the next token that is
    /// not an error, reporting each error token on the way.
    fn advance(&mut self)
        requires
            old(self).wf(),
        ensures
            final(self).wf(),
            final(self).scanner.source@ == old(self).scanner.source@,
            final(self).emitted@ == old(self).emitted@,
            final(self).emitted_lines == old(self).emitted_lines,
            final(self).chunk == old(self).chunk,
            final(self).parser.previous == old(self).parser.current,
            final(self).previous_end == old(self).current_end,
            final(self).progress() <= old(self).progress(),
            old(self).parser.current is Some ==> final(self).progress() < old(self).progress(),
            final(self).next@ >= old(self).next@ + 1,
            old(self).parser.had_error ==> final(self).parser.had_error,
            !old(self).parser.had_error ==> final(self).parser.had_error == lexical_error_at(
                old(self).scanner.source@,
                old(self).next@,
            ),
            !final(self).parser.had_error ==> final(self).next@ == old(self).next@ + 1
                && holds_token(
                final(self).parser.current,
                final(self).current_end,
                final(self).scanner.source@,
                old(self).next@,
            ),
            holds_token(
                final(self).parser.current,
                final(self).current_end,
                final(self).scanner.source@,
                (final(self).next@ - 1) as nat,
            ),
            !lexical_error_at(final(self).scanner.source@, (final(self).next@ - 1) as nat),
            forall|j: nat|
                old(self).next@ <= j < final(self).next@ - 1 ==> lexical_error_at(
                    final(self).scanner.source@,
                    j,
                ),
            old(self).parser.panic_mode || !lexical_error_at(
                old(self).scanner.source@,
                old(self).next@,
            ) ==> final(self).diagnostics@ == old(self).diagnostics@,
            !old(self).parser.panic_mode && lexical_error_at(
                old(self).scanner.source@,
                old(self).next@,
            ) ==> final(self).diagnostics@.len() == 1 && reports_lexical_error(
                final(self).diagnostics@[0],
                old(self).scanner.source@,
                old(self).next@,
            ),
    {
        let ghost start_left = (self.scanner.source.len() - self.scanner.current) + (
        if self.scanner.is_finished {
            0int
        } else {
            1int
        });
        let ghost first = self.next@;
        self.parser.previous = self.parser.current.take();
        self.previous_end = self.current_end;
        let mut scanning = true;
        while scanning
            invariant
                self.wf(),
                self.scanner.source@ == old(self).scanner.source@,
                self.emitted@ == old(self).emitted@,
                self.emitted_lines == old(self).emitted_lines,
                self.chunk == old(self).chunk,
                self.parser.previous == old(self).parser.current,
                self.previous_end == old(self).current_end,
                scanning ==> self.parser.current is None,
                ((self.scanner.source.len() - self.scanner.current) + (if self.scanner.is_finished {
                    0int
                } else {
                    1int
                })) + (if self.parser.current is Some {
                    1int
                } else {
                    0int
                }) <= start_left,
                first == old(self).next@,
                scanning ==> self.next@ >= first,
                scanning ==> self.next@ == first || self.parser.had_error,
                !scanning ==> self.next@ >= first + 1,
                old(self).parser.had_error ==> self.parser.had_error,
                !old(self).parser.had_error && self.next@ > first ==> (self.parser.had_error
                    == lexical_error_at(self.scanner.source@, first)),
                !old(self).parser.had_error && scanning && self.next@ == first
                    ==> !self.parser.had_error,
                scanning ==> forall|j: nat|
                    first <= j < self.next@ ==> lexical_error_at(self.scanner.source@, j),
                !scanning ==> self.next@ >= 1 && holds_token(
                    self.parser.current,
                    self.current_end,
                    self.scanner.source@,
                    (self.next@ - 1) as nat,
                ) && !lexical_error_at(self.scanner.source@, (self.next@ - 1) as nat) && forall|
                    j: nat,
                | first <= j < self.next@ - 1 ==> lexical_error_at(self.scanner.source@, j),
                old(self).wf(),
                old(self).parser.panic_mode ==> self.diagnostics@ == old(self).diagnostics@,
                !old(self).parser.panic_mode && (self.next@ == first || !lexical_error_at(
                    self.scanner.source@,
                    first,
                )) ==> self.diagnostics@ == old(self).diagnostics@,
                !old(self).parser.panic_mode && self.next@ > first && lexical_error_at(
                    self.scanner.source@,
                    first,
                ) ==> self.diagnostics@.len() == 1 && reports_lexical_error(
                    self.diagnostics@[0],
                    self.scanner.source@,
                    first,
                ),
                !scanning && !self.parser.had_error ==> self.next@ == first + 1 && holds_token(
                    self.parser.current,
                    self.current_end,
                    self.scanner.source@,
                    first,
                ),
            decreases (self.scanner.source.len() - self.scanner.current) + (
            if self.scanner.is_finished {
                0int
            } else {
                1int
            }) + (if scanning {
                1int
            } else {
                0int
            }),
        {
            proof {
                lemma_lex_from_bounds(
                    self.scanner.source@,
                    self.scanner.current as nat,
                    self.scanner.line as nat,
                );
            }
            let ghost at = self.next@;
            proof {
                let src = self.scanner.source@;
                if self.scanner.is_finished {
                    assert(nth_lexeme(src, at) is None);
                } else {
                    assert(nth_lexeme(src, at) == Some(
                        lex_from(src, self.scanner.current as nat, self.scanner.line as nat),
                    ));
                }
            }
            let t = self.scanner.scan_token();
            self.next = Ghost(self.next@ + 1);
            match t {
                Some(tok) => {
                    if tok.token_type == TokenType::TOKEN_ERROR {
                        self.error_at(
                            TokenType::TOKEN_ERROR,
                            tok.start,
                            tok.line,
                            String::new(),
                            tok.message,
                        );
                    } else {
                        self.parser.current = Some(tok);
                        self.current_end = self.scanner.current;
                        scanning = false;
                    }
                },
                None => {
                    self.current_end = self.scanner.current;
                    scanning = false;
                },
            }
        }
    }

    /// Advances past the token ahead if it is of kind `token_type`, else
    /// reports `message` at it.
    fn consume(&mut self, token_type: TokenType, message: &str)
        requires
            old(self).wf(),
            token_type != TokenType::TOKEN_ERROR,
        ensures
            final(self).wf(),
            final(self).scanner.source@ == old(self).scanner.source@,
            final(self).emitted@ == old(self).emitted@,
            final(self).emitted_lines == old(self).emitted_lines,
            final(self).chunk == old(self).chunk,
            final(self).progress() <= old(self).progress(),
            final(self).next@ >= old(self).next@,
            old(self).parser.had_error ==> final(self).parser.had_error,
            old(self).in_sync() ==> {
                let s = expect(old(self).scanner.source@, old(self).state(), token_type);
                &&& final(self).parser.had_error == !s.ok
                &&& s.ok ==> final(self).state() == s
                &&& s.ok && token_type != TokenType::TOKEN_EOF ==> final(self).in_sync()
            },
    {
        let matches = match &self.parser.current {
            Some(t) => t.token_type == token_type,
            None => false,
        };
        if matches {
            self.advance();
            proof {
                if old(self).in_sync() && !self.parser.had_error {
                    let lx = nth_lexeme(old(self).scanner.source@, old(self).pos())->Some_0;
                    assert(self.last_line() == lx.line as usize);
                }
            }
        } else {
            self.error_at_current(message);
        }
    }

    fn expression(&mut self)
        requires
            old(self).wf(),
            old(self).next@ >= 1,
        ensures
            final(self).wf(),
            final(self).scanner.source@ == old(self).scanner.source@,
            final(self).emitted@.len() >= old(self).emitted@.len(),
            final(self).progress() <= old(self).progress(),
            final(self).next@ >= old(self).next@,
            old(self).parser.had_error ==> final(self).parser.had_error,
            old(self).in_sync() ==> final(self).follows(
                parse_prec(old(self).scanner.source@, old(self).state(), Precedence::PREC_ASSIGNMENT),
            ),
        decreases old(self).progress(), 1nat,
    {
        self.parse_precedence(Precedence::PREC_ASSIGNMENT);
    }

    /// Whether the token ahead is an operator that binds at least as tightly
    /// as `precedence`.
    fn current_binds(&self, precedence: Precedence) -> (r: bool)
        ensures
            r == match self.parser.current {
                Some(t) => level(precedence) <= level(rule_of(t.token_type).precedence),
                None => false,
            },
    {
        match &self.parser.current {
            Some(t) => precedence.level() <= ParseRule::from_token_type(
                t.token_type,
            ).precedence.level(),
            None => false,
        }
    }

    /// Parses an expression whose operators bind at least as tightly as
    /// `precedence`, emitting its code.
    #[verifier::rlimit(80)]
    #[verifier::spinoff_prover]
    fn parse_precedence(&mut self, precedence: Precedence)
        requires
            old(self).wf(),
            old(self).next@ >= 1,
            level(precedence) >= 1,
        ensures
            final(self).wf(),
            final(self).scanner.source@ == old(self).scanner.source@,
            final(self).emitted@.len() >= old(self).emitted@.len(),
            final(self).progress() <= old(self).progress(),
            final(self).next@ >= old(self).next@ + 1,
            old(self).parser.had_error ==> final(self).parser.had_error,
            old(self).in_sync() ==> final(self).follows(
                parse_prec(old(self).scanner.source@, old(self).state(), precedence),
            ),
            old(self).in_sync() && !lexical_error_at(old(self).scanner.source@, old(self).next@)
                && rule_of(kind_at(old(self).scanner.source@, old(self).pos())).prefix
                == ParseFn::Null ==> {
                let t = old(self).parser.current->Some_0;
                let d = final(self).diagnostics@[0];
                &&& final(self).emitted == old(self).emitted
                &&& final(self).chunk == old(self).chunk
                &&& final(self).diagnostics@.len() == 1
                &&& d.message@ == "Expected expression."@
                &&& d.token_type == t.token_type
                &&& d.start == t.start
                &&& d.line == t.line
                &&& d.lexeme@ == t.message@
            },
        decreases old(self).progress(), 0nat,
    {
        let ghost src = self.scanner.source@;
        let ghost n = self.pos();
        proof {
            if old(self).in_sync() {
                if n >= src.len() + 1 {
                    lemma_stream_ends(src, n);
                }
            }
        }
        self.advance();
        let ghost s0 = step_over(src, old(self).state());
        let prefix_fn = match &self.parser.previous {
            Some(t) => ParseRule::from_token_type(t.token_type).prefix,
            None => ParseFn::Null,
        };
        proof {
            if old(self).in_sync() && !self.parser.had_error {
                assert(self.state() == s0);
                let lx = nth_lexeme(src, n)->Some_0;
                if lx.kind != TokenType::TOKEN_EOF {
                    assert(nth_lexeme(src, n + 1) is Some);
                }
            }
        }
        match prefix_fn {
            ParseFn::Grouping => self.grouping(),
            ParseFn::Unary => self.unary(),
            ParseFn::Number => self.number(),
            ParseFn::Literal => self.literal(),
            ParseFn::String => self.string(),
            _ => {
                self.error("Expected expression.");
                return ;
            },
        }
        let ghost s1 = prefix(src, n, s0);
        let ghost goal = parse_prec(src, old(self).state(), precedence);
        proof {
            if old(self).in_sync() && s1.ok {
                lemma_stream_ends_bound(src, self.pos());
            }
        }
        while self.current_binds(precedence)
            invariant
                self.wf(),
                self.scanner.source@ == src,
                level(precedence) >= 1,
                self.emitted@.len() >= old(self).emitted@.len(),
                self.progress() < old(self).progress(),
                self.next@ >= old(self).next@ + 1,
                old(self).parser.had_error ==> self.parser.had_error,
                old(self).in_sync() && !self.parser.had_error ==> self.in_sync() && infix(
                    src,
                    self.state(),
                    precedence,
                ) == goal,
                old(self).in_sync() && self.parser.had_error ==> !goal.ok,
            decreases self.progress(),
        {
            let ghost before = self.state();
            let ghost k = kind_at(src, before.pos);
            let ghost s0 = step_over(src, before);
            proof {
                if old(self).in_sync() && !self.parser.had_error {
                    lemma_stream_ends_bound(src, self.pos());
                }
            }
            self.advance();
            proof {
                if old(self).in_sync() && !self.parser.had_error {
                    assert(self.state() == s0);
                }
            }
            let infix_fn = match &self.parser.previous {
                Some(t) => ParseRule::from_token_type(t.token_type).infix,
                None => ParseFn::Null,
            };
            proof {
                if old(self).in_sync() && !self.parser.had_error {
                    assert(k != TokenType::TOKEN_EOF);
                    assert(nth_lexeme(src, before.pos + 1) is Some);
                }
            }
            if infix_fn == ParseFn::Binary {
                self.binary();
            }
            proof {
                if old(self).in_sync() && !self.parser.had_error {
                    lemma_stream_ends_bound(src, self.pos());
                    let s1 = parse_prec(src, s0, next_prec(rule_of(k).precedence));
                    assert(s1.ok);
                    let s2 = emit_binary(s1, k);
                    assert(self.state() == s2);
                    assert(infix(src, before, precedence) == infix(src, s2, precedence));
                }
            }
        }
    }

    /// `( expression )`
    fn grouping(&mut self)
        requires
            old(self).wf(),
            old(self).next@ >= 1,
            old(self).in_sync() ==> old(self).pos() >= 1 && rule_of(
                kind_at(old(self).scanner.source@, (old(self).pos() - 1) as nat),
            ).prefix == ParseFn::Grouping,
        ensures
            final(self).wf(),
            final(self).scanner.source@ == old(self).scanner.source@,
            final(self).emitted@.len() >= old(self).emitted@.len(),
            final(self).progress() <= old(self).progress(),
            final(self).next@ >= old(self).next@,
            old(self).parser.had_error ==> final(self).parser.had_error,
            old(self).in_sync() ==> final(self).follows(
                prefix(old(self).scanner.source@, (old(self).pos() - 1) as nat, old(self).state()),
            ),
        decreases old(self).progress(), 2nat,
    {
        proof {
            if old(self).in_sync() {
                lemma_stream_ends_bound(self.scanner.source@, (self.pos() - 1) as nat);
            }
        }
        self.expression();
        self.consume(TokenType::TOKEN_RIGHT_PAREN, "Expected ')' after expression.");
    }

    /// `-` or `!` applied to an operand of unary precedence.
    fn unary(&mut self)
        requires
            old(self).wf(),
            old(self).next@ >= 1,
            old(self).in_sync() ==> old(self).pos() >= 1 && rule_of(
                kind_at(old(self).scanner.source@, (old(self).pos() - 1) as nat),
            ).prefix == ParseFn::Unary,
        ensures
            final(self).wf(),
            final(self).scanner.source@ == old(self).scanner.source@,
            final(self).emitted@.len() >= old(self).emitted@.len(),
            final(self).progress() <= old(self).progress(),
            final(self).next@ >= old(self).next@,
            old(self).parser.had_error ==> final(self).parser.had_error,
            old(self).in_sync() ==> final(self).follows(
                prefix(old(self).scanner.source@, (old(self).pos() - 1) as nat, old(self).state()),
            ),
        decreases old(self).progress(), 1nat,
    {
        proof {
            if old(self).in_sync() {
                lemma_stream_ends_bound(self.scanner.source@, (self.pos() - 1) as nat);
            }
        }
        let operator_type = match &self.parser.previous {
            Some(t) => t.token_type,
            None => TokenType::TOKEN_EOF,
        };
        self.parse_precedence(Precedence::PREC_UNARY);
        if operator_type == TokenType::TOKEN_MINUS {
            self.emit_op(OpCode::OP_NEGATE);
        } else {
            self.emit_op(OpCode::OP_NOT);
        }
    }

    /// The right operand of the infix operator just consumed, then the
    /// operator's instructions.
    fn binary(&mut self)
        requires
            old(self).wf(),
            old(self).next@ >= 1,
            old(self).in_sync() ==> old(self).pos() >= 1,
        ensures
            final(self).wf(),
            final(self).scanner.source@ == old(self).scanner.source@,
            final(self).emitted@.len() >= old(self).emitted@.len(),
            final(self).progress() <= old(self).progress(),
            final(self).next@ >= old(self).next@,
            old(self).parser.had_error ==> final(self).parser.had_error,
            old(self).in_sync() ==> {
                let src = old(self).scanner.source@;
                let k = kind_at(src, (old(self).pos() - 1) as nat);
                let s1 = parse_prec(src, old(self).state(), next_prec(rule_of(k).precedence));
                final(self).follows(if s1.ok { emit_binary(s1, k) } else { s1 })
            },
        decreases old(self).progress(), 1nat,
    {
        let operator_type = match &self.parser.previous {
            Some(t) => t.token_type,
            None => TokenType::TOKEN_EOF,
        };
        let rule = ParseRule::from_token_type(operator_type);
        self.parse_precedence(rule.precedence.next());
        match operator_type {
            TokenType::TOKEN_PLUS => self.emit_op(OpCode::OP_ADD),
            TokenType::TOKEN_MINUS => self.emit_op(OpCode::OP_SUBTRACT),
            TokenType::TOKEN_STAR => self.emit_op(OpCode::OP_MULTIPLY),
            TokenType::TOKEN_SLASH => self.emit_op(OpCode::OP_DIVIDE),
            TokenType::TOKEN_BANG_EQUAL => {
                self.emit_op(OpCode::OP_EQUAL);
                self.emit_op(OpCode::OP_NOT);
            },
            TokenType::TOKEN_EQUAL_EQUAL => self.emit_op(OpCode::OP_EQUAL),
            TokenType::TOKEN_GREATER => self.emit_op(OpCode::OP_GREATER),
            TokenType::TOKEN_GREATER_EQUAL => {
                self.emit_op(OpCode::OP_LESS);
                self.emit_op(OpCode::OP_NOT);
            },
            TokenType::TOKEN_LESS => self.emit_op(OpCode::OP_LESS),
            TokenType::TOKEN_LESS_EQUAL => {
                self.emit_op(OpCode::OP_GREATER);
                self.emit_op(OpCode::OP_NOT);
            },
            _ => {},
        }
    }

    /// `true`, `false` or `nil`.
    fn literal(&mut self)
        requires
            old(self).wf(),
            old(self).in_sync() ==> old(self).pos() >= 1 && rule_of(
                kind_at(old(self).scanner.source@, (old(self).pos() - 1) as nat),
            ).prefix == ParseFn::Literal,
        ensures
            final(self).wf(),
            final(self).scanner.source@ == old(self).scanner.source@,
            final(self).emitted@.len() >= old(self).emitted@.len(),
            final(self).progress() <= old(self).progress(),
            final(self).next@ == old(self).next@,
            old(self).parser.had_error ==> final(self).parser.had_error,
            old(self).in_sync() ==> final(self).follows(
                prefix(old(self).scanner.source@, (old(self).pos() - 1) as nat, old(self).state()),
            ),
    {
        proof {
            if old(self).in_sync() {
                lemma_stream_ends_bound(self.scanner.source@, (self.pos() - 1) as nat);
            }
        }
        let token_type = match &self.parser.previous {
            Some(t) => t.token_type,
            None => TokenType::TOKEN_EOF,
        };
        match token_type {
            TokenType::TOKEN_FALSE => self.emit_op(OpCode::OP_FALSE),
            TokenType::TOKEN_TRUE => self.emit_op(OpCode::OP_TRUE),
            _ => self.emit_op(OpCode::OP_NIL),
        }
    }

    /// Emits the number literal just consumed as a constant.
    fn number(&mut self)
        requires
            old(self).wf(),
            old(self).in_sync() ==> old(self).pos() >= 1 && rule_of(
                kind_at(old(self).scanner.source@, (old(self).pos() - 1) as nat),
            ).prefix == ParseFn::Number,
        ensures
            final(self).wf(),
            final(self).scanner.source@ == old(self).scanner.source@,
            final(self).emitted@.len() >= old(self).emitted@.len(),
            final(self).progress() <= old(self).progress(),
            final(self).next@ == old(self).next@,
            old(self).parser.had_error ==> final(self).parser.had_error,
            old(self).in_sync() ==> final(self).follows(
                prefix(old(self).scanner.source@, (old(self).pos() - 1) as nat, old(self).state()),
            ),
    {
        proof {
            if old(self).in_sync() {
                lemma_stream_ends_bound(self.scanner.source@, (self.pos() - 1) as nat);
            }
        }
        let parsed = match &self.parser.previous {
            Some(t) => parse_number(t.message.as_str()),
            None => None,
        };
        match parsed {
            Some(bits) => self.emit_constant(Value::VAL_NUMBER(bits)),
            None => self.error("Invalid number literal."),
        }
    }

    /// Emits the string literal just consumed, without its quotes, as a
    /// constant.
    fn string(&mut self)
        requires
            old(self).wf(),
            old(self).in_sync() ==> old(self).pos() >= 1 && rule_of(
                kind_at(old(self).scanner.source@, (old(self).pos() - 1) as nat),
            ).prefix == ParseFn::String,
        ensures
            final(self).wf(),
            final(self).scanner.source@ == old(self).scanner.source@,
            final(self).emitted@.len() >= old(self).emitted@.len(),
            final(self).progress() <= old(self).progress(),
            final(self).next@ == old(self).next@,
            old(self).parser.had_error ==> final(self).parser.had_error,
            old(self).in_sync() ==> final(self).follows(
                prefix(old(self).scanner.source@, (old(self).pos() - 1) as nat, old(self).state()),
            ),
    {
        proof {
            if old(self).in_sync() {
                lemma_stream_ends_bound(self.scanner.source@, (self.pos() - 1) as nat);
            }
        }
        let start = match &self.parser.previous {
            Some(t) => {
                if t.token_type != TokenType::TOKEN_STRING {
                    return ;
                }
                t.start
            },
            None => {
                return ;
            },
        };
        let bytes = vstd::slice::slice_subrange(
            self.scanner.source.as_slice(),
            start + 1,
            self.previous_end - 1,
        );
        let text = text_of(bytes);
        self.emit_constant(Value::VAL_OBJECT(Object::string(text)));
    }

    /// The line of the token just consumed, which every emitted byte carries.
    fn previous_line(&self) -> (r: usize)
        ensures
            r == self.last_line(),
    {
        match &self.parser.previous {
            Some(t) => t.line,
            None => 0,
        }
    }

    /// Appends an instruction without operand.
    fn emit_op(&mut self, op: OpCode)
        requires
            old(self).wf(),
            operand_count(op) == 0,
        ensures
            final(self).wf(),
            final(self).scanner == old(self).scanner,
            final(self).parser.current == old(self).parser.current,
            final(self).parser.previous == old(self).parser.previous,
            final(self).current_end == old(self).current_end,
            final(self).previous_end == old(self).previous_end,
            final(self).next == old(self).next,
            final(self).consts_view() == old(self).consts_view(),
            final(self).emitted@.len() >= old(self).emitted@.len(),
            old(self).parser.had_error ==> final(self).parser.had_error,
            !old(self).parser.had_error ==> {
                let s = emit(old(self).state(), op);
                &&& final(self).parser.had_error == !s.ok
                &&& s.ok ==> final(self).state() == s
            },
            !final(self).parser.had_error ==> final(self).chunk.lines@ == old(
                self,
            ).chunk.lines@.push(old(self).last_line()),
    {
        if self.chunk.count >= usize::MAX - 2 {
            self.error("Too much code in one chunk.");
            return ;
        }
        let line = self.previous_line();
        self.chunk.write(op.to_byte(), line);
        proof {
            lemma_encode_push(self.emitted@, (op, None::<u8>));
            lemma_encode_lines_push(self.emitted@, self.emitted_lines@, (op, None::<u8>), line);
            assert(Seq::new(1, |_k: int| line) =~= seq![line]);
        }
        self.emitted = Ghost(self.emitted@.push((op, None::<u8>)));
        self.emitted_lines = Ghost(self.emitted_lines@.push(line));
        proof {
            assert(self.chunk.lines@ =~= encode_lines(self.emitted@, self.emitted_lines@));
            assert forall|k: int| 0 <= k < self.emitted@.len() implies instr_valid(
                #[trigger] self.emitted@[k],
            ) by {
                if k < self.emitted@.len() - 1 {
                    assert(self.emitted@[k] == old(self).emitted@[k]);
                }
            }
            assert(self.chunk.code@ =~= encode(self.emitted@));
        }
    }

    /// Adds `value` to the constant pool and appends `OP_CONSTANT` with its
    /// index; a full pool is a compile error.
    fn emit_constant(&mut self, value: Value)
        requires
            old(self).wf(),
        ensures
            final(self).wf(),
            final(self).scanner == old(self).scanner,
            final(self).parser.current == old(self).parser.current,
            final(self).parser.previous == old(self).parser.previous,
            final(self).current_end == old(self).current_end,
            final(self).previous_end == old(self).previous_end,
            final(self).next == old(self).next,
            final(self).emitted@.len() >= old(self).emitted@.len(),
            old(self).parser.had_error ==> final(self).parser.had_error,
            !old(self).parser.had_error ==> {
                let s = emit_constant(old(self).state(), value@);
                &&& final(self).parser.had_error == !s.ok
                &&& s.ok ==> final(self).state() == s
            },
            !final(self).parser.had_error ==> final(self).chunk.lines@ == old(
                self,
            ).chunk.lines@.push(old(self).last_line()).push(old(self).last_line()),
    {
        if self.chunk.constants.count >= MAX_CONSTANTS {
            self.error("Too many constants in one chunk.");
            return ;
        }
        if self.chunk.count >= usize::MAX - 2 {
            self.error("Too much code in one chunk.");
            return ;
        }
        let ghost view = value@;
        let index = self.chunk.add_constant(value);
        let line = self.previous_line();
        self.chunk.write(OpCode::OP_CONSTANT.to_byte(), line);
        self.chunk.write(index as u8, line);
        let ghost ins = (OpCode::OP_CONSTANT, Some(index as u8));
        proof {
            lemma_encode_push(self.emitted@, ins);
            lemma_encode_lines_push(self.emitted@, self.emitted_lines@, ins, line);
            assert(Seq::new(2, |_k: int| line) =~= seq![line, line]);
            assert(self.chunk.lines@ =~= old(self).chunk.lines@.push(line).push(line));
        }
        self.emitted = Ghost(self.emitted@.push(ins));
        self.emitted_lines = Ghost(self.emitted_lines@.push(line));
        proof {
            assert(self.chunk.lines@ =~= encode_lines(self.emitted@, self.emitted_lines@));
            assert forall|k: int| 0 <= k < self.emitted@.len() implies instr_valid(
                #[trigger] self.emitted@[k],
            ) by {
                if k < self.emitted@.len() - 1 {
                    assert(self.emitted@[k] == old(self).emitted@[k]);
                }
            }
            assert forall|k: int|
                0 <= k < self.emitted@.len() && (#[trigger] self.emitted@[k]).1 is Some implies (
            self.emitted@[k].1->Some_0 as nat) < self.chunk.constants.values@.len() by {
                if k < self.emitted@.len() - 1 {
                    assert(self.emitted@[k] == old(self).emitted@[k]);
                }
            }
            assert(self.chunk.code@ =~= encode(self.emitted@));
            assert(self.consts_view() =~= old(self).consts_view().push(view));
        }
    }

    /// Reports `message` at the token just consumed.
    fn error(&mut self, message: &str)
        requires
            old(self).wf(),
        ensures
            final(self).wf(),
            final(self).scanner == old(self).scanner,
            final(self).parser.current == old(self).parser.current,
            final(self).parser.previous == old(self).parser.previous,
            final(self).current_end == old(self).current_end,
            final(self).previous_end == old(self).previous_end,
            final(self).next == old(self).next,
            final(self).emitted == old(self).emitted,
            final(self).emitted_lines == old(self).emitted_lines,
            final(self).chunk == old(self).chunk,
            final(self).parser.had_error,
            old(self).parser.panic_mode ==> final(self).diagnostics@ == old(self).diagnostics@,
            !old(self).parser.panic_mode ==> final(self).diagnostics@.len() == old(
                self,
            ).diagnostics@.len() + 1 && final(self).diagnostics@.drop_last() == old(
                self,
            ).diagnostics@ && reports_at(
                final(self).diagnostics@.last(),
                old(self).parser.previous,
                old(self).scanner.source.len() as nat,
                old(self).scanner.line,
                message@,
            ),
    {
        let (token_type, start, line, lexeme) = match &self.parser.previous {
            Some(t) => (t.token_type, t.start, t.line, t.message.clone()),
            None => (TokenType::TOKEN_EOF, self.scanner.source.len(), self.scanner.line, String::new()),
        };
        self.error_at(token_type, start, line, lexeme, message.to_string());
    }

    /// Reports `message` at the token ahead.
    fn error_at_current(&mut self, message: &str)
        requires
            old(self).wf(),
        ensures
            final(self).wf(),
            final(self).scanner == old(self).scanner,
            final(self).parser.current == old(self).parser.current,
            final(self).parser.previous == old(self).parser.previous,
            final(self).current_end == old(self).current_end,
            final(self).previous_end == old(self).previous_end,
            final(self).next == old(self).next,
            final(self).emitted == old(self).emitted,
            final(self).emitted_lines == old(self).emitted_lines,
            final(self).chunk == old(self).chunk,
            final(self).parser.had_error,
            old(self).parser.panic_mode ==> final(self).diagnostics@ == old(self).diagnostics@,
            !old(self).parser.panic_mode ==> final(self).diagnostics@.len() == old(
                self,
            ).diagnostics@.len() + 1 && final(self).diagnostics@.drop_last() == old(
                self,
            ).diagnostics@ && reports_at(
                final(self).diagnostics@.last(),
                old(self).parser.current,
                old(self).scanner.source.len() as nat,
                old(self).scanner.line,
                message@,
            ),
    {
        let (token_type, start, line, lexeme) = match &self.parser.current {
            Some(t) => (t.token_type, t.start, t.line, t.message.clone()),
            None => (TokenType::TOKEN_EOF, self.scanner.source.len(), self.scanner.line, String::new()),
        };
        self.error_at(token_type, start, line, lexeme, message.to_string());
    }

    /// Records an error; while the parser is panicking the report is dropped.
    fn error_at(
        &mut self,
        token_type: TokenType,
        start: usize,
        line: usize,
        lexeme: String,
        message: String,
    )
        requires
            old(self).wf(),
        ensures
            final(self).wf(),
            final(self).scanner == old(self).scanner,
            final(self).parser.current == old(self).parser.current,
            final(self).parser.previous == old(self).parser.previous,
            final(self).emitted == old(self).emitted,
            final(self).emitted_lines == old(self).emitted_lines,
            final(self).chunk == old(self).chunk,
            final(self).current_end == old(self).current_end,
            final(self).previous_end == old(self).previous_end,
            final(self).next == old(self).next,
            final(self).parser.had_error,
            old(self).parser.panic_mode ==> final(self).diagnostics@ == old(self).diagnostics@,
            !old(self).parser.panic_mode ==> final(self).diagnostics@ == old(
                self,
            ).diagnostics@.push(Diagnostic { line, start, token_type, lexeme, message }),
    {
        if self.parser.panic_mode {
            return ;
        }
        self.parser.panic_mode = true;
        self.diagnostics.push(Diagnostic { line, start, token_type, lexeme, message });
        self.parser.had_error = true;
    }
}

} // verus!
