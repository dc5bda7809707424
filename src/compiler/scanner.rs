use vstd::prelude::*;

use crate::text::{text_of, utf8_lossy};
use crate::token::{Token, TokenType};

verus! {

pub open spec fn is_digit_byte(c: u8) -> bool {
    '0' as u8 <= c <= '9' as u8
}

pub open spec fn is_alpha_byte(c: u8) -> bool {
    ('a' as u8 <= c <= 'z' as u8) || ('A' as u8 <= c <= 'Z' as u8)
}

/// Where skipping blanks, newlines and `//` comments from `pos` stops, and the
/// line reached there. `in_comment` says whether `pos` lies inside a comment.
pub open spec fn skip_blank(src: Seq<u8>, pos: nat, line: nat, in_comment: bool) -> (nat, nat)
    decreases src.len() - pos,
{
    if pos >= src.len() {
        (pos, line)
    } else {
        let c = src[pos as int];
        if in_comment {
            if c == '\n' as u8 {
                skip_blank(src, pos + 1, line + 1, false)
            } else {
                skip_blank(src, pos + 1, line, true)
            }
        } else if c == ' ' as u8 || c == '\r' as u8 || c == '\t' as u8 {
            skip_blank(src, pos + 1, line, false)
        } else if c == '\n' as u8 {
            skip_blank(src, pos + 1, line + 1, false)
        } else if c == '/' as u8 && pos + 1 < src.len() && src[pos + 1int] == '/' as u8 {
            skip_blank(src, pos + 2, line, true)
        } else {
            (pos, line)
        }
    }
}

/// The end of the run of decimal digits that starts at `pos`.
pub open spec fn digits_end(src: Seq<u8>, pos: nat) -> nat
    decreases src.len() - pos,
{
    if pos < src.len() && is_digit_byte(src[pos as int]) {
        digits_end(src, pos + 1)
    } else {
        pos
    }
}

/// The end of a number literal at `pos`: digits, then a `.` only where a digit
/// follows it, then the digits after the `.`.
pub open spec fn number_end(src: Seq<u8>, pos: nat) -> nat {
    let e = digits_end(src, pos);
    if e + 1 < src.len() && src[e as int] == '.' as u8 && is_digit_byte(src[e + 1int]) {
        digits_end(src, e + 1)
    } else {
        e
    }
}

/// The end of the run of letters and digits that starts at `pos`.
pub open spec fn word_end(src: Seq<u8>, pos: nat) -> nat
    decreases src.len() - pos,
{
    if pos < src.len() && (is_alpha_byte(src[pos as int]) || is_digit_byte(src[pos as int])) {
        word_end(src, pos + 1)
    } else {
        pos
    }
}

/// Scanning the body of a string literal from `pos`: where it ends (past the
/// closing quote, or at the end of input), the line reached, and whether the
/// closing quote was found.
pub open spec fn string_scan(src: Seq<u8>, pos: nat, line: nat) -> (nat, nat, bool)
    decreases src.len() - pos,
{
    if pos >= src.len() {
        (pos, line, false)
    } else if src[pos as int] == '"' as u8 {
        (pos + 1, line, true)
    } else if src[pos as int] == '\n' as u8 {
        string_scan(src, pos + 1, line + 1)
    } else {
        string_scan(src, pos + 1, line)
    }
}

/// The kind of a word: a reserved word, matched on its whole length, or an
/// identifier.
pub open spec fn keyword_kind(w: Seq<u8>) -> TokenType {
    if w == seq!['a' as u8, 'n' as u8, 'd' as u8] {
        TokenType::TOKEN_AND
    } else if w == seq!['c' as u8, 'l' as u8, 'a' as u8, 's' as u8, 's' as u8] {
        TokenType::TOKEN_CLASS
    } else if w == seq!['e' as u8, 'l' as u8, 's' as u8, 'e' as u8] {
        TokenType::TOKEN_ELSE
    } else if w == seq!['f' as u8, 'a' as u8, 'l' as u8, 's' as u8, 'e' as u8] {
        TokenType::TOKEN_FALSE
    } else if w == seq!['f' as u8, 'o' as u8, 'r' as u8] {
        TokenType::TOKEN_FOR
    } else if w == seq!['f' as u8, 'u' as u8, 'n' as u8] {
        TokenType::TOKEN_FUN
    } else if w == seq!['i' as u8, 'f' as u8] {
        TokenType::TOKEN_IF
    } else if w == seq!['n' as u8, 'i' as u8, 'l' as u8] {
        TokenType::TOKEN_NIL
    } else if w == seq!['o' as u8, 'r' as u8] {
        TokenType::TOKEN_OR
    } else if w == seq!['p' as u8, 'r' as u8, 'i' as u8, 'n' as u8, 't' as u8] {
        TokenType::TOKEN_PRINT
    } else if w == seq!['r' as u8, 'e' as u8, 't' as u8, 'u' as u8, 'r' as u8, 'n' as u8] {
        TokenType::TOKEN_RETURN
    } else if w == seq!['s' as u8, 'u' as u8, 'p' as u8, 'e' as u8, 'r' as u8] {
        TokenType::TOKEN_SUPER
    } else if w == seq!['t' as u8, 'h' as u8, 'i' as u8, 's' as u8] {
        TokenType::TOKEN_THIS
    } else if w == seq!['t' as u8, 'r' as u8, 'u' as u8, 'e' as u8] {
        TokenType::TOKEN_TRUE
    } else if w == seq!['v' as u8, 'a' as u8, 'r' as u8] {
        TokenType::TOKEN_VAR
    } else if w == seq!['w' as u8, 'h' as u8, 'i' as u8, 'l' as u8, 'e' as u8] {
        TokenType::TOKEN_WHILE
    } else {
        TokenType::TOKEN_IDENTIFIER
    }
}

/// The kind and length of an operator or punctuation token at `pos`; an
/// unexpected byte gives an error token of length one.
pub open spec fn punct_token(src: Seq<u8>, pos: nat) -> (TokenType, nat) {
    let c = src[pos as int];
    let next_is_eq = pos + 1 < src.len() && src[pos + 1int] == '=' as u8;
    if c == '(' as u8 {
        (TokenType::TOKEN_LEFT_PAREN, 1)
    } else if c == ')' as u8 {
        (TokenType::TOKEN_RIGHT_PAREN, 1)
    } else if c == '{' as u8 {
        (TokenType::TOKEN_LEFT_BRACE, 1)
    } else if c == '}' as u8 {
        (TokenType::TOKEN_RIGHT_BRACE, 1)
    } else if c == ';' as u8 {
        (TokenType::TOKEN_SEMICOLON, 1)
    } else if c == ',' as u8 {
        (TokenType::TOKEN_COMMA, 1)
    } else if c == '.' as u8 {
        (TokenType::TOKEN_DOT, 1)
    } else if c == '-' as u8 {
        (TokenType::TOKEN_MINUS, 1)
    } else if c == '+' as u8 {
        (TokenType::TOKEN_PLUS, 1)
    } else if c == '/' as u8 {
        (TokenType::TOKEN_SLASH, 1)
    } else if c == '*' as u8 {
        (TokenType::TOKEN_STAR, 1)
    } else if c == '!' as u8 {
        if next_is_eq { (TokenType::TOKEN_BANG_EQUAL, 2) } else { (TokenType::TOKEN_BANG, 1) }
    } else if c == '=' as u8 {
        if next_is_eq { (TokenType::TOKEN_EQUAL_EQUAL, 2) } else { (TokenType::TOKEN_EQUAL, 1) }
    } else if c == '<' as u8 {
        if next_is_eq { (TokenType::TOKEN_LESS_EQUAL, 2) } else { (TokenType::TOKEN_LESS, 1) }
    } else if c == '>' as u8 {
        if next_is_eq {
            (TokenType::TOKEN_GREATER_EQUAL, 2)
        } else {
            (TokenType::TOKEN_GREATER, 1)
        }
    } else {
        (TokenType::TOKEN_ERROR, 1)
    }
}

/// A token as the lexical grammar sees it: its kind, the bytes `start..end`
/// that it covers, and the line that the scanner has reached at its end.
pub struct Lexeme {
    pub kind: TokenType,
    pub start: nat,
    pub end: nat,
    pub line: nat,
}

/// The token that starts at `pos` on `line`, blanks and comments already
/// skipped.
pub open spec fn lex_token(src: Seq<u8>, pos: nat, line: nat) -> Lexeme {
    if pos >= src.len() {
        Lexeme { kind: TokenType::TOKEN_EOF, start: pos, end: pos, line }
    } else {
        let c = src[pos as int];
        if is_digit_byte(c) {
            Lexeme { kind: TokenType::TOKEN_NUMBER, start: pos, end: number_end(src, pos), line }
        } else if is_alpha_byte(c) {
            let e = word_end(src, pos);
            Lexeme { kind: keyword_kind(src.subrange(pos as int, e as int)), start: pos, end: e, line }
        } else if c == '"' as u8 {
            let (e, l, closed) = string_scan(src, pos + 1, line);
            Lexeme {
                kind: if closed { TokenType::TOKEN_STRING } else { TokenType::TOKEN_ERROR },
                start: pos,
                end: e,
                line: l,
            }
        } else {
            let (k, n) = punct_token(src, pos);
            Lexeme { kind: k, start: pos, end: pos + n, line }
        }
    }
}

/// The next token of `src` for a scanner standing at `pos` on `line`.
pub open spec fn lex_from(src: Seq<u8>, pos: nat, line: nat) -> Lexeme {
    let (p, l) = skip_blank(src, pos, line, false);
    lex_token(src, p, l)
}

/// The text a token carries: the message of an error token, otherwise the
/// source slice it covers.
pub open spec fn lexeme_text(src: Seq<u8>, lx: Lexeme) -> Seq<char> {
    if lx.kind == TokenType::TOKEN_ERROR {
        if src[lx.start as int] == '"' as u8 {
            "Unterminated string."@
        } else {
            "Unexpected character."@
        }
    } else {
        utf8_lossy(src.subrange(lx.start as int, lx.end as int))
    }
}

/// Whether `t` is the token that `lx` describes in `src`.
pub open spec fn token_matches(t: Token, src: Seq<u8>, lx: Lexeme) -> bool {
    &&& t.token_type == lx.kind
    &&& t.start == lx.start
    &&& t.line == lx.line
    &&& t.message@ == lexeme_text(src, lx)
}

/// Where a fresh scanner over `src` stands after `n` calls that returned a
/// token: its position, its line, and whether it has produced end of input.
pub open spec fn scan_state(src: Seq<u8>, n: nat) -> (nat, nat, bool)
    decreases n,
{
    if n == 0 {
        (0, 1, false)
    } else {
        let (pos, line, done) = scan_state(src, (n - 1) as nat);
        if done {
            (pos, line, done)
        } else {
            let lx = lex_from(src, pos, line);
            (lx.end, lx.line, lx.kind == TokenType::TOKEN_EOF)
        }
    }
}

/// The `n`-th token (from zero) that a fresh scanner over `src` produces, if it
/// produces that many.
pub open spec fn nth_lexeme(src: Seq<u8>, n: nat) -> Option<Lexeme> {
    let (pos, line, done) = scan_state(src, n);
    if done {
        None
    } else {
        Some(lex_from(src, pos, line))
    }
}

/// Whether `ts` is the whole token stream of `src`: each token as the lexical
/// grammar gives it, up to and including end of input.
pub open spec fn token_stream(ts: Seq<Token>, src: Seq<u8>) -> bool {
    &&& tokens_from_start(ts, src)
    &&& nth_lexeme(src, ts.len()) is None
}

/// Whether `ts` are the first tokens of `src`, in order.
pub open spec fn tokens_from_start(ts: Seq<Token>, src: Seq<u8>) -> bool {
    forall|i: int|
        0 <= i < ts.len() ==> (nth_lexeme(src, i as nat) is Some) && token_matches(
            #[trigger] ts[i],
            src,
            nth_lexeme(src, i as nat)->Some_0,
        )
}

/// Lexing is deterministic: the token streams of two fresh scanners over equal
/// bytes are equal, token by token, kinds, texts, offsets and lines alike.
pub proof fn lemma_scanning_is_deterministic(a: Seq<u8>, b: Seq<u8>, ta: Seq<Token>, tb: Seq<Token>)
    requires
        a == b,
        token_stream(ta, a),
        token_stream(tb, b),
    ensures
        ta.len() == tb.len(),
        forall|i: int|
            0 <= i < ta.len() ==> {
                &&& (#[trigger] ta[i]).token_type == tb[i].token_type
                &&& ta[i].message@ == tb[i].message@
                &&& ta[i].start == tb[i].start
                &&& ta[i].line == tb[i].line
            },
{
    if ta.len() < tb.len() {
        let t = tb[ta.len() as int];
        assert(nth_lexeme(b, ta.len()) is Some);
    }
    if tb.len() < ta.len() {
        let t = ta[tb.len() as int];
        assert(nth_lexeme(a, tb.len()) is Some);
    }
    assert forall|i: int| 0 <= i < ta.len() implies {
        &&& (#[trigger] ta[i]).token_type == tb[i].token_type
        &&& ta[i].message@ == tb[i].message@
        &&& ta[i].start == tb[i].start
        &&& ta[i].line == tb[i].line
    } by {
        assert(token_matches(ta[i], a, nth_lexeme(a, i as nat)->Some_0));
        assert(token_matches(tb[i], b, nth_lexeme(b, i as nat)->Some_0));
    }
}

/// A fresh scanner stays within the source, and until it produces end of
/// input it has passed at least one byte per token.
pub proof fn lemma_scan_state_bounds(src: Seq<u8>, n: nat)
    ensures
        scan_state(src, n).0 <= src.len(),
        !scan_state(src, n).2 ==> n <= scan_state(src, n).0,
        scan_state(src, n).1 >= 1,
    decreases n,
{
    if n > 0 {
        lemma_scan_state_bounds(src, (n - 1) as nat);
        let (pos, line, done) = scan_state(src, (n - 1) as nat);
        if !done {
            lemma_lex_from_bounds(src, pos, line);
        }
    }
}

/// Once end of input has been produced, no further token comes.
pub proof fn lemma_scan_done_persists(src: Seq<u8>, n: nat, m: nat)
    requires
        n <= m,
        scan_state(src, n).2,
    ensures
        scan_state(src, m) == scan_state(src, n),
    decreases m - n,
{
    if n < m {
        lemma_scan_done_persists(src, n, (m - 1) as nat);
    }
}

/// A source of `len` bytes has at most `len + 1` tokens.
pub proof fn lemma_stream_ends(src: Seq<u8>, n: nat)
    requires
        n >= src.len() + 1,
    ensures
        nth_lexeme(src, n) is None,
        scan_state(src, n).2,
{
    lemma_scan_state_bounds(src, (src.len() + 1) as nat);
    lemma_scan_done_persists(src, (src.len() + 1) as nat, n);
}

/// A token that exists stands at an index no greater than the source length.
pub proof fn lemma_stream_ends_bound(src: Seq<u8>, n: nat)
    ensures
        nth_lexeme(src, n) is Some ==> n <= src.len(),
{
    if n >= src.len() + 1 {
        lemma_stream_ends(src, n);
    }
}

proof fn lemma_skip_blank(src: Seq<u8>, pos: nat, line: nat, in_comment: bool)
    requires
        pos <= src.len(),
    ensures
        pos <= skip_blank(src, pos, line, in_comment).0 <= src.len(),
        line <= skip_blank(src, pos, line, in_comment).1,
        skip_blank(src, pos, line, in_comment).1 - line <= skip_blank(src, pos, line, in_comment).0
            - pos,
    decreases src.len() - pos,
{
    if pos < src.len() {
        let c = src[pos as int];
        if in_comment {
            if c == '\n' as u8 {
                lemma_skip_blank(src, pos + 1, line + 1, false);
            } else {
                lemma_skip_blank(src, pos + 1, line, true);
            }
        } else if c == ' ' as u8 || c == '\r' as u8 || c == '\t' as u8 {
            lemma_skip_blank(src, pos + 1, line, false);
        } else if c == '\n' as u8 {
            lemma_skip_blank(src, pos + 1, line + 1, false);
        } else if c == '/' as u8 && pos + 1 < src.len() && src[pos + 1int] == '/' as u8 {
            lemma_skip_blank(src, pos + 2, line, true);
        }
    }
}

proof fn lemma_digits_end(src: Seq<u8>, pos: nat)
    requires
        pos <= src.len(),
    ensures
        pos <= digits_end(src, pos) <= src.len(),
    decreases src.len() - pos,
{
    if pos < src.len() && is_digit_byte(src[pos as int]) {
        lemma_digits_end(src, pos + 1);
    }
}

proof fn lemma_word_end(src: Seq<u8>, pos: nat)
    requires
        pos <= src.len(),
    ensures
        pos <= word_end(src, pos) <= src.len(),
    decreases src.len() - pos,
{
    if pos < src.len() && (is_alpha_byte(src[pos as int]) || is_digit_byte(src[pos as int])) {
        lemma_word_end(src, pos + 1);
    }
}

proof fn lemma_string_scan(src: Seq<u8>, pos: nat, line: nat)
    requires
        pos <= src.len(),
    ensures
        pos <= string_scan(src, pos, line).0 <= src.len(),
        line <= string_scan(src, pos, line).1,
        string_scan(src, pos, line).1 - line <= string_scan(src, pos, line).0 - pos,
        string_scan(src, pos, line).2 ==> pos < string_scan(src, pos, line).0,
    decreases src.len() - pos,
{
    if pos < src.len() && src[pos as int] != '"' as u8 {
        if src[pos as int] == '\n' as u8 {
            lemma_string_scan(src, pos + 1, line + 1);
        } else {
            lemma_string_scan(src, pos + 1, line);
        }
    }
}

/// The token found from `pos` lies within the source, after `pos`; it covers at
/// least one byte unless it is the end of input; it moves the line on by no
/// more than the bytes it passes over.
pub proof fn lemma_lex_from_bounds(src: Seq<u8>, pos: nat, line: nat)
    requires
        pos <= src.len(),
    ensures
        pos <= lex_from(src, pos, line).start <= lex_from(src, pos, line).end <= src.len(),
        lex_from(src, pos, line).kind != TokenType::TOKEN_EOF ==> lex_from(src, pos, line).start
            < lex_from(src, pos, line).end,
        lex_from(src, pos, line).kind == TokenType::TOKEN_EOF ==> lex_from(src, pos, line).end
            == src.len(),
        line <= lex_from(src, pos, line).line,
        lex_from(src, pos, line).line - line <= lex_from(src, pos, line).end - pos,
        lex_from(src, pos, line).kind == TokenType::TOKEN_STRING ==> lex_from(src, pos, line).start
            + 2 <= lex_from(src, pos, line).end,
{
    lemma_skip_blank(src, pos, line, false);
    let (p, l) = skip_blank(src, pos, line, false);
    if p < src.len() {
        let c = src[p as int];
        if is_digit_byte(c) {
            lemma_digits_end(src, p + 1);
            let e = digits_end(src, p);
            if e + 1 < src.len() && src[e as int] == '.' as u8 && is_digit_byte(src[e + 1int]) {
                lemma_digits_end(src, e + 1);
            }
        } else if is_alpha_byte(c) {
            lemma_word_end(src, p + 1);
        } else if c == '"' as u8 {
            lemma_string_scan(src, p + 1, l);
        }
    }
}

/// A scanner over a byte buffer: `start` is where the token being scanned
/// begins, `current` the next byte to read, `line` the line of `current`.
pub struct Scanner {
    pub source: Vec<u8>,
    pub start: usize,
    pub current: usize,
    pub line: usize,
    pub is_finished: bool,
}

impl Scanner {
    /// Positions stay within the buffer and the line count cannot overflow.
    pub open spec fn wf(&self) -> bool {
        &&& self.start <= self.current <= self.source.len()
        &&& 1 <= self.line <= self.current + 1
        &&& self.source.len() < usize::MAX
        &&& self.is_finished ==> self.current == self.source.len()
    }

    pub fn new(source: Vec<u8>) -> (r: Self)
        requires
            source.len() < usize::MAX,
        ensures
            r.source@ == source@,
            r.start == 0,
            r.current == 0,
            r.line == 1,
            !r.is_finished,
            r.wf(),
    {
        Scanner { source, start: 0, current: 0, line: 1, is_finished: false }
    }

    /// Scans the whole of `source`: every token up to and including end of
    /// input.
    pub fn scan_all(source: Vec<u8>) -> (r: Vec<Token>)
        requires
            source.len() < usize::MAX,
        ensures
            token_stream(r@, source@),
    {
        let ghost src = source@;
        let mut scanner = Scanner::new(source);
        let mut out: Vec<Token> = Vec::new();
        let mut done = false;
        while !done
            invariant
                scanner.wf(),
                scanner.source@ == src,
                (scanner.current as nat, scanner.line as nat, scanner.is_finished) == scan_state(
                    src,
                    out@.len(),
                ),
                tokens_from_start(out@, src),
                done ==> nth_lexeme(src, out@.len()) is None,
            decreases (src.len() - scanner.current) + (if scanner.is_finished {
                0int
            } else {
                1int
            }) + (if done {
                0int
            } else {
                1int
            }),
        {
            proof {
                lemma_lex_from_bounds(src, scanner.current as nat, scanner.line as nat);
            }
            let ghost n = out@.len();
            let ghost before = out@;
            proof {
                if !scanner.is_finished {
                    assert(nth_lexeme(src, n) == Some(
                        lex_from(src, scanner.current as nat, scanner.line as nat),
                    ));
                }
            }
            let r = scanner.scan_token();
            match r {
                Some(t) => {
                    out.push(t);
                },
                None => {
                    done = true;
                },
            }
            proof {
                if r is Some {
                    assert(out@ == before.push(r->Some_0));
                } else {
                    assert(out@ == before);
                }
                assert forall|i: int| 0 <= i < out@.len() implies (nth_lexeme(src, i as nat) is Some)
                    && token_matches(#[trigger] out@[i], src, nth_lexeme(src, i as nat)->Some_0) by {
                    if i < n {
                        assert(out@[i] == before[i]);
                    }
                }
                assert(tokens_from_start(out@, src));
            }
        }
        out
    }

    /// Returns the next token, or `None` once end of input has been returned.
    pub fn scan_token(&mut self) -> (r: Option<Token>)
        requires
            old(self).wf(),
        ensures
            final(self).wf(),
            final(self).source@ == old(self).source@,
            old(self).is_finished ==> r is None && final(self).current == old(self).current
                && final(self).line == old(self).line && final(self).is_finished,
            !old(self).is_finished ==> {
                let lx = lex_from(old(self).source@, old(self).current as nat, old(self).line as nat);
                &&& r is Some
                &&& token_matches(r->Some_0, old(self).source@, lx)
                &&& final(self).current == lx.end
                &&& final(self).line == lx.line
                &&& final(self).is_finished == (lx.kind == TokenType::TOKEN_EOF)
            },
    {
        if self.is_finished {
            return None;
        }
        proof {
            lemma_lex_from_bounds(self.source@, self.current as nat, self.line as nat);
        }
        self.skip_whitespace();
        if self.current == self.source.len() {
            self.is_finished = true;
            return Some(self.make_token(TokenType::TOKEN_EOF));
        }
        let c = self.source[self.current];
        if Self::is_digit(c) {
            return Some(self.number());
        }
        if Self::is_alpha(c) {
            return Some(self.identifier());
        }
        self.advance();
        if c == '"' as u8 {
            return Some(self.string());
        }
        let token_type = if c == '(' as u8 {
            TokenType::TOKEN_LEFT_PAREN
        } else if c == ')' as u8 {
            TokenType::TOKEN_RIGHT_PAREN
        } else if c == '{' as u8 {
            TokenType::TOKEN_LEFT_BRACE
        } else if c == '}' as u8 {
            TokenType::TOKEN_RIGHT_BRACE
        } else if c == ';' as u8 {
            TokenType::TOKEN_SEMICOLON
        } else if c == ',' as u8 {
            TokenType::TOKEN_COMMA
        } else if c == '.' as u8 {
            TokenType::TOKEN_DOT
        } else if c == '-' as u8 {
            TokenType::TOKEN_MINUS
        } else if c == '+' as u8 {
            TokenType::TOKEN_PLUS
        } else if c == '/' as u8 {
            TokenType::TOKEN_SLASH
        } else if c == '*' as u8 {
            TokenType::TOKEN_STAR
        } else if c == '!' as u8 {
            if self.match_token('=' as u8) {
                TokenType::TOKEN_BANG_EQUAL
            } else {
                TokenType::TOKEN_BANG
            }
        } else if c == '=' as u8 {
            if self.match_token('=' as u8) {
                TokenType::TOKEN_EQUAL_EQUAL
            } else {
                TokenType::TOKEN_EQUAL
            }
        } else if c == '<' as u8 {
            if self.match_token('=' as u8) {
                TokenType::TOKEN_LESS_EQUAL
            } else {
                TokenType::TOKEN_LESS
            }
        } else if c == '>' as u8 {
            if self.match_token('=' as u8) {
                TokenType::TOKEN_GREATER_EQUAL
            } else {
                TokenType::TOKEN_GREATER
            }
        } else {
            return Some(self.error_token("Unexpected character."));
        };
        Some(self.make_token(token_type))
    }

    fn advance(&mut self)
        requires
            old(self).wf(),
            old(self).current < old(self).source.len(),
        ensures
            *final(self) == (Scanner { current: (old(self).current + 1) as usize, ..*old(self) }),
    {
        self.current = self.current + 1;
    }

    /// Consumes the next byte where it is `expected`.
    fn match_token(&mut self, expected: u8) -> (r: bool)
        requires
            old(self).wf(),
        ensures
            r == (old(self).current < old(self).source.len()
                && old(self).source@[old(self).current as int] == expected),
            *final(self) == (Scanner {
                current: if r { (old(self).current + 1) as usize } else { old(self).current },
                ..*old(self)
            }),
    {
        if self.current < self.source.len() && self.source[self.current] == expected {
            self.current = self.current + 1;
            true
        } else {
            false
        }
    }

    fn make_token(&self, token_type: TokenType) -> (r: Token)
        requires
            self.wf(),
        ensures
            r.token_type == token_type,
            r.start == self.start,
            r.line == self.line,
            r.message@ == utf8_lossy(self.source@.subrange(self.start as int, self.current as int)),
    {
        let bytes = vstd::slice::slice_subrange(self.source.as_slice(), self.start, self.current);
        Token::new(token_type, text_of(bytes), self.start, self.line)
    }

    fn error_token(&self, message: &str) -> (r: Token)
        ensures
            r.token_type == TokenType::TOKEN_ERROR,
            r.start == self.start,
            r.line == self.line,
            r.message@ == message@,
    {
        Token::new(TokenType::TOKEN_ERROR, message.to_string(), self.start, self.line)
    }

    fn skip_whitespace(&mut self)
        requires
            old(self).wf(),
            !old(self).is_finished,
        ensures
            final(self).wf(),
            final(self).source@ == old(self).source@,
            !final(self).is_finished,
            final(self).start == final(self).current,
            (final(self).current as nat, final(self).line as nat) == skip_blank(
                old(self).source@,
                old(self).current as nat,
                old(self).line as nat,
                false,
            ),
    {
        let len = self.source.len();
        let mut in_comment = false;
        let mut scanning = true;
        while scanning && self.current < len
            invariant
                len == self.source.len(),
                self.source@ == old(self).source@,
                !self.is_finished,
                self.current <= len,
                1 <= self.line <= self.current + 1,
                self.source.len() < usize::MAX,
                old(self).start <= self.current,
                self.start == old(self).start,
                skip_blank(self.source@, self.current as nat, self.line as nat, in_comment)
                    == skip_blank(self.source@, old(self).current as nat, old(self).line as nat, false),
                !scanning ==> !in_comment && skip_blank(
                    self.source@,
                    self.current as nat,
                    self.line as nat,
                    false,
                ) == (self.current as nat, self.line as nat),
            decreases len - self.current + (if scanning { 1int } else { 0int }),
        {
            let c = self.source[self.current];
            if in_comment {
                if c == '\n' as u8 {
                    self.line = self.line + 1;
                    in_comment = false;
                }
                self.current = self.current + 1;
            } else if c == ' ' as u8 || c == '\r' as u8 || c == '\t' as u8 {
                self.current = self.current + 1;
            } else if c == '\n' as u8 {
                self.line = self.line + 1;
                self.current = self.current + 1;
            } else if c == '/' as u8 && self.current + 1 < len && self.source[self.current + 1] == '/' as u8 {
                self.current = self.current + 2;
                in_comment = true;
            } else {
                scanning = false;
            }
        }
        self.start = self.current;
    }

    fn skip_digits(&mut self)
        requires
            old(self).wf(),
        ensures
            *final(self) == (Scanner {
                current: digits_end(old(self).source@, old(self).current as nat) as usize,
                ..*old(self)
            }),
    {
        let len = self.source.len();
        while self.current < len && Self::is_digit(self.source[self.current])
            invariant
                len == self.source.len(),
                old(self).current <= self.current <= len,
                *self == (Scanner { current: self.current, ..*old(self) }),
                digits_end(self.source@, self.current as nat) == digits_end(
                    self.source@,
                    old(self).current as nat,
                ),
            decreases len - self.current,
        {
            self.current = self.current + 1;
        }
    }

    fn string(&mut self) -> (r: Token)
        requires
            old(self).wf(),
            old(self).start < old(self).current,
            old(self).source@[old(self).start as int] == '"' as u8,
            old(self).current == old(self).start + 1,
            !old(self).is_finished,
        ensures
            final(self).wf(),
            final(self).source@ == old(self).source@,
            !final(self).is_finished,
            ({
                let (e, l, closed) = string_scan(
                    old(self).source@,
                    old(self).current as nat,
                    old(self).line as nat,
                );
                let lx = Lexeme {
                    kind: if closed { TokenType::TOKEN_STRING } else { TokenType::TOKEN_ERROR },
                    start: old(self).start as nat,
                    end: e,
                    line: l,
                };
                &&& token_matches(r, old(self).source@, lx)
                &&& final(self).current == e
                &&& final(self).line == l
            }),
    {
        proof {
            lemma_string_scan(self.source@, self.current as nat, self.line as nat);
        }
        let len = self.source.len();
        while self.current < len && self.source[self.current] != '"' as u8
            invariant
                len == self.source.len(),
                self.source@ == old(self).source@,
                !self.is_finished,
                self.start == old(self).start,
                old(self).current <= self.current <= len,
                1 <= self.line <= self.current + 1,
                self.source.len() < usize::MAX,
                string_scan(self.source@, self.current as nat, self.line as nat) == string_scan(
                    self.source@,
                    old(self).current as nat,
                    old(self).line as nat,
                ),
            decreases len - self.current,
        {
            if self.source[self.current] == '\n' as u8 {
                self.line = self.line + 1;
            }
            self.current = self.current + 1;
        }
        if self.current == len {
            return self.error_token("Unterminated string.");
        }
        self.current = self.current + 1;
        self.make_token(TokenType::TOKEN_STRING)
    }

    fn number(&mut self) -> (r: Token)
        requires
            old(self).wf(),
            old(self).start == old(self).current,
            old(self).current < old(self).source.len(),
            is_digit_byte(old(self).source@[old(self).current as int]),
            !old(self).is_finished,
        ensures
            final(self).wf(),
            final(self).source@ == old(self).source@,
            !final(self).is_finished,
            ({
                let lx = Lexeme {
                    kind: TokenType::TOKEN_NUMBER,
                    start: old(self).start as nat,
                    end: number_end(old(self).source@, old(self).current as nat),
                    line: old(self).line as nat,
                };
                &&& token_matches(r, old(self).source@, lx)
                &&& final(self).current == lx.end
                &&& final(self).line == lx.line
            }),
    {
        proof {
            lemma_digits_end(self.source@, self.current as nat);
        }
        self.skip_digits();
        let len = self.source.len();
        if self.current + 1 < len && self.source[self.current] == '.' as u8 && Self::is_digit(
            self.source[self.current + 1],
        ) {
            self.current = self.current + 1;
            proof {
                lemma_digits_end(self.source@, self.current as nat);
            }
            self.skip_digits();
        }
        self.make_token(TokenType::TOKEN_NUMBER)
    }

    fn identifier(&mut self) -> (r: Token)
        requires
            old(self).wf(),
            old(self).start == old(self).current,
            old(self).current < old(self).source.len(),
            is_alpha_byte(old(self).source@[old(self).current as int]),
            !old(self).is_finished,
        ensures
            final(self).wf(),
            final(self).source@ == old(self).source@,
            !final(self).is_finished,
            ({
                let e = word_end(old(self).source@, old(self).current as nat);
                let lx = Lexeme {
                    kind: keyword_kind(
                        old(self).source@.subrange(old(self).current as int, e as int),
                    ),
                    start: old(self).start as nat,
                    end: e,
                    line: old(self).line as nat,
                };
                &&& token_matches(r, old(self).source@, lx)
                &&& final(self).current == lx.end
                &&& final(self).line == lx.line
            }),
    {
        proof {
            lemma_word_end(self.source@, self.current as nat);
            lemma_word_end(self.source@, (self.current + 1) as nat);
        }
        let len = self.source.len();
        while self.current < len && (Self::is_alpha(self.source[self.current]) || Self::is_digit(
            self.source[self.current],
        ))
            invariant
                len == self.source.len(),
                old(self).current <= self.current <= len,
                *self == (Scanner { current: self.current, ..*old(self) }),
                word_end(self.source@, self.current as nat) == word_end(
                    self.source@,
                    old(self).current as nat,
                ),
            decreases len - self.current,
        {
            self.current = self.current + 1;
        }
        let token_type = self.identifier_type();
        self.make_token(token_type)
    }

    /// The kind of the word `start..current`.
    fn identifier_type(&self) -> (r: TokenType)
        requires
            self.wf(),
            self.start < self.current,
        ensures
            r == keyword_kind(self.source@.subrange(self.start as int, self.current as int)),
    {
        let c = self.source[self.start];
        if c == 'a' as u8 {
            self.check_keyword(vec!['a' as u8, 'n' as u8, 'd' as u8], TokenType::TOKEN_AND)
        } else if c == 'c' as u8 {
            self.check_keyword(vec!['c' as u8, 'l' as u8, 'a' as u8, 's' as u8, 's' as u8], TokenType::TOKEN_CLASS)
        } else if c == 'e' as u8 {
            self.check_keyword(vec!['e' as u8, 'l' as u8, 's' as u8, 'e' as u8], TokenType::TOKEN_ELSE)
        } else if c == 'f' as u8 {
            let k = self.check_keyword(vec!['f' as u8, 'a' as u8, 'l' as u8, 's' as u8, 'e' as u8], TokenType::TOKEN_FALSE);
            if k != TokenType::TOKEN_IDENTIFIER {
                return k;
            }
            let k = self.check_keyword(vec!['f' as u8, 'o' as u8, 'r' as u8], TokenType::TOKEN_FOR);
            if k != TokenType::TOKEN_IDENTIFIER {
                return k;
            }
            self.check_keyword(vec!['f' as u8, 'u' as u8, 'n' as u8], TokenType::TOKEN_FUN)
        } else if c == 'i' as u8 {
            self.check_keyword(vec!['i' as u8, 'f' as u8], TokenType::TOKEN_IF)
        } else if c == 'n' as u8 {
            self.check_keyword(vec!['n' as u8, 'i' as u8, 'l' as u8], TokenType::TOKEN_NIL)
        } else if c == 'o' as u8 {
            self.check_keyword(vec!['o' as u8, 'r' as u8], TokenType::TOKEN_OR)
        } else if c == 'p' as u8 {
            self.check_keyword(vec!['p' as u8, 'r' as u8, 'i' as u8, 'n' as u8, 't' as u8], TokenType::TOKEN_PRINT)
        } else if c == 'r' as u8 {
            self.check_keyword(vec!['r' as u8, 'e' as u8, 't' as u8, 'u' as u8, 'r' as u8, 'n' as u8], TokenType::TOKEN_RETURN)
        } else if c == 's' as u8 {
            self.check_keyword(vec!['s' as u8, 'u' as u8, 'p' as u8, 'e' as u8, 'r' as u8], TokenType::TOKEN_SUPER)
        } else if c == 't' as u8 {
            let k = self.check_keyword(vec!['t' as u8, 'h' as u8, 'i' as u8, 's' as u8], TokenType::TOKEN_THIS);
            if k != TokenType::TOKEN_IDENTIFIER {
                return k;
            }
            self.check_keyword(vec!['t' as u8, 'r' as u8, 'u' as u8, 'e' as u8], TokenType::TOKEN_TRUE)
        } else if c == 'v' as u8 {
            self.check_keyword(vec!['v' as u8, 'a' as u8, 'r' as u8], TokenType::TOKEN_VAR)
        } else if c == 'w' as u8 {
            self.check_keyword(vec!['w' as u8, 'h' as u8, 'i' as u8, 'l' as u8, 'e' as u8], TokenType::TOKEN_WHILE)
        } else {
            TokenType::TOKEN_IDENTIFIER
        }
    }

    /// `token_type` where the word `start..current` is exactly `word`, else an
    /// identifier.
    fn check_keyword(&self, word: Vec<u8>, token_type: TokenType) -> (r: TokenType)
        requires
            self.wf(),
        ensures
            r == if self.source@.subrange(self.start as int, self.current as int) == word@ {
                token_type
            } else {
                TokenType::TOKEN_IDENTIFIER
            },
    {
        let length = self.current - self.start;
        if length != word.len() {
            proof {
                assert(self.source@.subrange(self.start as int, self.current as int).len()
                    != word@.len());
            }
            return TokenType::TOKEN_IDENTIFIER;
        }
        let mut i: usize = 0;
        while i < length
            invariant
                length == self.current - self.start,
                length == word.len(),
                self.wf(),
                i <= length,
                forall|j: int|
                    0 <= j < i ==> self.source@[self.start + j] == #[trigger] word@[j],
            decreases length - i,
        {
            if self.source[self.start + i] != word[i] {
                proof {
                    assert(self.source@.subrange(self.start as int, self.current as int)[i as int]
                        != word@[i as int]);
                }
                return TokenType::TOKEN_IDENTIFIER;
            }
            i = i + 1;
        }
        proof {
            assert(self.source@.subrange(self.start as int, self.current as int) =~= word@);
        }
        token_type
    }

    pub fn is_digit(c: u8) -> (r: bool)
        ensures
            r == is_digit_byte(c),
    {
        '0' as u8 <= c && c <= '9' as u8
    }

    pub fn is_alpha(c: u8) -> (r: bool)
        ensures
            r == is_alpha_byte(c),
    {
        ('a' as u8 <= c && c <= 'z' as u8) || ('A' as u8 <= c && c <= 'Z' as u8)
    }
}

} // verus!
