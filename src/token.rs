use vstd::prelude::*;

verus! {

/// The closed set of token kinds produced by the scanner.
#[derive(Clone, Copy, Debug, PartialEq, Eq, Structural)]
pub enum TokenType {
    // Single-character tokens.
    TOKEN_LEFT_PAREN,
    TOKEN_RIGHT_PAREN,
    TOKEN_LEFT_BRACE,
    TOKEN_RIGHT_BRACE,
    TOKEN_COMMA,
    TOKEN_DOT,
    TOKEN_MINUS,
    TOKEN_PLUS,
    TOKEN_SEMICOLON,
    TOKEN_SLASH,
    TOKEN_STAR,
    // One or two character tokens.
    TOKEN_BANG,
    TOKEN_BANG_EQUAL,
    TOKEN_EQUAL,
    TOKEN_EQUAL_EQUAL,
    TOKEN_GREATER,
    TOKEN_GREATER_EQUAL,
    TOKEN_LESS,
    TOKEN_LESS_EQUAL,
    // Literals.
    TOKEN_IDENTIFIER,
    TOKEN_STRING,
    TOKEN_NUMBER,
    // Keywords.
    TOKEN_AND,
    TOKEN_CLASS,
    TOKEN_ELSE,
    TOKEN_FALSE,
    TOKEN_FOR,
    TOKEN_FUN,
    TOKEN_IF,
    TOKEN_NIL,
    TOKEN_OR,
    TOKEN_PRINT,
    TOKEN_RETURN,
    TOKEN_SUPER,
    TOKEN_THIS,
    TOKEN_TRUE,
    TOKEN_VAR,
    TOKEN_WHILE,
    // Sentinels.
    TOKEN_ERROR,
    TOKEN_EOF,
}

/// One token: its kind, its text (the source slice, or a message for an
/// error token), the byte offset where it starts and its source line.
#[derive(Clone, Debug)]
pub struct Token {
    pub token_type: TokenType,
    pub message: String,
    pub start: usize,
    pub line: usize,
}

impl Token {
    pub fn new(token_type: TokenType, message: String, start: usize, line: usize) -> (r: Self)
        ensures
            r.token_type == token_type,
            r.message@ == message@,
            r.start == start,
            r.line == line,
    {
        Token { token_type, message, start, line }
    }
}

impl PartialEq for Token {
    fn eq(&self, other: &Token) -> (r: bool) {
        self.token_type == other.token_type && self.message == other.message && self.start
            == other.start && self.line == other.line
    }
}

impl vstd::std_specs::cmp::PartialEqSpecImpl for Token {
    open spec fn obeys_eq_spec() -> bool {
        true
    }

    open spec fn eq_spec(&self, other: &Token) -> bool {
        &&& self.token_type == other.token_type
        &&& self.message@ == other.message@
        &&& self.start == other.start
        &&& self.line == other.line
    }
}

} // verus!
