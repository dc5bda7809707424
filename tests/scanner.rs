use rlox::compiler::scanner::Scanner;
use rlox::token::{Token, TokenType};

fn assert_token(
    scanner: &mut Scanner,
    token_type: TokenType,
    token_message: &str,
    start_buffer: usize,
    line: usize,
) {
    let token = scanner.scan_token();
    assert!(token.is_some());

    let token = token.unwrap();
    assert_eq!(token.token_type, token_type);
    assert_eq!(token.message, token_message.to_string());
    assert_eq!(token.start, start_buffer);
    assert_eq!(token.line, line);
}

fn all_tokens(source: &str) -> Vec<Token> {
    let mut scanner = Scanner::new(source.to_string().into_bytes());
    let mut tokens = Vec::new();
    while let Some(token) = scanner.scan_token() {
        tokens.push(token);
    }
    tokens
}

#[test]
fn assign_should_succeed() {
    let source = "var x = 5".to_string().into_bytes();
    let mut scanner = Scanner::new(source);

    assert_token(&mut scanner, TokenType::TOKEN_VAR, "var", 0, 1);
    assert_token(&mut scanner, TokenType::TOKEN_IDENTIFIER, "x", 4, 1);
    assert_token(&mut scanner, TokenType::TOKEN_EQUAL, "=", 6, 1);
    assert_token(&mut scanner, TokenType::TOKEN_NUMBER, "5", 8, 1);
    assert_token(&mut scanner, TokenType::TOKEN_EOF, "", 9, 1);
}

#[test]
fn string_should_succeed() {
    let source = r#"var x = "string""#.to_string().into_bytes();
    let mut scanner = Scanner::new(source);

    assert_token(&mut scanner, TokenType::TOKEN_VAR, "var", 0, 1);
    assert_token(&mut scanner, TokenType::TOKEN_IDENTIFIER, "x", 4, 1);
    assert_token(&mut scanner, TokenType::TOKEN_EQUAL, "=", 6, 1);
    assert_token(&mut scanner, TokenType::TOKEN_STRING, r#""string""#, 8, 1);
    assert_token(&mut scanner, TokenType::TOKEN_EOF, "", 16, 1);
}

#[test]
fn boolean_should_succeed() {
    let source = "true".to_string().into_bytes();
    let mut scanner = Scanner::new(source);

    assert_token(&mut scanner, TokenType::TOKEN_TRUE, "true", 0, 1);
    assert_token(&mut scanner, TokenType::TOKEN_EOF, "", 4, 1);

    let source = "false".to_string().into_bytes();
    let mut scanner = Scanner::new(source);

    assert_token(&mut scanner, TokenType::TOKEN_FALSE, "false", 0, 1);
    assert_token(&mut scanner, TokenType::TOKEN_EOF, "", 5, 1);

    let source = "!false".to_string().into_bytes();
    let mut scanner = Scanner::new(source);

    assert_token(&mut scanner, TokenType::TOKEN_BANG, "!", 0, 1);
    assert_token(&mut scanner, TokenType::TOKEN_FALSE, "false", 1, 1);
    assert_token(&mut scanner, TokenType::TOKEN_EOF, "", 6, 1);
}

#[test]
fn print_should_succeed() {
    let source = "print 5".to_string().into_bytes();
    let mut scanner = Scanner::new(source);

    assert_token(&mut scanner, TokenType::TOKEN_PRINT, "print", 0, 1);
    assert_token(&mut scanner, TokenType::TOKEN_NUMBER, "5", 6, 1);
}

#[test]
fn newline_should_succeed() {
    let source = "\n3".to_string().into_bytes();
    let mut scanner = Scanner::new(source);

    assert_token(&mut scanner, TokenType::TOKEN_NUMBER, "3", 1, 2);
}

#[test]
fn end_of_input_is_produced_once() {
    let mut scanner = Scanner::new(b"  ".to_vec());
    assert_token(&mut scanner, TokenType::TOKEN_EOF, "", 2, 1);
    assert!(scanner.scan_token().is_none());
    assert!(scanner.scan_token().is_none());
}

#[test]
fn empty_source_gives_end_of_input() {
    let mut scanner = Scanner::new(Vec::new());
    assert_token(&mut scanner, TokenType::TOKEN_EOF, "", 0, 1);
    assert!(scanner.scan_token().is_none());
}

#[test]
fn keywords_match_whole_words_only() {
    let mut scanner = Scanner::new(b"and android or orchid fun funnel this thistle nil".to_vec());
    assert_token(&mut scanner, TokenType::TOKEN_AND, "and", 0, 1);
    assert_token(&mut scanner, TokenType::TOKEN_IDENTIFIER, "android", 4, 1);
    assert_token(&mut scanner, TokenType::TOKEN_OR, "or", 12, 1);
    assert_token(&mut scanner, TokenType::TOKEN_IDENTIFIER, "orchid", 15, 1);
    assert_token(&mut scanner, TokenType::TOKEN_FUN, "fun", 22, 1);
    assert_token(&mut scanner, TokenType::TOKEN_IDENTIFIER, "funnel", 26, 1);
    assert_token(&mut scanner, TokenType::TOKEN_THIS, "this", 33, 1);
    assert_token(&mut scanner, TokenType::TOKEN_IDENTIFIER, "thistle", 38, 1);
    assert_token(&mut scanner, TokenType::TOKEN_NIL, "nil", 46, 1);
    assert_token(&mut scanner, TokenType::TOKEN_EOF, "", 49, 1);
}

#[test]
fn every_reserved_word_is_recognised() {
    let words = [
        ("and", TokenType::TOKEN_AND),
        ("class", TokenType::TOKEN_CLASS),
        ("else", TokenType::TOKEN_ELSE),
        ("false", TokenType::TOKEN_FALSE),
        ("for", TokenType::TOKEN_FOR),
        ("fun", TokenType::TOKEN_FUN),
        ("if", TokenType::TOKEN_IF),
        ("nil", TokenType::TOKEN_NIL),
        ("or", TokenType::TOKEN_OR),
        ("print", TokenType::TOKEN_PRINT),
        ("return", TokenType::TOKEN_RETURN),
        ("super", TokenType::TOKEN_SUPER),
        ("this", TokenType::TOKEN_THIS),
        ("true", TokenType::TOKEN_TRUE),
        ("var", TokenType::TOKEN_VAR),
        ("while", TokenType::TOKEN_WHILE),
    ];
    for (word, kind) in words {
        let mut scanner = Scanner::new(word.as_bytes().to_vec());
        assert_token(&mut scanner, kind, word, 0, 1);
    }
}

#[test]
fn operators_of_one_and_two_characters() {
    let tokens = all_tokens("! != = == < <= > >= ( ) { } , . - + ; / *");
    let kinds: Vec<TokenType> = tokens.iter().map(|t| t.token_type).collect();
    assert_eq!(
        kinds,
        vec![
            TokenType::TOKEN_BANG,
            TokenType::TOKEN_BANG_EQUAL,
            TokenType::TOKEN_EQUAL,
            TokenType::TOKEN_EQUAL_EQUAL,
            TokenType::TOKEN_LESS,
            TokenType::TOKEN_LESS_EQUAL,
            TokenType::TOKEN_GREATER,
            TokenType::TOKEN_GREATER_EQUAL,
            TokenType::TOKEN_LEFT_PAREN,
            TokenType::TOKEN_RIGHT_PAREN,
            TokenType::TOKEN_LEFT_BRACE,
            TokenType::TOKEN_RIGHT_BRACE,
            TokenType::TOKEN_COMMA,
            TokenType::TOKEN_DOT,
            TokenType::TOKEN_MINUS,
            TokenType::TOKEN_PLUS,
            TokenType::TOKEN_SEMICOLON,
            TokenType::TOKEN_SLASH,
            TokenType::TOKEN_STAR,
            TokenType::TOKEN_EOF,
        ]
    );
    assert_eq!(tokens[1].message, "!=");
}

#[test]
fn comments_and_newlines_are_skipped() {
    let mut scanner = Scanner::new(b"1 // two\n// three\n  4 / 5".to_vec());
    assert_token(&mut scanner, TokenType::TOKEN_NUMBER, "1", 0, 1);
    assert_token(&mut scanner, TokenType::TOKEN_NUMBER, "4", 20, 3);
    assert_token(&mut scanner, TokenType::TOKEN_SLASH, "/", 22, 3);
    assert_token(&mut scanner, TokenType::TOKEN_NUMBER, "5", 24, 3);
    assert_token(&mut scanner, TokenType::TOKEN_EOF, "", 25, 3);
}

#[test]
fn number_with_fraction_and_trailing_dot() {
    let mut scanner = Scanner::new(b"12.5 7. 3".to_vec());
    assert_token(&mut scanner, TokenType::TOKEN_NUMBER, "12.5", 0, 1);
    assert_token(&mut scanner, TokenType::TOKEN_NUMBER, "7", 5, 1);
    assert_token(&mut scanner, TokenType::TOKEN_DOT, ".", 6, 1);
    assert_token(&mut scanner, TokenType::TOKEN_NUMBER, "3", 8, 1);
}

#[test]
fn string_spanning_lines_counts_them() {
    let mut scanner = Scanner::new(b"\"a\nb\" x".to_vec());
    assert_token(&mut scanner, TokenType::TOKEN_STRING, "\"a\nb\"", 0, 2);
    assert_token(&mut scanner, TokenType::TOKEN_IDENTIFIER, "x", 6, 2);
}

#[test]
fn unterminated_string_is_an_error_token() {
    let mut scanner = Scanner::new(b"1 \"abc".to_vec());
    assert_token(&mut scanner, TokenType::TOKEN_NUMBER, "1", 0, 1);
    assert_token(&mut scanner, TokenType::TOKEN_ERROR, "Unterminated string.", 2, 1);
    assert_token(&mut scanner, TokenType::TOKEN_EOF, "", 6, 1);
}

#[test]
fn unexpected_character_is_an_error_token() {
    let mut scanner = Scanner::new(b"1 @ 2".to_vec());
    assert_token(&mut scanner, TokenType::TOKEN_NUMBER, "1", 0, 1);
    assert_token(&mut scanner, TokenType::TOKEN_ERROR, "Unexpected character.", 2, 1);
    assert_token(&mut scanner, TokenType::TOKEN_NUMBER, "2", 4, 1);
}

#[test]
fn identifiers_take_letters_and_digits_only() {
    let mut scanner = Scanner::new(b"a1 b_2".to_vec());
    assert_token(&mut scanner, TokenType::TOKEN_IDENTIFIER, "a1", 0, 1);
    assert_token(&mut scanner, TokenType::TOKEN_IDENTIFIER, "b", 3, 1);
    assert_token(&mut scanner, TokenType::TOKEN_ERROR, "Unexpected character.", 4, 1);
    assert_token(&mut scanner, TokenType::TOKEN_NUMBER, "2", 5, 1);
    let mut scanner = Scanner::new(b"_".to_vec());
    assert_token(&mut scanner, TokenType::TOKEN_ERROR, "Unexpected character.", 0, 1);
}

#[test]
fn non_ascii_string_text_is_kept() {
    let mut scanner = Scanner::new("\"héllo\"".as_bytes().to_vec());
    assert_token(&mut scanner, TokenType::TOKEN_STRING, "\"héllo\"", 0, 1);
}

#[test]
fn scan_all_returns_the_whole_stream() {
    let tokens = Scanner::scan_all(b"1 + x".to_vec());
    let kinds: Vec<TokenType> = tokens.iter().map(|t| t.token_type).collect();
    assert_eq!(
        kinds,
        vec![
            TokenType::TOKEN_NUMBER,
            TokenType::TOKEN_PLUS,
            TokenType::TOKEN_IDENTIFIER,
            TokenType::TOKEN_EOF
        ]
    );
    assert_eq!(tokens[2].start, 4);
    assert_eq!(Scanner::scan_all(Vec::new()).len(), 1);
}

#[test]
fn fresh_scanners_on_equal_bytes_agree() {
    let source = "!(5 - 4 > 3 * 2 == !nil)\n\"st\" + \"ri\" // c\n @ 1.5";
    let first = all_tokens(source);
    let second = all_tokens(source);
    assert_eq!(first.len(), second.len());
    assert!(first == second);
    assert_eq!(first.last().unwrap().token_type, TokenType::TOKEN_EOF);
    let third = Scanner::scan_all(source.as_bytes().to_vec());
    let fourth = Scanner::scan_all(source.as_bytes().to_vec());
    assert!(third == fourth);
    assert!(first == third);
}
