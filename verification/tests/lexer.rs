use bfc::lexer::{Error, Token, TokenType, Tokenizer};

fn chars(s: &str) -> Vec<char> {
    s.chars().collect()
}

fn tok(token_type: TokenType, line: i32, pos: i32) -> Token {
    Token { token_type, line, pos }
}

#[test]
fn fresh_tokenizer_starts_at_line_one_column_zero() {
    let t = Tokenizer::new(chars("+"));
    assert_eq!(t.pos(), 0);
    assert_eq!(t.line(), 1);
    assert!(t.tokens.is_empty());
}

#[test]
fn every_instruction_character_maps_to_its_kind() {
    let mut t = Tokenizer::new(chars("><+-.,[]"));
    assert!(t.lex().is_ok());
    let expected = vec![
        tok(TokenType::IncPtr, 1, 0),
        tok(TokenType::DecPtr, 1, 1),
        tok(TokenType::IncByte, 1, 2),
        tok(TokenType::DecByte, 1, 3),
        tok(TokenType::WriteByte, 1, 4),
        tok(TokenType::ReadByte, 1, 5),
        tok(TokenType::LoopStart, 1, 6),
        tok(TokenType::LoopEnd, 1, 7),
        tok(TokenType::EOF, 2, 1),
    ];
    assert_eq!(t.tokens, expected);
}

#[test]
fn newlines_advance_the_line_and_reset_the_column_without_a_token() {
    let mut t = Tokenizer::new(chars("+\n\n-+"));
    assert!(t.lex().is_ok());
    let expected = vec![
        tok(TokenType::IncByte, 1, 0),
        tok(TokenType::DecByte, 3, 0),
        tok(TokenType::IncByte, 3, 1),
        tok(TokenType::EOF, 4, 1),
    ];
    assert_eq!(t.tokens, expected);
    for token in &t.tokens {
        assert_ne!(token.token_type, TokenType::NewLine);
    }
}

#[test]
fn empty_source_lexes_to_end_of_input_only() {
    let mut t = Tokenizer::new(chars(""));
    assert!(t.lex().is_ok());
    assert_eq!(t.tokens, vec![tok(TokenType::EOF, 2, 1)]);
}

#[test]
fn invalid_character_is_reported_with_its_column_and_line() {
    let mut t = Tokenizer::new(chars("+a"));
    assert_eq!(t.lex(), Err(Error::InvalidCharacter('a', 1, 1)));
}

#[test]
fn space_is_not_a_comment_and_fails_at_once() {
    let mut t = Tokenizer::new(chars(" +"));
    assert_eq!(t.lex(), Err(Error::InvalidCharacter(' ', 0, 1)));
}

#[test]
fn invalid_character_after_newline_reports_the_later_line() {
    let mut t = Tokenizer::new(chars("++\nx+"));
    assert_eq!(t.lex(), Err(Error::InvalidCharacter('x', 0, 2)));
}

#[test]
fn loop_close_alone_still_lexes() {
    let mut t = Tokenizer::new(chars("]"));
    assert!(t.lex().is_ok());
    assert_eq!(
        t.tokens,
        vec![tok(TokenType::LoopEnd, 1, 0), tok(TokenType::EOF, 2, 1)]
    );
}
