use rs_regex::scanner::Scanner;
use rs_regex::tokens::{Token, TokenType};

#[test]
fn scanner_concat_token() {
    let regex = "abc";
    let mut scanner = Scanner::new(regex.to_string());

    let token_a = Token::new(TokenType::Char, 'a' as u8);
    let token_b = Token::new(TokenType::Char, 'b' as u8);
    let token_c = Token::new(TokenType::Char, 'c' as u8);
    let token_eof = Token::new(TokenType::EOF, 0xff);

    let result = scanner.get_next_token();
    assert_eq!(result, token_a);

    let result = scanner.get_next_token();
    assert_eq!(result, token_b);

    let result = scanner.get_next_token();
    assert_eq!(result, token_c);

    let result = scanner.get_next_token();
    assert_eq!(result, token_eof);
}

#[test]
fn scanner_closure_tokens() {
    let regex = "a*b";
    let mut scanner = Scanner::new(regex.to_string());
    let token_a = Token::new(TokenType::Char, 'a' as u8);
    let token_star = Token::new(TokenType::Star, '*' as u8);
    let token_b = Token::new(TokenType::Char, 'b' as u8);
    let token_eof = Token::new(TokenType::EOF, 0xff);

    let result = scanner.get_next_token();
    assert_eq!(result, token_a);

    let result = scanner.get_next_token();
    assert_eq!(result, token_star);

    let result = scanner.get_next_token();
    assert_eq!(result, token_b);

    let result = scanner.get_next_token();
    assert_eq!(result, token_eof);
}

#[test]
fn scanner_group_and_union_tokens() {
    let regex = "a(b|a)";
    let mut scanner = Scanner::new(regex.to_string());
    let token_a = Token::new(TokenType::Char, 'a' as u8);
    let token_lparen = Token::new(TokenType::LeftParen, '(' as u8);
    let token_b = Token::new(TokenType::Char, 'b' as u8);
    let token_union = Token::new(TokenType::Union, '|' as u8);
    let token_rparen = Token::new(TokenType::RightParen, ')' as u8);
    let token_eof = Token::new(TokenType::EOF, 0xff);

    let result = scanner.get_next_token();
    assert_eq!(result, token_a);

    let result = scanner.get_next_token();
    assert_eq!(result, token_lparen);

    let result = scanner.get_next_token();
    assert_eq!(result, token_b);

    let result = scanner.get_next_token();
    assert_eq!(result, token_union);

    let result = scanner.get_next_token();
    assert_eq!(result, token_a);

    let result = scanner.get_next_token();
    assert_eq!(result, token_rparen);

    let result = scanner.get_next_token();
    assert_eq!(result, token_eof);
}

#[test]
fn scanner_escape_token() {
    let regex = "\\*a";
    let mut scanner = Scanner::new(regex.to_string());
    let token_star_literal = Token::new(TokenType::Char, '*' as u8);
    let token_a = Token::new(TokenType::Char, 'a' as u8);
    let token_eof = Token::new(TokenType::EOF, 0xff);

    assert_eq!(scanner.get_next_token(), token_star_literal);
    assert_eq!(scanner.get_next_token(), token_a);
    assert_eq!(scanner.get_next_token(), token_eof);
}

#[test]
fn scanner_trailing_backslash_is_surfaced() {
    // A malformed escape at the end of the pattern yields the out-of-band
    // NoOp token, which no grammar production accepts, rather than being
    // silently dropped.
    let regex = "a\\";
    let mut scanner = Scanner::new(regex.to_string());
    assert_eq!(scanner.get_next_token(), Token::new(TokenType::Char, 'a' as u8));
    assert_eq!(scanner.get_next_token().type_, TokenType::NoOp);
    assert_eq!(scanner.get_next_token().type_, TokenType::EOF);
}
