use rs_regex::ast::Node;
use rs_regex::scanner::Scanner;
use rs_regex::tokens::TokenType;
use rs_regex::parser::Parser;

#[test]
fn expr() {
    let regex = "(b|a)*".to_string();
    let scanner = Scanner::new(regex);
    let mut parser = Parser::new(scanner);
    let nfa = parser.expr();
    assert!(nfa.is_ok());
}

#[test]
fn subexpr() {
    let regex = "b|c".to_string();
    let scanner = Scanner::new(regex);
    let mut parser = Parser::new(scanner);
    let node = parser.subexpr().unwrap();
    match node {
        Node::Union { left: _, right: _ } => assert!(true),
        _ => assert!(false),
    }
}

#[test]
fn subseq() {
    let regex = "ab".to_string();
    let scanner = Scanner::new(regex);
    let mut parser = Parser::new(scanner);
    let node = parser.subseq().unwrap();
    match node {
        Node::Concat { left: _, right: _ } => assert!(true),
        _ => assert!(false),
    }
}

#[test]
fn seq() {
    let regex = "a".to_string();
    let scanner = Scanner::new(regex);
    let mut parser = Parser::new(scanner);
    let node = parser.seq().unwrap();
    match node {
        Node::Character { character: _ } => assert!(true),
        _ => assert!(false),
    }
}

#[test]
fn star() {
    let regex = "c*".to_string();
    let scanner = Scanner::new(regex);
    let mut parser = Parser::new(scanner);
    let node = parser.star().unwrap();
    let mut correct = false;
    match node {
        Node::Star { operand: _ } => correct = true,
        _ => assert!(false),
    }
    assert!(correct);
}

#[test]
fn factor() {
    let regex = "a|b".to_string();
    let scanner = Scanner::new(regex);
    let mut parser = Parser::new(scanner);
    let node = parser.factor().unwrap();
    match node {
        Node::Character { character: _ } => assert!(true),
        _ => assert!(false),
    }
}

#[test]
fn eat_and_advance() {
    let regex = "a|b".to_string();
    let scanner = Scanner::new(regex);
    let mut parser = Parser::new(scanner);

    assert_eq!(parser.current_token.type_, TokenType::Char);
    parser.advance();
    assert_eq!(parser.current_token.type_, TokenType::Union);
    assert!(parser.eat(TokenType::Union).is_ok());
    assert_eq!(parser.current_token.type_, TokenType::Char);
}

#[test]
fn empty_production_yields_epsilon() {
    // The grammar's empty sequence parses to the zero-width Epsilon node.
    let regex = "".to_string();
    let scanner = Scanner::new(regex);
    let mut parser = Parser::new(scanner);
    let node = parser.seq().unwrap();
    match node {
        Node::Epsilon => assert!(true),
        _ => assert!(false),
    }
}
