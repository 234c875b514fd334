use rs_regex::parser::Parser;
use rs_regex::scanner::Scanner;

#[test]
fn start_state() {
    let regex = "ab".to_string();
    let scanner = Scanner::new(regex);
    let mut parser = Parser::new(scanner);
    let nfa = parser.expr();
    assert!(nfa.is_ok());
    assert_eq!(nfa.unwrap().start_state, 2);
}

#[test]
fn accept_state() {
    let regex = "ab".to_string();
    let scanner = Scanner::new(regex);
    let mut parser = Parser::new(scanner);
    let nfa = parser.expr();
    assert!(nfa.is_ok());
    assert!(nfa.unwrap().accept_states.contains(&5));
}

#[test]
fn to_dfa_start() {
    let regex = "ab".to_string();
    let scanner = Scanner::new(regex);
    let mut parser = Parser::new(scanner);
    let nfa = parser.expr();
    assert!(nfa.is_ok());
    let dfa = nfa.unwrap().to_dfa();
    assert!(dfa.start_state.contains(&2));
}

#[test]
fn to_dfa_acc() {
    let regex = "ab".to_string();
    let scanner = Scanner::new(regex);
    let mut parser = Parser::new(scanner);
    let nfa = parser.expr();
    assert!(nfa.is_ok());
    let dfa = nfa.unwrap().to_dfa();
    assert!(dfa.accept_states.contains(&5));
}

#[test]
fn find_transitions() {
    let regex = "a(b|c)".to_string();
    let scanner = Scanner::new(regex);
    let mut parser = Parser::new(scanner);
    let nfa = parser.expr().unwrap();
    let result = nfa.find_transitions(2, Some('a' as u8)).unwrap();
    assert!(result.contains(&3));
}

#[test]
fn trasform_epsilon() {
    let regex = "a|b".to_string();
    let scanner = Scanner::new(regex);
    let mut parser = Parser::new(scanner);
    let nfa = parser.expr().unwrap();
    let start_states = nfa.transform_transitions(vec![nfa.start_state]);
    assert!(start_states.contains(&4));
    assert!(start_states.contains(&2));
}
