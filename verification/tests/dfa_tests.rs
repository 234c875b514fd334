use rs_regex::parser::Parser;
use rs_regex::scanner::Scanner;

#[test]
fn is_accept_state() {
    let regex = "ab".to_string();
    let scanner = Scanner::new(regex);
    let mut parser = Parser::new(scanner);
    let nfa = parser.expr();
    assert!(nfa.is_ok());
    let dfa = nfa.unwrap().to_dfa();
    let mut recognizer = dfa.recognizer();
    recognizer.make_transition('a' as u8);
    assert!(!recognizer.is_accept_state());
    recognizer.make_transition('b' as u8);
    assert!(recognizer.is_accept_state());
}

#[test]
fn accepts() {
    let regex = "ab".to_string();
    let scanner = Scanner::new(regex);
    let mut parser = Parser::new(scanner);
    let nfa = parser.expr();
    assert!(nfa.is_ok());
    let dfa = nfa.unwrap().to_dfa();
    let mut recognizer = dfa.recognizer();
    let input = "ab".to_string().into_bytes();
    assert!(recognizer.accepts(&input));
}

#[test]
fn rejects() {
    let regex = "ab".to_string();
    let scanner = Scanner::new(regex);
    let mut parser = Parser::new(scanner);
    let nfa = parser.expr();
    assert!(nfa.is_ok());
    let dfa = nfa.unwrap().to_dfa();
    let mut recognizer = dfa.recognizer();
    let input = "a".to_string().into_bytes();
    assert!(!recognizer.accepts(&input));
}

#[test]
fn get_transition() {
    let regex = "ab".to_string();
    let scanner = Scanner::new(regex);
    let mut parser = Parser::new(scanner);
    let nfa = parser.expr();
    assert!(nfa.is_ok());
    let dfa = nfa.unwrap().to_dfa();
    let recognizer = dfa.recognizer();
    let state = dfa.get_transition(recognizer.current_state, 'a' as u8);
    assert!(state.contains(&3));
}
