//! A regular-expression engine for a restricted ASCII pattern language
//! (literal characters, concatenation, alternation `|`, Kleene star `*`,
//! grouping, backslash escapes).
//!
//! A pattern is tokenized by the [`scanner`], parsed by the recursive-descent
//! [`parser`] into an abstract syntax tree ([`ast`]), compiled by Thompson's
//! construction into a nondeterministic finite automaton
//! ([`nfa_fragment`], [`nfa`]), and determinized on the fly by subset
//! construction ([`dfa`]).  The [`regex`] facade ties the pipeline together:
//! it validates that patterns and inputs are ASCII, compiles patterns, and
//! answers whole-string membership queries in time linear in the input length.

pub mod ast;
pub mod dfa;
pub mod errors;
pub mod nfa;
pub mod nfa_fragment;
pub mod parser;
pub mod regex;
pub mod scanner;
pub mod state_set;
pub mod tokens;
