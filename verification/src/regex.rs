use crate::ast::{accept_edges, build_frag, lemma_build_frag_ids, Node};
use crate::dfa::DFA;
use crate::errors::RegexError;
use crate::nfa::{accepted_from, eps_closure, lemma_accepts_congruent, nfa_accepts};
use crate::nfa_fragment::{AutomatonModel, Transition};
use crate::parser::{
    lemma_subexpr_bounds, rest, spec_expr, spec_factor, spec_seq, spec_star, spec_subexpr,
    spec_subseq,
    Parser,
};
use crate::scanner::{lemma_tok_seq_len, tok_seq, Scanner};
use crate::tokens::{Token, TokenType};
use vstd::prelude::*;

verus! {

broadcast use vstd::seq_lib::group_seq_properties;

/// The byte sequence of an ASCII pattern or input string.
pub open spec fn bytes_of(s: Seq<char>) -> Seq<u8> {
    Seq::new(s.len(), |i: int| s[i] as u8)
}

/// The automaton a pattern's bytes compile to: tokens, tree, then
/// Thompson's construction with a counter starting at its origin.  `None`
/// exactly when the token stream violates the grammar.
pub open spec fn compile_model(pattern: Seq<u8>) -> Option<AutomatonModel> {
    match spec_expr(tok_seq(pattern)) {
        Some(n) => Some(build_frag(n, 1).0),
        None => None,
    }
}

/// The language a compilable pattern denotes: whether it matches `input`.
pub open spec fn pattern_matches(pattern: Seq<u8>, input: Seq<u8>) -> bool {
    match compile_model(pattern) {
        Some(m) => nfa_accepts(m, input),
        None => false,
    }
}

/// What a `Regex` compiled from `pattern` holds: the determinized view of
/// exactly the automaton `compile_model` yields for it.
pub open spec fn compiled_from(r: Regex, pattern: Seq<char>) -> bool {
    &&& vstd::utf8::is_ascii_chars(pattern)
    &&& compile_model(bytes_of(pattern)) matches Some(m) && r.dfa.transitions@ == m.edges
        && r.dfa.accept_states@ == m.accepts && r.dfa.start_state@.to_set() == eps_closure(
        m.edges,
        set![m.start],
    )
}

/// The answer `Regex::matches` gives for an ASCII input's bytes.
pub open spec fn regex_accepts(r: Regex, input: Seq<u8>) -> bool {
    accepted_from(
        r.dfa.transitions@,
        r.dfa.start_state@.to_set(),
        r.dfa.accept_states@.to_set(),
        input,
    )
}

/// The compiled form of one pattern: the facade over the whole pipeline.
/// Compilation validates that the pattern is ASCII, scans and parses it,
/// and determinizes the resulting NFA; matching validates that the input
/// is ASCII and runs a fresh recognizer over it.
#[derive(Debug)]
pub struct Regex {
    pub dfa: DFA,
}

impl Regex {
    /// Compiles `regex`.  Fails with `EncodingError` exactly when the
    /// pattern holds a non-ASCII character (checked before any scanning),
    /// and with `SyntaxError` exactly when the token stream violates the
    /// grammar.  The length bound is a machine limit: it keeps every
    /// automaton state id within `u64`.
    pub fn new(regex: String) -> (r: Result<Regex, RegexError>)
        requires
            4 * regex@.len() + 3 <= u64::MAX,
        ensures
            r == Err::<Regex, RegexError>(RegexError::EncodingError)
                <==> !vstd::utf8::is_ascii_chars(regex@),
            r == Err::<Regex, RegexError>(RegexError::SyntaxError)
                <==> (vstd::utf8::is_ascii_chars(regex@) && compile_model(bytes_of(regex@))
                is None),
            r matches Ok(rx) ==> compiled_from(rx, regex@),
            vstd::utf8::is_ascii_chars(regex@) && compile_model(bytes_of(regex@)) is Some
                ==> r is Ok,
    {
        if !regex.as_str().is_ascii() {
            return Err(RegexError::EncodingError);
        }
        let ghost chars = regex@;
        let scanner = Scanner::new(regex);
        proof {
            assert(scanner.remaining() =~= bytes_of(chars));
            lemma_tok_seq_len(scanner.remaining());
        }
        let mut parser = Parser::new(scanner);
        let nfa = match parser.expr() {
            Ok(nfa) => nfa,
            Err(e) => {
                return Err(e);
            },
        };
        Ok(Regex { dfa: nfa.to_dfa() })
    }

    /// Tries to recognize `string` against the compiled automaton: fails
    /// with `EncodingError` exactly when the input holds a non-ASCII
    /// character, and otherwise answers whole-string membership.
    pub fn matches(&self, string: String) -> (r: Result<bool, RegexError>)
        ensures
            r == Err::<bool, RegexError>(RegexError::EncodingError)
                <==> !vstd::utf8::is_ascii_chars(string@),
            vstd::utf8::is_ascii_chars(string@) ==> r == Ok::<bool, RegexError>(
                regex_accepts(*self, bytes_of(string@)),
            ),
    {
        if !string.as_str().is_ascii() {
            return Err(RegexError::EncodingError);
        }
        let bytes = string.as_str().as_bytes();
        proof {
            vstd::utf8::is_ascii_chars_encode_utf8(string@);
            assert(bytes@ =~= bytes_of(string@));
        }
        let mut recognizer = self.dfa.recognizer();
        Ok(recognizer.accepts(bytes))
    }
}

/// A matcher answers exactly its pattern's language: what `Regex::matches`
/// returns for an ASCII input is `pattern_matches` of the pattern the
/// matcher was compiled from, applied to the input's bytes.
pub proof fn lemma_matches_is_language(r: Regex, pattern: Seq<char>, input: Seq<u8>)
    requires
        compiled_from(r, pattern),
    ensures
        regex_accepts(r, input) == pattern_matches(bytes_of(pattern), input),
{
    assert(r.dfa.accept_states@.to_set() == compile_model(
        bytes_of(pattern),
    ).unwrap().accepts.to_set());
}

/// A `Regex` answers by its model alone: two matchers compiled from the
/// same pattern accept exactly the same inputs, whatever state ids their
/// compilations generated.
pub proof fn lemma_compile_deterministic(r1: Regex, r2: Regex, pattern: Seq<char>)
    requires
        compiled_from(r1, pattern),
        compiled_from(r2, pattern),
    ensures
        forall|input: Seq<u8>| regex_accepts(r1, input) == regex_accepts(r2, input),
{
    assert(r1.dfa.transitions@ == r2.dfa.transitions@);
    assert(r1.dfa.accept_states@ == r2.dfa.accept_states@);
    assert(r1.dfa.start_state@.to_set() == r2.dfa.start_state@.to_set());
}

/// The bytes of the pattern `(ab)c`.
pub open spec fn pat_group_left() -> Seq<u8> {
    seq!['(' as u8, 'a' as u8, 'b' as u8, ')' as u8, 'c' as u8]
}

/// The bytes of the pattern `a(bc)`.
pub open spec fn pat_group_right() -> Seq<u8> {
    seq!['a' as u8, '(' as u8, 'b' as u8, 'c' as u8, ')' as u8]
}

/// The bytes of the pattern `abc`.
pub open spec fn pat_plain() -> Seq<u8> {
    seq!['a' as u8, 'b' as u8, 'c' as u8]
}

/// A `Char` token.
spec fn tok_char(v: u8) -> Token {
    Token { type_: TokenType::Char, value: v }
}

/// The tree of `abc` and of `a(bc)`: concatenation is right-associative,
/// so the two patterns parse to the very same tree.
spec fn node_plain() -> Node {
    Node::Concat {
        left: Box::new(Node::Character { character: 'a' as u8 }),
        right: Box::new(
            Node::Concat {
                left: Box::new(Node::Character { character: 'b' as u8 }),
                right: Box::new(Node::Character { character: 'c' as u8 }),
            },
        ),
    }
}

/// The tree of `(ab)c`.
spec fn node_group_left() -> Node {
    Node::Concat {
        left: Box::new(
            Node::Concat {
                left: Box::new(Node::Character { character: 'a' as u8 }),
                right: Box::new(Node::Character { character: 'b' as u8 }),
            },
        ),
        right: Box::new(Node::Character { character: 'c' as u8 }),
    }
}

/// An epsilon transition.
spec fn eps_edge(from: u64, to: u64) -> Transition {
    Transition { from, symbol: None, to }
}

/// A byte-labelled transition.
spec fn byte_edge(from: u64, b: u8, to: u64) -> Transition {
    Transition { from, symbol: Some(b), to }
}

/// Grouping equivalence: `(ab)c`, `a(bc)` and `abc` match exactly the same
/// inputs.  `a(bc)` and `abc` parse to the same tree, so their automata
/// are identical; `(ab)c` compiles to the same five transitions in a
/// different table order, which `lemma_accepts_congruent` shows the
/// matcher cannot observe.
#[verifier::rlimit(100)]
pub proof fn lemma_grouping_equivalence()
    ensures
        forall|input: Seq<u8>|
            pattern_matches(pat_group_left(), input) == pattern_matches(pat_plain(), input),
        forall|input: Seq<u8>|
            pattern_matches(pat_group_right(), input) == pattern_matches(pat_plain(), input),
{
    let a = 'a' as u8;
    let b = 'b' as u8;
    let c = 'c' as u8;
    let ta = tok_char(a);
    let tb = tok_char(b);
    let tc = tok_char(c);
    let lp = Token { type_: TokenType::LeftParen, value: '(' as u8 };
    let rp = Token { type_: TokenType::RightParen, value: ')' as u8 };
    let ca = Node::Character { character: a };
    let cb = Node::Character { character: b };
    let cc = Node::Character { character: c };
    let n_bc = Node::Concat { left: Box::new(cb), right: Box::new(cc) };
    let n_ab = Node::Concat { left: Box::new(ca), right: Box::new(cb) };
    let e0 = Seq::<Token>::empty();

    // `abc`
    let l1 = seq![tc];
    let l2 = seq![tb, tc];
    let l3 = seq![ta, tb, tc];
    assert(tok_seq(pat_plain()) =~= l3) by {
        reveal_with_fuel(tok_seq, 5);
        assert(pat_plain().skip(1) =~= seq![b, c]);
        assert(pat_plain().skip(1).skip(1) =~= seq![c]);
        assert(pat_plain().skip(1).skip(1).skip(1) =~= Seq::<u8>::empty());
    }
    assert(rest(l3) =~= l2);
    assert(rest(l2) =~= l1);
    assert(rest(l1) =~= e0);
    assert(spec_star(l1) == Some((cc, e0)));
    assert(spec_subseq(l1) == Some((cc, e0)));
    assert(spec_star(l2) == Some((cb, l1)));
    assert(spec_subseq(l2) == Some((n_bc, e0)));
    assert(spec_star(l3) == Some((ca, l2)));
    assert(spec_subseq(l3) == Some((node_plain(), e0)));
    assert(spec_seq(l3) == Some((node_plain(), e0)));
    assert(spec_subexpr(l3) == Some((node_plain(), e0)));
    assert(spec_expr(l3) == Some(node_plain()));

    // `a(bc)`
    let r1 = seq![rp];
    let r2 = seq![tc, rp];
    let r3 = seq![tb, tc, rp];
    let r4 = seq![lp, tb, tc, rp];
    let r5 = seq![ta, lp, tb, tc, rp];
    assert(tok_seq(pat_group_right()) =~= r5) by {
        reveal_with_fuel(tok_seq, 7);
        assert(pat_group_right().skip(1) =~= seq!['(' as u8, b, c, ')' as u8]);
        assert(pat_group_right().skip(1).skip(1) =~= seq![b, c, ')' as u8]);
        assert(pat_group_right().skip(1).skip(1).skip(1) =~= seq![c, ')' as u8]);
        assert(pat_group_right().skip(1).skip(1).skip(1).skip(1) =~= seq![')' as u8]);
        assert(pat_group_right().skip(1).skip(1).skip(1).skip(1).skip(1) =~= Seq::<u8>::empty());
    }
    assert(rest(r5) =~= r4);
    assert(rest(r4) =~= r3);
    assert(rest(r3) =~= r2);
    assert(rest(r2) =~= r1);
    assert(rest(r1) =~= e0);
    assert(spec_star(r2) == Some((cc, r1)));
    assert(spec_subseq(r2) == Some((cc, r1)));
    assert(spec_star(r3) == Some((cb, r2)));
    assert(spec_subseq(r3) == Some((n_bc, r1)));
    assert(spec_seq(r3) == Some((n_bc, r1)));
    assert(spec_subexpr(r3) == Some((n_bc, r1)));
    assert(spec_factor(r4) == Some((n_bc, e0)));
    assert(spec_star(r4) == Some((n_bc, e0)));
    assert(spec_subseq(r4) == Some((n_bc, e0)));
    assert(spec_star(r5) == Some((ca, r4)));
    assert(spec_subseq(r5) == Some((node_plain(), e0)));
    assert(spec_seq(r5) == Some((node_plain(), e0)));
    assert(spec_subexpr(r5) == Some((node_plain(), e0)));
    assert(spec_expr(r5) == Some(node_plain()));
    assert(compile_model(pat_group_right()) == compile_model(pat_plain()));

    // `(ab)c`
    let g1 = seq![tc];
    let g2 = seq![rp, tc];
    let g3 = seq![tb, rp, tc];
    let g4 = seq![ta, tb, rp, tc];
    let g5 = seq![lp, ta, tb, rp, tc];
    assert(tok_seq(pat_group_left()) =~= g5) by {
        reveal_with_fuel(tok_seq, 7);
        assert(pat_group_left().skip(1) =~= seq![a, b, ')' as u8, c]);
        assert(pat_group_left().skip(1).skip(1) =~= seq![b, ')' as u8, c]);
        assert(pat_group_left().skip(1).skip(1).skip(1) =~= seq![')' as u8, c]);
        assert(pat_group_left().skip(1).skip(1).skip(1).skip(1) =~= seq![c]);
        assert(pat_group_left().skip(1).skip(1).skip(1).skip(1).skip(1) =~= Seq::<u8>::empty());
    }
    assert(rest(g5) =~= g4);
    assert(rest(g4) =~= g3);
    assert(rest(g3) =~= g2);
    assert(rest(g2) =~= g1);
    assert(rest(g1) =~= e0);
    assert(spec_star(g3) == Some((cb, g2)));
    assert(spec_subseq(g3) == Some((cb, g2)));
    assert(spec_star(g4) == Some((ca, g3)));
    assert(spec_subseq(g4) == Some((n_ab, g2)));
    assert(spec_seq(g4) == Some((n_ab, g2)));
    assert(spec_subexpr(g4) == Some((n_ab, g2)));
    assert(spec_factor(g5) == Some((n_ab, g1)));
    assert(spec_star(g5) == Some((n_ab, g1)));
    assert(spec_star(g1) == Some((cc, e0)));
    assert(spec_subseq(g1) == Some((cc, e0)));
    assert(spec_subseq(g5) == Some((node_group_left(), e0)));
    assert(spec_seq(g5) == Some((node_group_left(), e0)));
    assert(spec_subexpr(g5) == Some((node_group_left(), e0)));
    assert(spec_expr(g5) == Some(node_group_left()));

    // The two automata hold the same five transitions, in different order.
    let fa = build_frag(ca, 1);
    let fb = build_frag(cb, 3);
    let fc = build_frag(cc, 5);
    assert(fa == (AutomatonModel { start: 2, accepts: seq![3u64], edges: seq![byte_edge(2, a, 3)] }, 3u64));
    assert(fb == (AutomatonModel { start: 4, accepts: seq![5u64], edges: seq![byte_edge(4, b, 5)] }, 5u64));
    assert(fc == (AutomatonModel { start: 6, accepts: seq![7u64], edges: seq![byte_edge(6, c, 7)] }, 7u64));
    let fbc = build_frag(n_bc, 3);
    assert(accept_edges(seq![5u64], 6) =~= seq![eps_edge(5, 6)]);
    assert(fbc.0.edges =~= seq![byte_edge(4, b, 5), byte_edge(6, c, 7), eps_edge(5, 6)]);
    let m_plain = build_frag(node_plain(), 1).0;
    assert(accept_edges(seq![3u64], 4) =~= seq![eps_edge(3, 4)]);
    assert(m_plain.edges =~= seq![
        byte_edge(2, a, 3),
        byte_edge(4, b, 5),
        byte_edge(6, c, 7),
        eps_edge(5, 6),
        eps_edge(3, 4),
    ]);
    assert(m_plain.start == 2 && m_plain.accepts =~= seq![7u64]);
    let fab = build_frag(n_ab, 1);
    assert(fab.0.edges =~= seq![byte_edge(2, a, 3), byte_edge(4, b, 5), eps_edge(3, 4)]);
    assert(fab.0.accepts =~= seq![5u64] && fab.0.start == 2 && fab.1 == 5);
    let m_left = build_frag(node_group_left(), 1).0;
    assert(accept_edges(seq![5u64], 6) =~= seq![eps_edge(5, 6)]);
    assert(m_left.edges =~= seq![
        byte_edge(2, a, 3),
        byte_edge(4, b, 5),
        eps_edge(3, 4),
        byte_edge(6, c, 7),
        eps_edge(5, 6),
    ]);
    assert(m_left.start == 2 && m_left.accepts =~= seq![7u64]);
    assert(m_left.edges.to_set() =~= m_plain.edges.to_set());
    assert(compile_model(pat_plain()) == Some(m_plain));
    assert(compile_model(pat_group_left()) == Some(m_left));
    assert forall|input: Seq<u8>|
        pattern_matches(pat_group_left(), input) == pattern_matches(pat_plain(), input) by {
        lemma_accepts_congruent(m_left, m_plain, input);
    }
}

/// For a successfully compiled pattern, the state ids generated during the
/// compile are pairwise distinct: the counter hands them out as
/// consecutive integers above its origin (`lemma_build_frag_ids` gives the
/// ranges), so in particular the automaton's accept states never repeat
/// and every state id exceeds the origin.
pub proof fn lemma_compiled_state_ids(pattern: Seq<u8>)
    requires
        4 * pattern.len() + 3 <= u64::MAX,
    ensures
        compile_model(pattern) matches Some(m) ==> m.accepts.no_duplicates() && 1 < m.start
            && (forall|i: int| 0 <= i < m.accepts.len() ==> 1 < #[trigger] m.accepts[i]),
{
    let ts = tok_seq(pattern);
    lemma_tok_seq_len(pattern);
    lemma_subexpr_bounds(ts);
    match spec_subexpr(ts) {
        Some(p) => {
            if crate::parser::cur_kind(p.1) == crate::tokens::TokenType::EOF {
                lemma_build_frag_ids(p.0, 1);
            }
        },
        None => {},
    }
}

} // verus!
