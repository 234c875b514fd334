use crate::ast::{build_frag, Counter, Node};
use crate::errors::RegexError;
use crate::nfa::NFA;
use crate::scanner::{tok_seq, Scanner};
use crate::tokens::{Token, TokenType};
use vstd::prelude::*;

verus! {

broadcast use vstd::seq_lib::group_seq_properties;

// The grammar, written once as spec functions over token sequences; the
// parser methods below compute exactly these.  A sequence's implicit end
// acts as the `EOF` token.
//
// <expr>    ->  <subexpr> EOF
// <subexpr> ->  <seq> '|' <subexpr> | <seq>
// <seq>     ->  <subseq> | ''
// <subseq>  ->  <star> <subseq> | <star>
// <star>    ->  <factor> '*' | <factor>
// <factor>  ->  '(' <subexpr> ')' | CHAR

/// The kind of the next token; `EOF` once the sequence is exhausted.
pub open spec fn cur_kind(ts: Seq<Token>) -> TokenType {
    if ts.len() == 0 {
        TokenType::EOF
    } else {
        ts[0].type_
    }
}

/// The byte carried by the next token.
pub open spec fn cur_value(ts: Seq<Token>) -> u8 {
    if ts.len() == 0 {
        0xff
    } else {
        ts[0].value
    }
}

/// The sequence with its first token consumed.
pub open spec fn rest(ts: Seq<Token>) -> Seq<Token> {
    if ts.len() == 0 {
        ts
    } else {
        ts.skip(1)
    }
}

/// `<factor> -> '(' <subexpr> ')' | CHAR`
pub open spec fn spec_factor(ts: Seq<Token>) -> Option<(Node, Seq<Token>)>
    decreases ts.len(), 1nat,
{
    if cur_kind(ts) == TokenType::LeftParen {
        match spec_subexpr(rest(ts)) {
            Some((n, r)) => if cur_kind(r) == TokenType::RightParen {
                Some((n, rest(r)))
            } else {
                None
            },
            None => None,
        }
    } else if cur_kind(ts) == TokenType::Char {
        Some((Node::Character { character: cur_value(ts) }, rest(ts)))
    } else {
        None
    }
}

/// `<star> -> <factor> '*' | <factor>`
pub open spec fn spec_star(ts: Seq<Token>) -> Option<(Node, Seq<Token>)>
    decreases ts.len(), 2nat,
{
    match spec_factor(ts) {
        Some((n, r)) => if cur_kind(r) == TokenType::Star {
            Some((Node::Star { operand: Box::new(n) }, rest(r)))
        } else {
            Some((n, r))
        },
        None => None,
    }
}

/// `<subseq> -> <star> <subseq> | <star>`.  The inner length test only
/// serves termination: `spec_star` always consumes at least one token
/// (`lemma_star_bounds`), so the `None` arm of the test is never reached.
pub open spec fn spec_subseq(ts: Seq<Token>) -> Option<(Node, Seq<Token>)>
    decreases ts.len(), 3nat,
{
    match spec_star(ts) {
        Some((n, r)) => if cur_kind(r) == TokenType::LeftParen || cur_kind(r)
            == TokenType::Char {
            if r.len() < ts.len() {
                match spec_subseq(r) {
                    Some((n2, r2)) => Some(
                        (Node::Concat { left: Box::new(n), right: Box::new(n2) }, r2),
                    ),
                    None => None,
                }
            } else {
                None
            }
        } else {
            Some((n, r))
        },
        None => None,
    }
}

/// `<seq> -> <subseq> | ''`.  The empty production yields `Epsilon`, which
/// matches exactly the empty string.
pub open spec fn spec_seq(ts: Seq<Token>) -> Option<(Node, Seq<Token>)>
    decreases ts.len(), 4nat,
{
    if cur_kind(ts) == TokenType::LeftParen || cur_kind(ts) == TokenType::Char {
        spec_subseq(ts)
    } else {
        Some((Node::Epsilon, ts))
    }
}

/// `<subexpr> -> <seq> '|' <subexpr> | <seq>`.  As in `spec_subseq`, the
/// length test only serves termination and is never false.
pub open spec fn spec_subexpr(ts: Seq<Token>) -> Option<(Node, Seq<Token>)>
    decreases ts.len(), 5nat,
{
    match spec_seq(ts) {
        Some((n, r)) => if cur_kind(r) == TokenType::Union {
            if rest(r).len() < ts.len() {
                match spec_subexpr(rest(r)) {
                    Some((n2, r2)) => Some(
                        (Node::Union { left: Box::new(n), right: Box::new(n2) }, r2),
                    ),
                    None => None,
                }
            } else {
                None
            }
        } else {
            Some((n, r))
        },
        None => None,
    }
}

/// `<expr> -> <subexpr> EOF`: the tree of a whole pattern, or `None` when
/// the token sequence violates the grammar.
pub open spec fn spec_expr(ts: Seq<Token>) -> Option<Node> {
    match spec_subexpr(ts) {
        Some((n, r)) => if cur_kind(r) == TokenType::EOF {
            Some(n)
        } else {
            None
        },
        None => None,
    }
}

/// A factor consumes at least one token and builds fewer than two nodes
/// per token consumed.
pub proof fn lemma_factor_bounds(ts: Seq<Token>)
    ensures
        spec_factor(ts) matches Some(p) ==> p.1.len() < ts.len() && p.0.count() <= 2 * (ts.len()
            - p.1.len()) - 1,
    decreases ts.len(), 1nat,
{
    if cur_kind(ts) == TokenType::LeftParen {
        lemma_subexpr_bounds(rest(ts));
    }
}

/// As `lemma_factor_bounds`, for `<star>`.
pub proof fn lemma_star_bounds(ts: Seq<Token>)
    ensures
        spec_star(ts) matches Some(p) ==> p.1.len() < ts.len() && p.0.count() <= 2 * (ts.len()
            - p.1.len()) - 1,
    decreases ts.len(), 2nat,
{
    lemma_factor_bounds(ts);
}

/// As `lemma_factor_bounds`, for `<subseq>`.
pub proof fn lemma_subseq_bounds(ts: Seq<Token>)
    ensures
        spec_subseq(ts) matches Some(p) ==> p.1.len() < ts.len() && p.0.count() <= 2 * (ts.len()
            - p.1.len()) - 1,
    decreases ts.len(), 3nat,
{
    lemma_star_bounds(ts);
    match spec_star(ts) {
        Some((n, r)) => {
            if cur_kind(r) == TokenType::LeftParen || cur_kind(r) == TokenType::Char {
                if r.len() < ts.len() {
                    lemma_subseq_bounds(r);
                }
            }
        },
        None => {},
    }
}

/// A `<seq>` never grows the input and builds at most `2k + 1` nodes from
/// `k` consumed tokens (the empty production builds one node from none).
pub proof fn lemma_seq_bounds(ts: Seq<Token>)
    ensures
        spec_seq(ts) matches Some(p) ==> p.1.len() <= ts.len() && p.0.count() <= 2 * (ts.len()
            - p.1.len()) + 1,
    decreases ts.len(), 4nat,
{
    if cur_kind(ts) == TokenType::LeftParen || cur_kind(ts) == TokenType::Char {
        lemma_subseq_bounds(ts);
    }
}

/// As `lemma_seq_bounds`, for `<subexpr>`.
pub proof fn lemma_subexpr_bounds(ts: Seq<Token>)
    ensures
        spec_subexpr(ts) matches Some(p) ==> p.1.len() <= ts.len() && p.0.count() <= 2 * (
        ts.len() - p.1.len()) + 1,
    decreases ts.len(), 5nat,
{
    lemma_seq_bounds(ts);
    match spec_seq(ts) {
        Some((n, r)) => {
            if cur_kind(r) == TokenType::Union {
                if rest(r).len() < ts.len() {
                    lemma_subexpr_bounds(rest(r));
                }
            }
        },
        None => {},
    }
}

/// Parses the pattern by asking the scanner for tokens one by one, builds
/// the abstract syntax tree, and finally converts it into an NFA.  Each
/// production needs one token of lookahead, held in `current_token`.
#[derive(Debug)]
pub struct Parser {
    pub scanner: Scanner,
    pub current_token: Token,
}

impl Parser {
    /// The tokens not yet consumed, the held lookahead token first; the
    /// terminating `EOF` is implicit at the sequence's end.
    pub open spec fn tokens(&self) -> Seq<Token> {
        if self.current_token.type_ == TokenType::EOF {
            Seq::empty()
        } else {
            seq![self.current_token] + tok_seq(self.scanner.remaining())
        }
    }

    /// The scanner is exhausted once the lookahead reaches `EOF`.
    pub open spec fn wf(&self) -> bool {
        self.scanner.wf() && (self.current_token.type_ == TokenType::EOF
            ==> self.scanner.remaining().len() == 0)
    }

    pub fn new(scanner: Scanner) -> (p: Parser)
        requires
            scanner.wf(),
        ensures
            p.wf(),
            p.tokens() == tok_seq(scanner.remaining()),
    {
        let ghost toks = tok_seq(scanner.remaining());
        let mut parser = Parser { scanner, current_token: Token::new(TokenType::NoOp, 0x00) };
        proof {
            assert(parser.tokens() =~= seq![parser.current_token] + toks);
        }
        parser.advance();
        proof {
            assert(rest(seq![Token { type_: TokenType::NoOp, value: 0x00 }] + toks) =~= toks);
        }
        parser
    }

    /// Moves the lookahead to the next token.
    pub fn advance(&mut self)
        requires
            old(self).wf(),
        ensures
            final(self).wf(),
            final(self).tokens() == rest(old(self).tokens()),
    {
        let ghost old_toks = self.tokens();
        let ghost old_rem = self.scanner.remaining();
        let t = self.scanner.get_next_token();
        self.current_token = t;
        proof {
            if old_toks.len() == 0 {
                assert(old_rem.len() == 0);
                assert(self.tokens() =~= rest(old_toks));
            } else if old_rem.len() == 0 {
                assert(tok_seq(old_rem) =~= Seq::<Token>::empty());
                assert(old_toks =~= seq![old(self).current_token]);
                assert(self.tokens() =~= rest(old_toks));
            } else {
                assert(tok_seq(old_rem) == seq![t] + tok_seq(self.scanner.remaining()));
                assert(seq![t][0] == t);
                assert(t.type_ != TokenType::EOF);
                assert(self.tokens() =~= tok_seq(old_rem));
                assert(rest(old_toks) =~= tok_seq(old_rem));
            }
        }
    }

    /// Consumes the current token when its kind is the expected one, and
    /// otherwise fails with `SyntaxError`, consuming nothing; the failure
    /// propagates out of the whole parse, leaving no partial tree.
    pub fn eat(&mut self, token: TokenType) -> (r: Result<(), RegexError>)
        requires
            old(self).wf(),
        ensures
            final(self).wf(),
            cur_kind(old(self).tokens()) == token ==> r == Ok::<(), RegexError>(())
                && final(self).tokens() == rest(old(self).tokens()),
            cur_kind(old(self).tokens()) != token ==> r == Err::<(), RegexError>(
                RegexError::SyntaxError,
            ) && *final(self) == *old(self),
    {
        if self.current_token.type_ != token {
            return Err(RegexError::SyntaxError);
        }
        self.advance();
        Ok(())
    }

    /// `<factor> -> '(' <subexpr> ')' | CHAR`
    pub fn factor(&mut self) -> (r: Result<Node, RegexError>)
        requires
            old(self).wf(),
        ensures
            final(self).wf(),
            match spec_factor(old(self).tokens()) {
                Some(p) => r matches Ok(n) && n == p.0 && final(self).tokens() == p.1,
                None => r == Err::<Node, RegexError>(RegexError::SyntaxError),
            },
        decreases self.tokens().len(), 1nat,
    {
        match self.current_token.type_ {
            TokenType::LeftParen => {
                self.eat(TokenType::LeftParen)?;
                let node = self.subexpr()?;
                self.eat(TokenType::RightParen)?;
                Ok(node)
            },
            _ => {
                let node = Node::character(self.current_token.value);
                self.eat(TokenType::Char)?;
                Ok(node)
            },
        }
    }

    /// `<star> -> <factor> '*' | <factor>`
    pub fn star(&mut self) -> (r: Result<Node, RegexError>)
        requires
            old(self).wf(),
        ensures
            final(self).wf(),
            match spec_star(old(self).tokens()) {
                Some(p) => r matches Ok(n) && n == p.0 && final(self).tokens() == p.1,
                None => r == Err::<Node, RegexError>(RegexError::SyntaxError),
            },
        decreases self.tokens().len(), 2nat,
    {
        let node = self.factor()?;
        match self.current_token.type_ {
            TokenType::Star => {
                self.eat(TokenType::Star)?;
                Ok(Node::star(node))
            },
            _ => Ok(node),
        }
    }

    /// `<subseq> -> <star> <subseq> | <star>`
    pub fn subseq(&mut self) -> (r: Result<Node, RegexError>)
        requires
            old(self).wf(),
        ensures
            final(self).wf(),
            match spec_subseq(old(self).tokens()) {
                Some(p) => r matches Ok(n) && n == p.0 && final(self).tokens() == p.1,
                None => r == Err::<Node, RegexError>(RegexError::SyntaxError),
            },
        decreases self.tokens().len(), 3nat,
    {
        proof {
            lemma_star_bounds(self.tokens());
        }
        let node = self.star()?;
        match self.current_token.type_ {
            TokenType::LeftParen => Ok(Node::concat(node, self.subseq()?)),
            TokenType::Char => Ok(Node::concat(node, self.subseq()?)),
            _ => Ok(node),
        }
    }

    /// `<seq> -> <subseq> | ''`
    pub fn seq(&mut self) -> (r: Result<Node, RegexError>)
        requires
            old(self).wf(),
        ensures
            final(self).wf(),
            match spec_seq(old(self).tokens()) {
                Some(p) => r matches Ok(n) && n == p.0 && final(self).tokens() == p.1,
                None => r == Err::<Node, RegexError>(RegexError::SyntaxError),
            },
        decreases self.tokens().len(), 4nat,
    {
        match self.current_token.type_ {
            TokenType::LeftParen => self.subseq(),
            TokenType::Char => self.subseq(),
            _ => Ok(Node::epsilon()),
        }
    }

    /// `<subexpr> -> <seq> '|' <subexpr> | <seq>`
    pub fn subexpr(&mut self) -> (r: Result<Node, RegexError>)
        requires
            old(self).wf(),
        ensures
            final(self).wf(),
            match spec_subexpr(old(self).tokens()) {
                Some(p) => r matches Ok(n) && n == p.0 && final(self).tokens() == p.1,
                None => r == Err::<Node, RegexError>(RegexError::SyntaxError),
            },
        decreases self.tokens().len(), 5nat,
    {
        proof {
            lemma_seq_bounds(self.tokens());
        }
        let node = self.seq()?;
        match self.current_token.type_ {
            TokenType::Union => {
                self.eat(TokenType::Union)?;
                Ok(Node::union(node, self.subexpr()?))
            },
            _ => Ok(node),
        }
    }

    /// `<expr> -> <subexpr> EOF`: parses a whole pattern and compiles the
    /// finished tree, with a fresh counter, into an NFA — the automaton
    /// `build_frag` describes for the parsed tree.  The length bound is a
    /// machine limit: it keeps every allocated state id within `u64`.
    pub fn expr(&mut self) -> (r: Result<NFA, RegexError>)
        requires
            old(self).wf(),
            4 * old(self).tokens().len() + 3 <= u64::MAX,
        ensures
            final(self).wf(),
            match spec_expr(old(self).tokens()) {
                Some(n) => r matches Ok(nfa) && nfa@ == build_frag(n, 1).0,
                None => r == Err::<NFA, RegexError>(RegexError::SyntaxError),
            },
    {
        proof {
            lemma_subexpr_bounds(self.tokens());
        }
        let node = self.subexpr()?;
        self.eat(TokenType::EOF)?;
        let mut counter = Counter::new();
        let fragment = node.to_fragment(&mut counter);
        Ok(fragment.to_nfa())
    }
}

} // verus!
