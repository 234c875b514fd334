use crate::tokens::{Token, TokenType};
use vstd::prelude::*;

verus! {

/// The token denoted by one unescaped pattern byte: the four one-byte
/// operators are recognized, every other byte is a literal character.
pub open spec fn token_of_byte(b: u8) -> Token {
    if b == 124 {
        Token { type_: TokenType::Union, value: b }
    } else if b == 42 {
        Token { type_: TokenType::Star, value: b }
    } else if b == 40 {
        Token { type_: TokenType::LeftParen, value: b }
    } else if b == 41 {
        Token { type_: TokenType::RightParen, value: b }
    } else {
        Token { type_: TokenType::Char, value: b }
    }
}

/// The whole token sequence of a pattern's remaining bytes, with the
/// terminating `EOF` left implicit (an exhausted scanner keeps answering
/// `EOF`).  A backslash escapes the following byte, which becomes a literal
/// `Char` token even if it is an operator byte; a trailing backslash with
/// nothing to escape is surfaced as the out-of-band `NoOp` token, which no
/// grammar production accepts.
pub open spec fn tok_seq(b: Seq<u8>) -> Seq<Token>
    decreases b.len(),
{
    if b.len() == 0 {
        Seq::empty()
    } else if b[0] == 92 {
        if b.len() == 1 {
            seq![Token { type_: TokenType::NoOp, value: 0 }]
        } else {
            seq![Token { type_: TokenType::Char, value: b[1] }] + tok_seq(b.skip(2))
        }
    } else {
        seq![token_of_byte(b[0])] + tok_seq(b.skip(1))
    }
}

/// Tokenizes a pattern's byte sequence lazily, one token per call, with the
/// position of the next unread byte as its only state.
#[derive(Debug)]
pub struct Scanner {
    pub bytes: Vec<u8>,
    pub pos: usize,
}

impl Scanner {
    /// The bytes not yet consumed.
    pub open spec fn remaining(&self) -> Seq<u8> {
        self.bytes@.skip(self.pos as int)
    }

    pub open spec fn wf(&self) -> bool {
        self.pos <= self.bytes@.len()
    }

    /// Scanners work on the pattern's byte sequence; for the ASCII patterns
    /// the engine admits, bytes and characters coincide.
    pub fn new(regex: String) -> (s: Scanner)
        ensures
            s.wf(),
            s.remaining() == vstd::utf8::encode_utf8(regex@),
            vstd::utf8::is_ascii_chars(regex@) ==> s.remaining() == Seq::new(
                regex@.len(),
                |i: int| regex@[i] as u8,
            ),
    {
        let bytes = regex.as_str().as_bytes_vec();
        let s = Scanner { bytes, pos: 0 };
        proof {
            assert(s.remaining() =~= s.bytes@);
            if vstd::utf8::is_ascii_chars(regex@) {
                vstd::utf8::is_ascii_chars_encode_utf8(regex@);
                assert(s.remaining() =~= Seq::new(regex@.len(), |i: int| regex@[i] as u8));
            }
        }
        s
    }

    /// Produces the next token: the head of `tok_seq` of the remaining bytes,
    /// or `EOF` once the pattern is exhausted.
    pub fn get_next_token(&mut self) -> (t: Token)
        requires
            old(self).wf(),
        ensures
            final(self).wf(),
            old(self).remaining().len() == 0 ==> t == (Token {
                type_: TokenType::EOF,
                value: 0xff,
            }) && *final(self) == *old(self),
            old(self).remaining().len() > 0 ==> tok_seq(old(self).remaining()) == seq![t]
                + tok_seq(final(self).remaining()) && t.type_ != TokenType::EOF
                && final(self).remaining().len() < old(self).remaining().len(),
    {
        if self.pos == self.bytes.len() {
            return Token::new(TokenType::EOF, 0xff);
        }
        let ghost old_rem = self.remaining();
        let b = self.bytes[self.pos];
        if b == 92 {
            if self.pos + 1 < self.bytes.len() {
                let v = self.bytes[self.pos + 1];
                self.pos = self.pos + 2;
                proof {
                    assert(old_rem.skip(2) =~= self.remaining());
                    assert(tok_seq(old_rem) == seq![Token { type_: TokenType::Char, value: v }]
                        + tok_seq(self.remaining()));
                }
                Token::new(TokenType::Char, v)
            } else {
                self.pos = self.pos + 1;
                proof {
                    assert(self.remaining().len() == 0);
                    assert(tok_seq(self.remaining()) =~= Seq::<Token>::empty());
                    assert(tok_seq(old_rem) =~= seq![Token { type_: TokenType::NoOp, value: 0 }]
                        + tok_seq(self.remaining()));
                }
                Token::new(TokenType::NoOp, 0)
            }
        } else {
            self.pos = self.pos + 1;
            proof {
                assert(old_rem.skip(1) =~= self.remaining());
                assert(tok_seq(old_rem) == seq![token_of_byte(b)] + tok_seq(self.remaining()));
            }
            if b == 124 {
                Token::new(TokenType::Union, b)
            } else if b == 42 {
                Token::new(TokenType::Star, b)
            } else if b == 40 {
                Token::new(TokenType::LeftParen, b)
            } else if b == 41 {
                Token::new(TokenType::RightParen, b)
            } else {
                Token::new(TokenType::Char, b)
            }
        }
    }
}

/// A pattern never yields more tokens than it has bytes.
pub proof fn lemma_tok_seq_len(b: Seq<u8>)
    ensures
        tok_seq(b).len() <= b.len(),
    decreases b.len(),
{
    if b.len() == 0 {
    } else if b[0] == 92 {
        if b.len() > 1 {
            lemma_tok_seq_len(b.skip(2));
        }
    } else {
        lemma_tok_seq_len(b.skip(1));
    }
}

} // verus!
