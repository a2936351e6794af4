//! Lexical scanning: source bytes become tokens, one token per command
//! byte, every other byte skipped, with a single `EOF` token at the end of
//! the input.

use vstd::prelude::*;

use crate::common::Token;

verus! {

/// The command token for a source byte, if the byte is one of the eight
/// operators.
pub open spec fn token_of(b: u8) -> Option<Token> {
    if b == 62 {
        Some(Token::MoveRight)
    } else if b == 60 {
        Some(Token::MoveLeft)
    } else if b == 43 {
        Some(Token::Increment)
    } else if b == 45 {
        Some(Token::Decrement)
    } else if b == 46 {
        Some(Token::Output)
    } else if b == 44 {
        Some(Token::Input)
    } else if b == 91 {
        Some(Token::LeftLoop)
    } else if b == 93 {
        Some(Token::RightLoop)
    } else {
        None
    }
}

/// The index of the first command byte at or after `i`, or the length of
/// the input if there is none.
pub open spec fn next_cmd(s: Seq<u8>, i: int) -> int
    decreases s.len() - i,
{
    if i < 0 || i >= s.len() {
        s.len() as int
    } else if token_of(s[i]) is Some {
        i
    } else {
        next_cmd(s, i + 1)
    }
}

/// Scans a byte source into tokens.
pub struct Lexer {
    source: Vec<u8>,
    pos: usize,
    eof: bool,
}

impl Lexer {
    /// The bytes being scanned.
    pub closed spec fn bytes(&self) -> Seq<u8> {
        self.source@
    }

    /// How many bytes have been consumed.
    pub closed spec fn cursor(&self) -> int {
        self.pos as int
    }

    /// Whether the `EOF` token has been handed out.
    pub closed spec fn done(&self) -> bool {
        self.eof
    }

    /// A lexer over the given source bytes.
    pub fn new(source: Vec<u8>) -> (r: Lexer)
        ensures
            r.bytes() == source@,
            r.cursor() == 0,
            !r.done(),
    {
        Lexer { source, pos: 0, eof: false }
    }

    /// The next token: the token of the next command byte, `EOF` once at the
    /// end of the input, and nothing after that.
    #[verifier::loop_isolation(false)]
    pub fn next(&mut self) -> (r: Option<Token>)
        requires
            old(self).cursor() <= old(self).bytes().len(),
        ensures
            final(self).bytes() == old(self).bytes(),
            old(self).cursor() <= final(self).cursor() <= final(self).bytes().len(),
            old(self).done() ==> r is None && *final(self) == *old(self),
            !old(self).done() ==> ({
                let j = next_cmd(old(self).bytes(), old(self).cursor());
                if j < old(self).bytes().len() {
                    &&& r == token_of(old(self).bytes()[j])
                    &&& final(self).cursor() == j + 1
                    &&& !final(self).done()
                } else {
                    &&& r == Some(Token::EOF)
                    &&& final(self).done()
                }
            }),
    {
        if self.eof {
            return None;
        }
        let ghost p0 = self.pos as int;
        let len = self.source.len();
        let mut i = self.pos;
        let mut tok = token_at(&self.source, i);
        while i < len && tok.is_none()
            invariant
                p0 <= i <= len,
                tok == (if i < len {
                    token_of(self.bytes()[i as int])
                } else {
                    None::<Token>
                }),
                next_cmd(self.bytes(), p0) == next_cmd(self.bytes(), i as int),
            decreases len - i,
        {
            i += 1;
            tok = token_at(&self.source, i);
        }
        match tok {
            Some(t) => {
                self.pos = i + 1;
                Some(t)
            },
            None => {
                self.pos = i;
                self.eof = true;
                Some(Token::EOF)
            },
        }
    }
}

/// The token of the byte at `i`, if `i` is in range and the byte is a
/// command.
fn token_at(source: &Vec<u8>, i: usize) -> (r: Option<Token>)
    ensures
        r == (if i < source@.len() {
            token_of(source@[i as int])
        } else {
            None::<Token>
        }),
{
    if i < source.len() {
        match source[i] {
            62u8 => Some(Token::MoveRight),
            60u8 => Some(Token::MoveLeft),
            43u8 => Some(Token::Increment),
            45u8 => Some(Token::Decrement),
            46u8 => Some(Token::Output),
            44u8 => Some(Token::Input),
            91u8 => Some(Token::LeftLoop),
            93u8 => Some(Token::RightLoop),
            _ => None,
        }
    } else {
        None
    }
}

} // verus!
