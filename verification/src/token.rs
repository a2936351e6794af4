//! The earlier name of the byte scanner: a `Tokenizer` scans source bytes
//! into tokens exactly as `Lexer` does, and is kept as a thin front over it.

use vstd::prelude::*;

use crate::common::Token;
use crate::lexer::{next_cmd, token_of, Lexer};

verus! {

/// Scans a byte source into tokens; the same scan as `Lexer`.
pub struct Tokenizer {
    inner: Lexer,
}

impl Tokenizer {
    /// The bytes being scanned.
    pub closed spec fn bytes(&self) -> Seq<u8> {
        self.inner.bytes()
    }

    /// How many bytes have been consumed.
    pub closed spec fn cursor(&self) -> int {
        self.inner.cursor()
    }

    /// Whether the `EOF` token has been handed out.
    pub closed spec fn done(&self) -> bool {
        self.inner.done()
    }

    /// A tokenizer over the given source bytes.
    pub fn new(source: Vec<u8>) -> (r: Tokenizer)
        ensures
            r.bytes() == source@,
            r.cursor() == 0,
            !r.done(),
    {
        Tokenizer { inner: Lexer::new(source) }
    }

    /// The next token: the token of the next command byte, `EOF` once at the
    /// end of the input, and nothing after that.
    pub fn next(&mut self) -> (r: Option<Token>)
        requires
            old(self).cursor() <= old(self).bytes().len(),
        ensures
            final(self).bytes() == old(self).bytes(),
            old(self).cursor() <= final(self).cursor() <= final(self).bytes().len(),
            old(self).done() ==> r is None && *final(self) == *old(self),
            !old(self).done() ==> ({
                let j = next_cmd(old(self).bytes(), old(self).cursor());
                if j < old(self).bytes().len() {
                    &&& r == token_of(old(self).bytes()[j])
                    &&& final(self).cursor() == j + 1
                    &&& !final(self).done()
                } else {
                    &&& r == Some(Token::EOF)
                    &&& final(self).done()
                }
            }),
    {
        self.inner.next()
    }
}

} // verus!
