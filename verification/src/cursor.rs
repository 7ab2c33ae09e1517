//! A position in a borrowed token buffer that only moves forward.

use vstd::prelude::*;
use crate::token::{token_views, Token, TokenView};

verus! {

/// A view of the tokens that are still to be read. The buffer is borrowed
/// and never changed; moving on is a change of offset.
pub struct Cursor<'a> {
    tokens: &'a [Token],
    offset: usize,
}

impl<'a> Cursor<'a> {
    #[verifier::type_invariant]
    spec fn in_bounds(&self) -> bool {
        self.offset <= self.tokens@.len()
    }

    /// The whole buffer, read or not.
    pub closed spec fn buffer(&self) -> Seq<Token> {
        self.tokens@
    }

    /// How many tokens have been passed.
    pub closed spec fn position(&self) -> nat {
        self.offset as nat
    }

    /// The tokens that are still to be read.
    pub open spec fn remaining(&self) -> Seq<Token> {
        self.buffer().skip(self.position() as int)
    }

    /// A cursor at the start of `tokens`.
    pub fn new(tokens: &'a [Token]) -> (r: Cursor<'a>)
        ensures
            r.buffer() == tokens@,
            r.position() == 0,
            r.remaining() == tokens@,
    {
        Cursor { tokens, offset: 0 }
    }

    /// The number of tokens still to be read.
    pub fn len(&self) -> (r: usize)
        ensures
            r == self.remaining().len(),
            self.position() + r == self.buffer().len(),
    {
        proof {
            use_type_invariant(self);
        }
        self.tokens.len() - self.offset
    }

    /// Whether every token has been read.
    pub fn is_empty(&self) -> (r: bool)
        ensures
            r == (self.remaining().len() == 0),
    {
        proof {
            use_type_invariant(self);
        }
        self.offset == self.tokens.len()
    }

    /// The token `ahead` places past the next one, if the buffer has it.
    pub fn peek(&self, ahead: usize) -> (r: Option<&'a Token>)
        ensures
            r is Some <==> ahead < self.remaining().len(),
            r matches Some(token) ==> *token == self.remaining()[ahead as int],
    {
        proof {
            use_type_invariant(self);
        }
        if ahead < self.tokens.len() - self.offset {
            Some(&self.tokens[self.offset + ahead])
        } else {
            None
        }
    }

    /// Passes over the next `n` tokens. Nothing is checked at run time: the
    /// caller has just seen that many tokens.
    pub fn shift(&mut self, n: usize)
        requires
            n <= old(self).remaining().len(),
        ensures
            final(self).buffer() == old(self).buffer(),
            final(self).position() == old(self).position() + n,
            final(self).remaining() == old(self).remaining().skip(n as int),
    {
        proof {
            use_type_invariant(&*self);
            assert(self.remaining().len() == self.tokens.len() - self.offset);
        }
        self.offset = self.offset + n;
    }
}

} // verus!
