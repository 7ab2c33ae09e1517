//! What the parser reports about input it cannot accept.

use vstd::prelude::*;
use crate::token::Span;

verus! {

/// The complaints the parser can make.
#[derive(Clone, Copy, Debug, PartialEq, Eq, Structural)]
pub enum Message {
    /// A token that starts no markup.
    InvalidSyntax,
    /// A byte or byte-string literal where text is wanted.
    BinaryData,
}

/// One complaint, with the place in the source it is about.
#[derive(Clone, Copy, Debug, PartialEq, Eq, Structural)]
pub struct Diagnostic {
    pub span: Span,
    pub message: Message,
}

impl Message {
    /// The wording of a message.
    pub open spec fn spec_text(self) -> Seq<char> {
        match self {
            Message::InvalidSyntax => "invalid syntax"@,
            Message::BinaryData => "cannot splice binary data"@,
        }
    }

    /// The wording of this message, as shown to the user.
    pub fn text(&self) -> (r: &'static str)
        ensures
            r@ == self.spec_text(),
    {
        match self {
            Message::InvalidSyntax => "invalid syntax",
            Message::BinaryData => "cannot splice binary data",
        }
    }
}

} // verus!
