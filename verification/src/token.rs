//! The tokens that the recognizer reads: a kind, a source span and, for a
//! literal, its decoded value.

use vstd::prelude::*;

verus! {

/// A range of the source text, as byte offsets.
#[derive(Clone, Copy, Debug, PartialEq, Eq, Structural)]
pub struct Span {
    pub lo: u32,
    pub hi: u32,
}

/// The decoded value of a literal token. Numbers keep the spelling they had
/// in the source.
#[derive(Clone, Debug, PartialEq, Eq)]
pub enum Lit {
    /// The contents of a string literal, without its quotes.
    Str(String),
    Char(char),
    /// An integer literal, as written.
    Int(String),
    /// A floating-point literal, as written.
    Float(String),
    Bool(bool),
    Byte(u8),
    Binary(Vec<u8>),
}

/// What a token is, as far as the recognizer tells tokens apart.
#[derive(Clone, Debug, PartialEq, Eq)]
pub enum TokenKind {
    /// The arithmetic negation sign.
    Minus,
    Literal(Lit),
    /// Any other token.
    Other,
}

/// One token of the input.
#[derive(Clone, Debug, PartialEq, Eq)]
pub struct Token {
    pub kind: TokenKind,
    pub span: Span,
}

/// Model of [`Lit`].
pub ghost enum LitView {
    Str(Seq<char>),
    Char(char),
    Int(Seq<char>),
    Float(Seq<char>),
    Bool(bool),
    Byte(u8),
    Binary(Seq<u8>),
}

/// Model of [`TokenKind`].
pub ghost enum TokenKindView {
    Minus,
    Literal(LitView),
    Other,
}

/// Model of [`Token`].
pub ghost struct TokenView {
    pub kind: TokenKindView,
    pub span: Span,
}

impl View for Lit {
    type V = LitView;

    open spec fn view(&self) -> LitView {
        match self {
            Lit::Str(text) => LitView::Str(text@),
            Lit::Char(c) => LitView::Char(*c),
            Lit::Int(spelling) => LitView::Int(spelling@),
            Lit::Float(spelling) => LitView::Float(spelling@),
            Lit::Bool(b) => LitView::Bool(*b),
            Lit::Byte(byte) => LitView::Byte(*byte),
            Lit::Binary(bytes) => LitView::Binary(bytes@),
        }
    }
}

impl View for TokenKind {
    type V = TokenKindView;

    open spec fn view(&self) -> TokenKindView {
        match self {
            TokenKind::Minus => TokenKindView::Minus,
            TokenKind::Literal(lit) => TokenKindView::Literal(lit@),
            TokenKind::Other => TokenKindView::Other,
        }
    }
}

impl View for Token {
    type V = TokenView;

    open spec fn view(&self) -> TokenView {
        TokenView { kind: self.kind@, span: self.span }
    }
}

/// The models of a run of tokens, in order.
pub open spec fn token_views(tokens: Seq<Token>) -> Seq<TokenView> {
    Seq::new(tokens.len(), |i: int| tokens[i]@)
}

} // verus!
