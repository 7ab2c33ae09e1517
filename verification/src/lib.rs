//! Recognizer for the literal values of a markup template, and the driver
//! that turns a token buffer into a sequence of markup nodes.
//!
//! The caller supplies tokens that already carry their kind, their source
//! span and, for literals, the decoded value. Diagnostics are appended to a
//! log that the caller owns. Every function is verified against a
//! mathematical model of the token buffer; see `parse` for the model.

pub mod ast;
pub mod cursor;
pub mod diagnostic;
pub mod laws;
pub mod parse;
pub mod token;

pub use ast::{Escape, Expr, Markup, Value, Value_};
pub use cursor::Cursor;
pub use diagnostic::{Diagnostic, Message};
pub use token::{Lit, Span, Token, TokenKind};
pub use parse::{lit_to_string, parse, parse_literal, parse_markup};
