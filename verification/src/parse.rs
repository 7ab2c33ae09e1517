//! The literal recognizer and the driver that parses a whole token buffer.
//!
//! The model comes first: `recognize` says what one attempt at a literal
//! does to a run of tokens, `unit` what one markup unit does, and `drive`
//! what the whole parse does. The executable functions follow, each tied to
//! its model.

use vstd::prelude::*;
use crate::ast::{Escape, Markup, MarkupView, PayloadView, Value, ValueView, Value_, markup_views};
use crate::cursor::Cursor;
use crate::diagnostic::{Diagnostic, Message};
use crate::token::{token_views, Lit, LitView, Span, Token, TokenKind, TokenView};

verus! {

/// `String::push` appends one character to the string and leaves the rest
/// of it as it was.
pub assume_specification[ String::push ](s: &mut String, ch: char)
    ensures
        final(s)@ == old(s)@.push(ch),
;

/// The text that stands for a literal in the markup, if it has one: the
/// contents of a string, the character itself, the spelling of a number,
/// the word for a boolean. Binary data has none.
pub open spec fn canonical_text(lit: LitView) -> Option<Seq<char>> {
    match lit {
        LitView::Str(text) => Some(text),
        LitView::Char(c) => Some(seq![c]),
        LitView::Int(spelling) => Some(spelling),
        LitView::Float(spelling) => Some(spelling),
        LitView::Bool(b) => Some(if b { "true"@ } else { "false"@ }),
        LitView::Byte(_) => None,
        LitView::Binary(_) => None,
    }
}

/// `text` with a minus sign in front, if `minus` says so.
pub open spec fn with_sign(text: Seq<char>, minus: bool) -> Seq<char> {
    if minus {
        seq!['-'] + text
    } else {
        text
    }
}

/// The complaint about binary data at `span`.
pub open spec fn binary_data_at(span: Span) -> Diagnostic {
    Diagnostic { span, message: Message::BinaryData }
}

/// The complaint about a token at `span` that starts no markup.
pub open spec fn invalid_syntax_at(span: Span) -> Diagnostic {
    Diagnostic { span, message: Message::InvalidSyntax }
}

/// What one attempt at a literal does: how many tokens it passes, the text
/// it found, and what it reported.
pub ghost struct Recognition {
    pub consumed: nat,
    pub text: Option<Seq<char>>,
    pub diagnostics: Seq<Diagnostic>,
}

/// Whether a run of tokens starts with a negation sign.
pub open spec fn starts_with_minus(tokens: Seq<TokenView>) -> bool {
    tokens.len() > 0 && tokens[0].kind is Minus
}

/// One attempt at a literal at the front of `tokens`. A leading negation
/// sign is passed whatever follows it. If a literal comes next it is passed
/// too, and gives its text with the sign in front, or, being binary data,
/// a complaint and no text. Anything else is left where it is.
pub open spec fn recognize(tokens: Seq<TokenView>) -> Recognition {
    let minus = starts_with_minus(tokens);
    let signs: nat = if minus { 1 } else { 0 };
    let rest = tokens.skip(signs as int);
    if rest.len() > 0 && rest[0].kind is Literal {
        match canonical_text(rest[0].kind->Literal_0) {
            Some(text) => Recognition {
                consumed: signs + 1,
                text: Some(with_sign(text, minus)),
                diagnostics: Seq::empty(),
            },
            None => Recognition {
                consumed: signs + 1,
                text: None,
                diagnostics: seq![binary_data_at(rest[0].span)],
            },
        }
    } else {
        Recognition { consumed: signs, text: None, diagnostics: Seq::empty() }
    }
}

/// The node for a piece of literal text: a value that is escaped when it
/// is rendered.
pub open spec fn literal_node(text: Seq<char>) -> MarkupView {
    MarkupView::Value(ValueView { value: PayloadView::Literal(text), escape: Escape::Escape })
}

/// What parsing one markup unit does: how many tokens it passes, the node
/// it makes (`Empty` where the parse stops), and what it reported.
pub ghost struct Unit {
    pub consumed: nat,
    pub node: MarkupView,
    pub diagnostics: Seq<Diagnostic>,
}

/// One markup unit at the front of `tokens`. A recognized literal becomes
/// a node. Otherwise the unit is `Empty`, and if a token is left after what
/// the attempt passed, that token is reported as invalid syntax.
pub open spec fn unit(tokens: Seq<TokenView>) -> Unit {
    let attempt = recognize(tokens);
    match attempt.text {
        Some(text) => Unit {
            consumed: attempt.consumed,
            node: literal_node(text),
            diagnostics: attempt.diagnostics,
        },
        None => {
            let rest = tokens.skip(attempt.consumed as int);
            Unit {
                consumed: attempt.consumed,
                node: MarkupView::Empty,
                diagnostics: if rest.len() > 0 {
                    attempt.diagnostics.push(invalid_syntax_at(rest[0].span))
                } else {
                    attempt.diagnostics
                },
            }
        },
    }
}

/// What a whole parse does: the nodes it made, how many tokens it left
/// unread, and everything it reported, in order.
pub ghost struct Outcome {
    pub nodes: Seq<MarkupView>,
    pub unread: nat,
    pub diagnostics: Seq<Diagnostic>,
}

/// Units are parsed one after another until one is `Empty`. Whatever stands
/// after that unit is left unread.
pub open spec fn drive(tokens: Seq<TokenView>) -> Outcome
    decreases tokens.len(),
{
    let first = unit(tokens);
    if first.node is Empty {
        Outcome {
            nodes: Seq::empty(),
            unread: (tokens.len() - first.consumed) as nat,
            diagnostics: first.diagnostics,
        }
    } else {
        let rest = drive(tokens.skip(first.consumed as int));
        Outcome {
            nodes: seq![first.node] + rest.nodes,
            unread: rest.unread,
            diagnostics: first.diagnostics + rest.diagnostics,
        }
    }
}

/// An attempt at a literal never passes more tokens than there are, and
/// passes at least one where it finds text.
pub proof fn lemma_recognize_bounds(tokens: Seq<TokenView>)
    ensures
        recognize(tokens).consumed <= tokens.len(),
        recognize(tokens).consumed <= 2,
        recognize(tokens).text is Some ==> recognize(tokens).consumed >= 1,
        recognize(tokens).text is Some ==> recognize(tokens).diagnostics.len() == 0,
{
}

/// The model of the text that a function hands back, if it hands any back.
pub open spec fn text_view(text: Option<String>) -> Option<Seq<char>> {
    match text {
        Some(s) => Some(s@),
        None => None,
    }
}

/// Taking the models of the tokens after the first `n` is the same as
/// dropping the first `n` models.
pub proof fn lemma_token_views_skip(tokens: Seq<Token>, n: int)
    requires
        0 <= n <= tokens.len(),
    ensures
        token_views(tokens.skip(n)) == token_views(tokens).skip(n),
{
    assert(token_views(tokens.skip(n)) =~= token_views(tokens).skip(n));
}

/// Turns a decoded literal into its text, with a leading `-` if `minus` is
/// set. Binary data has no text: it is reported at `span` and `None` is
/// returned.
pub fn lit_to_string(diagnostics: &mut Vec<Diagnostic>, lit: &Lit, span: Span, minus: bool) -> (r:
    Option<String>)
    ensures
        match canonical_text(lit@) {
            Some(text) => {
                &&& r matches Some(s)
                &&& s@ == with_sign(text, minus)
                &&& final(diagnostics)@ == old(diagnostics)@
            },
            None => {
                &&& r is None
                &&& final(diagnostics)@ == old(diagnostics)@.push(binary_data_at(span))
            },
        },
{
    let mut result = String::new();
    if minus {
        result.push('-');
    }
    assert(result@ =~= with_sign(Seq::empty(), minus));
    match lit {
        Lit::Str(text) => result.append(text.as_str()),
        Lit::Binary(_) | Lit::Byte(_) => {
            diagnostics.push(Diagnostic { span, message: Message::BinaryData });
            return None;
        },
        Lit::Char(c) => result.push(*c),
        Lit::Int(spelling) => result.append(spelling.as_str()),
        Lit::Float(spelling) => result.append(spelling.as_str()),
        Lit::Bool(b) => result.append(
            if *b {
                "true"
            } else {
                "false"
            },
        ),
    }
    assert(result@ =~= with_sign(canonical_text(lit@).unwrap(), minus));
    Some(result)
}

/// Tries to read one literal, with or without a negation sign before it,
/// from the front of the cursor. A negation sign is passed even when no
/// literal follows it; the cursor does not go back.
pub fn parse_literal(diagnostics: &mut Vec<Diagnostic>, cursor: &mut Cursor) -> (r: Option<String>)
    ensures
        text_view(r) == recognize(token_views(old(cursor).remaining())).text,
        final(cursor).buffer() == old(cursor).buffer(),
        final(cursor).position() == old(cursor).position() + recognize(
            token_views(old(cursor).remaining()),
        ).consumed,
        final(cursor).remaining() == old(cursor).remaining().skip(
            recognize(token_views(old(cursor).remaining())).consumed as int,
        ),
        final(diagnostics)@ == old(diagnostics)@ + recognize(
            token_views(old(cursor).remaining()),
        ).diagnostics,
{
    let ghost before = cursor.remaining();
    let minus = match cursor.peek(0) {
        Some(Token { kind: TokenKind::Minus, .. }) => {
            cursor.shift(1);
            true
        },
        _ => false,
    };
    proof {
        assert(minus == starts_with_minus(token_views(before)));
        lemma_token_views_skip(before, if minus { 1 } else { 0 });
    }
    match cursor.peek(0) {
        Some(Token { kind: TokenKind::Literal(lit), span }) => {
            cursor.shift(1);
            assert(cursor.remaining() =~= before.skip(if minus { 2int } else { 1int }));
            let text = lit_to_string(diagnostics, lit, *span, minus);
            assert(diagnostics@ =~= old(diagnostics)@ + recognize(token_views(before)).diagnostics);
            text
        },
        _ => {
            assert(diagnostics@ =~= old(diagnostics)@ + recognize(token_views(before)).diagnostics);
            None
        },
    }
}

/// Parses one markup unit. `Empty` says that the parse stops here: either
/// nothing is left, or the next token starts no markup and has been
/// reported.
pub fn parse_markup(diagnostics: &mut Vec<Diagnostic>, cursor: &mut Cursor) -> (r: Markup)
    ensures
        r@ == unit(token_views(old(cursor).remaining())).node,
        final(cursor).buffer() == old(cursor).buffer(),
        final(cursor).position() == old(cursor).position() + unit(
            token_views(old(cursor).remaining()),
        ).consumed,
        final(cursor).remaining() == old(cursor).remaining().skip(
            unit(token_views(old(cursor).remaining())).consumed as int,
        ),
        final(diagnostics)@ == old(diagnostics)@ + unit(
            token_views(old(cursor).remaining()),
        ).diagnostics,
{
    let ghost before = cursor.remaining();
    proof {
        lemma_recognize_bounds(token_views(before));
    }
    if let Some(s) = parse_literal(diagnostics, cursor) {
        Markup::Value(Value::escape(Value_::Literal(s)))
    } else {
        proof {
            lemma_token_views_skip(before, recognize(token_views(before)).consumed as int);
        }
        match cursor.peek(0) {
            None => Markup::Empty,
            Some(token) => {
                diagnostics.push(Diagnostic { span: token.span, message: Message::InvalidSyntax });
                assert(diagnostics@ =~= old(diagnostics)@ + unit(token_views(before)).diagnostics);
                Markup::Empty
            },
        }
    }
}

/// Parses a whole token buffer. The nodes are handed back only if every
/// token was read; a parse that stopped early gives `None`, however many
/// nodes it had made. What is reported goes to the end of `diagnostics`.
pub fn parse(diagnostics: &mut Vec<Diagnostic>, tokens: &[Token]) -> (r: Option<Vec<Markup>>)
    ensures
        r is Some <==> drive(token_views(tokens@)).unread == 0,
        r matches Some(nodes) ==> markup_views(nodes@) == drive(token_views(tokens@)).nodes,
        final(diagnostics)@ == old(diagnostics)@ + drive(token_views(tokens@)).diagnostics,
{
    let mut cursor = Cursor::new(tokens);
    let mut result: Vec<Markup> = Vec::new();
    let ghost whole = drive(token_views(tokens@));
    loop
        invariant_except_break
            whole.nodes == markup_views(result@) + drive(token_views(cursor.remaining())).nodes,
            whole.unread == drive(token_views(cursor.remaining())).unread,
            old(diagnostics)@ + whole.diagnostics == diagnostics@ + drive(
                token_views(cursor.remaining()),
            ).diagnostics,
        invariant
            cursor.buffer() == tokens@,
            whole == drive(token_views(tokens@)),
        ensures
            whole.nodes == markup_views(result@),
            whole.unread == cursor.remaining().len(),
            diagnostics@ == old(diagnostics)@ + whole.diagnostics,
        decreases cursor.remaining().len(),
    {
        let ghost before = cursor.remaining();
        let ghost nodes_before = result@;
        proof {
            lemma_recognize_bounds(token_views(before));
            lemma_token_views_skip(before, unit(token_views(before)).consumed as int);
        }
        match parse_markup(diagnostics, &mut cursor) {
            Markup::Empty => {
                assert(whole.nodes =~= markup_views(result@));
                assert(diagnostics@ =~= old(diagnostics)@ + whole.diagnostics);
                break ;
            },
            markup => {
                result.push(markup);
                assert(markup_views(result@) =~= markup_views(nodes_before).push(markup@));
                assert(whole.nodes =~= markup_views(result@) + drive(
                    token_views(cursor.remaining()),
                ).nodes);
                assert(old(diagnostics)@ + whole.diagnostics =~= diagnostics@ + drive(
                    token_views(cursor.remaining()),
                ).diagnostics);
            },
        }
    }
    if cursor.is_empty() {
        Some(result)
    } else {
        None
    }
}

} // verus!
