//! What holds of the recognizer and of the driver on every input, proved
//! over the model that their contracts use.

use vstd::prelude::*;
use crate::ast::{Escape, MarkupView};
use crate::diagnostic::{Diagnostic, Message};
use crate::parse::{
    binary_data_at, canonical_text, drive, invalid_syntax_at, literal_node, recognize, unit,
    with_sign,
};
use crate::token::{LitView, TokenKindView, TokenView};

verus! {

/// Whether a token is a literal that has a text.
pub open spec fn is_text_literal(token: TokenView) -> bool {
    token.kind matches TokenKindView::Literal(lit) && canonical_text(lit) is Some
}

/// Whether a token is a literal of binary data.
pub open spec fn is_binary_literal(token: TokenView) -> bool {
    token.kind matches TokenKindView::Literal(lit) && canonical_text(lit) is None
}

/// The text of a literal token.
pub open spec fn token_text(token: TokenView) -> Seq<char>
    recommends
        is_text_literal(token),
{
    canonical_text(token.kind->Literal_0).unwrap()
}

/// How many of `diagnostics` carry `message`.
pub open spec fn count_message(diagnostics: Seq<Diagnostic>, message: Message) -> nat
    decreases diagnostics.len(),
{
    if diagnostics.len() == 0 {
        0
    } else {
        let before = count_message(diagnostics.drop_last(), message);
        if diagnostics.last().message == message {
            before + 1
        } else {
            before
        }
    }
}

/// A literal with a text and no sign before it is recognized as that text;
/// one token is passed and nothing is reported.
pub proof fn lemma_unsigned_literal(tokens: Seq<TokenView>)
    requires
        tokens.len() > 0,
        is_text_literal(tokens[0]),
    ensures
        recognize(tokens).text == Some(token_text(tokens[0])),
        recognize(tokens).consumed == 1,
        recognize(tokens).diagnostics == Seq::<Diagnostic>::empty(),
{
}

/// A negation sign and then a literal with a text are recognized as `-`
/// followed by that text; two tokens are passed and nothing is reported.
pub proof fn lemma_signed_literal(tokens: Seq<TokenView>)
    requires
        tokens.len() > 1,
        tokens[0].kind is Minus,
        is_text_literal(tokens[1]),
    ensures
        recognize(tokens).text == Some(seq!['-'] + token_text(tokens[1])),
        recognize(tokens).consumed == 2,
        recognize(tokens).diagnostics == Seq::<Diagnostic>::empty(),
{
}

/// A negation sign that no literal follows is passed all the same: nothing
/// is recognized, nothing is reported, and the cursor has moved by one.
pub proof fn lemma_sign_without_literal(tokens: Seq<TokenView>)
    requires
        tokens.len() > 0,
        tokens[0].kind is Minus,
        tokens.len() > 1 ==> !(tokens[1].kind is Literal),
    ensures
        recognize(tokens).text is None,
        recognize(tokens).consumed == 1,
        recognize(tokens).diagnostics == Seq::<Diagnostic>::empty(),
{
}

/// A literal of binary data is passed and reported once, at its own place,
/// and gives no text.
pub proof fn lemma_binary_literal(tokens: Seq<TokenView>)
    requires
        tokens.len() > 0,
        is_binary_literal(tokens[0]),
    ensures
        recognize(tokens).text is None,
        recognize(tokens).consumed == 1,
        recognize(tokens).diagnostics == seq![binary_data_at(tokens[0].span)],
{
}

/// The same after a negation sign: both tokens are passed.
pub proof fn lemma_signed_binary_literal(tokens: Seq<TokenView>)
    requires
        tokens.len() > 1,
        tokens[0].kind is Minus,
        is_binary_literal(tokens[1]),
    ensures
        recognize(tokens).text is None,
        recognize(tokens).consumed == 2,
        recognize(tokens).diagnostics == seq![binary_data_at(tokens[1].span)],
{
}

/// A token that is neither a sign nor a literal is never passed.
pub proof fn lemma_other_token_stays(tokens: Seq<TokenView>)
    requires
        tokens.len() > 0,
        tokens[0].kind is Other,
    ensures
        recognize(tokens).text is None,
        recognize(tokens).consumed == 0,
        recognize(tokens).diagnostics == Seq::<Diagnostic>::empty(),
{
}

/// The text of a literal is what the literal holds, character for
/// character: the contents of a string, the spelling of a number, the word
/// for a boolean. A sign adds one `-` in front and changes nothing else.
pub proof fn lemma_text_keeps_spelling(lit: LitView, minus: bool)
    requires
        canonical_text(lit) is Some,
    ensures
        lit matches LitView::Str(text) ==> canonical_text(lit) == Some(text),
        lit matches LitView::Int(spelling) ==> canonical_text(lit) == Some(spelling),
        lit matches LitView::Float(spelling) ==> canonical_text(lit) == Some(spelling),
        lit matches LitView::Char(c) ==> canonical_text(lit) == Some(seq![c]),
        lit == LitView::Bool(true) ==> canonical_text(lit) == Some(
            seq!['t', 'r', 'u', 'e'],
        ),
        lit == LitView::Bool(false) ==> canonical_text(lit) == Some(
            seq!['f', 'a', 'l', 's', 'e'],
        ),
        !minus ==> with_sign(canonical_text(lit).unwrap(), minus) == canonical_text(lit).unwrap(),
        minus ==> with_sign(canonical_text(lit).unwrap(), minus).len() == canonical_text(
            lit,
        ).unwrap().len() + 1,
        minus ==> with_sign(canonical_text(lit).unwrap(), minus)[0] == '-',
        minus ==> with_sign(canonical_text(lit).unwrap(), minus).skip(1) == canonical_text(
            lit,
        ).unwrap(),
{
    reveal_strlit("true");
    reveal_strlit("false");
    assert("true"@ =~= seq!['t', 'r', 'u', 'e']);
    assert("false"@ =~= seq!['f', 'a', 'l', 's', 'e']);
    let text = canonical_text(lit).unwrap();
    assert((seq!['-'] + text).skip(1) =~= text);
}

/// One more diagnostic adds one to the count of its own message and
/// nothing to the count of any other.
pub proof fn lemma_count_message_push(
    diagnostics: Seq<Diagnostic>,
    last: Diagnostic,
    message: Message,
)
    ensures
        count_message(diagnostics.push(last), message) == count_message(diagnostics, message) + (
        if last.message == message {
            1nat
        } else {
            0nat
        }),
{
    assert(diagnostics.push(last).drop_last() =~= diagnostics);
}

/// An empty input parses to no nodes, with nothing left and nothing
/// reported.
pub proof fn lemma_empty_input()
    ensures
        drive(Seq::<TokenView>::empty()).nodes == Seq::<MarkupView>::empty(),
        drive(Seq::<TokenView>::empty()).unread == 0,
        drive(Seq::<TokenView>::empty()).diagnostics == Seq::<Diagnostic>::empty(),
{
}

/// A parse leaves no more tokens than it was given, and makes no more
/// nodes than it read tokens.
pub proof fn lemma_drive_bounds(tokens: Seq<TokenView>)
    ensures
        drive(tokens).unread <= tokens.len(),
        drive(tokens).nodes.len() + drive(tokens).unread <= tokens.len(),
    decreases tokens.len(),
{
    let first = unit(tokens);
    if !(first.node is Empty) {
        lemma_drive_bounds(tokens.skip(first.consumed as int));
    }
}

/// Every node that a parse makes is a value that holds literal text and is
/// escaped. `Empty` is never among them.
pub proof fn lemma_nodes_are_escaped_literals(tokens: Seq<TokenView>, i: int)
    requires
        0 <= i < drive(tokens).nodes.len(),
    ensures
        drive(tokens).nodes[i] matches MarkupView::Value(value) && value.escape == Escape::Escape
            && value.value is Literal,
    decreases tokens.len(),
{
    let first = unit(tokens);
    if !(first.node is Empty) {
        if i > 0 {
            lemma_nodes_are_escaped_literals(tokens.skip(first.consumed as int), i - 1);
        }
    }
}

/// A parse fails exactly when it reports invalid syntax, and it reports it
/// once: tokens are left unread if and only if one such complaint was made,
/// and none was made if every token was read. Binary data is reported at
/// most once.
pub proof fn lemma_failure_is_reported_once(tokens: Seq<TokenView>)
    ensures
        drive(tokens).unread > 0 <==> count_message(
            drive(tokens).diagnostics,
            Message::InvalidSyntax,
        ) == 1,
        drive(tokens).unread == 0 <==> count_message(
            drive(tokens).diagnostics,
            Message::InvalidSyntax,
        ) == 0,
        count_message(drive(tokens).diagnostics, Message::BinaryData) <= 1,
    decreases tokens.len(),
{
    let first = unit(tokens);
    let attempt = recognize(tokens);
    if first.node is Empty {
        let rest = tokens.skip(attempt.consumed as int);
        let none = Seq::<Diagnostic>::empty();
        assert(attempt.diagnostics.len() <= 1);
        if attempt.diagnostics.len() == 1 {
            assert(attempt.diagnostics =~= none.push(attempt.diagnostics[0]));
            lemma_count_message_push(none, attempt.diagnostics[0], Message::InvalidSyntax);
            lemma_count_message_push(none, attempt.diagnostics[0], Message::BinaryData);
        }
        if rest.len() > 0 {
            let complaint = invalid_syntax_at(rest[0].span);
            lemma_count_message_push(attempt.diagnostics, complaint, Message::InvalidSyntax);
            lemma_count_message_push(attempt.diagnostics, complaint, Message::BinaryData);
        }
    } else {
        let rest = drive(tokens.skip(first.consumed as int));
        lemma_failure_is_reported_once(tokens.skip(first.consumed as int));
        assert(first.diagnostics + rest.diagnostics =~= rest.diagnostics);
    }
}

/// A run of literals that all have a text parses to one node for each, in
/// order, each holding the text of its literal; every token is read and
/// nothing is reported.
pub proof fn lemma_literals_all_become_nodes(tokens: Seq<TokenView>)
    requires
        forall|i: int| 0 <= i < tokens.len() ==> is_text_literal(#[trigger] tokens[i]),
    ensures
        drive(tokens).unread == 0,
        drive(tokens).diagnostics == Seq::<Diagnostic>::empty(),
        drive(tokens).nodes.len() == tokens.len(),
        forall|i: int|
            0 <= i < tokens.len() ==> #[trigger] drive(tokens).nodes[i] == literal_node(
                token_text(tokens[i]),
            ),
    decreases tokens.len(),
{
    if tokens.len() > 0 {
        let rest = tokens.skip(1);
        assert(is_text_literal(tokens[0]));
        assert(unit(tokens).consumed == 1);
        assert forall|i: int| 0 <= i < rest.len() implies is_text_literal(#[trigger] rest[i]) by {
            assert(rest[i] == tokens[i + 1]);
        }
        lemma_literals_all_become_nodes(rest);
        assert(drive(tokens).diagnostics =~= Seq::<Diagnostic>::empty());
        assert forall|i: int| 0 <= i < tokens.len() implies #[trigger] drive(tokens).nodes[i]
            == literal_node(token_text(tokens[i])) by {
            if i > 0 {
                assert(drive(tokens).nodes[i] == drive(rest).nodes[i - 1]);
                assert(rest[i - 1] == tokens[i]);
            }
        }
    }
}

/// A token that is neither a sign nor a literal makes the parse fail,
/// wherever it stands and whatever stands around it.
pub proof fn lemma_other_token_fails(tokens: Seq<TokenView>, at: int)
    requires
        0 <= at < tokens.len(),
        tokens[at].kind is Other,
    ensures
        drive(tokens).unread > 0,
    decreases tokens.len(),
{
    let first = unit(tokens);
    if !(first.node is Empty) {
        let rest = tokens.skip(first.consumed as int);
        assert(rest[at - first.consumed] == tokens[at]);
        lemma_other_token_fails(rest, at - first.consumed);
    }
}

/// A literal of binary data makes the parse fail unless it is the last
/// token.
pub proof fn lemma_binary_before_end_fails(tokens: Seq<TokenView>, at: int)
    requires
        0 <= at < tokens.len() - 1,
        is_binary_literal(tokens[at]),
    ensures
        drive(tokens).unread > 0,
    decreases tokens.len(),
{
    let first = unit(tokens);
    if !(first.node is Empty) {
        let rest = tokens.skip(first.consumed as int);
        assert(rest[at - first.consumed] == tokens[at]);
        lemma_binary_before_end_fails(rest, at - first.consumed);
    }
}

/// Among literals, one token that is no literal makes the parse fail with
/// exactly one complaint of invalid syntax, however many literals stand
/// before it. This holds where the token is no negation sign, or where
/// binary data stands before the last token; a sign among literals that
/// all have a text is read as part of the input, or passed at its end.
pub proof fn lemma_one_stray_token(tokens: Seq<TokenView>, at: int)
    requires
        0 <= at < tokens.len(),
        !(tokens[at].kind is Literal),
        forall|i: int| 0 <= i < tokens.len() && i != at ==> (#[trigger] tokens[i]).kind is Literal,
        tokens[at].kind is Other || exists|j: int|
            0 <= j < tokens.len() - 1 && is_binary_literal(#[trigger] tokens[j]),
    ensures
        drive(tokens).unread > 0,
        count_message(drive(tokens).diagnostics, Message::InvalidSyntax) == 1,
{
    if tokens[at].kind is Other {
        lemma_other_token_fails(tokens, at);
    } else {
        let j = choose|j: int| 0 <= j < tokens.len() - 1 && is_binary_literal(#[trigger] tokens[j]);
        lemma_binary_before_end_fails(tokens, j);
    }
    lemma_failure_is_reported_once(tokens);
}

/// Where a sign is the one token that is no literal, and no binary data
/// stands before the last token, every token is read and the parse
/// succeeds without a complaint of invalid syntax.
pub proof fn lemma_stray_sign_is_passed(tokens: Seq<TokenView>, at: int)
    requires
        0 <= at < tokens.len(),
        tokens[at].kind is Minus,
        forall|i: int| 0 <= i < tokens.len() && i != at ==> (#[trigger] tokens[i]).kind is Literal,
        forall|j: int| 0 <= j < tokens.len() - 1 ==> !is_binary_literal(#[trigger] tokens[j]),
    ensures
        drive(tokens).unread == 0,
        count_message(drive(tokens).diagnostics, Message::InvalidSyntax) == 0,
    decreases tokens.len(),
{
    let first = unit(tokens);
    if !(first.node is Empty) {
        let rest = tokens.skip(first.consumed as int);
        assert forall|j: int| 0 <= j < rest.len() - 1 implies !is_binary_literal(
            #[trigger] rest[j],
        ) by {
            assert(rest[j] == tokens[j + first.consumed]);
        }
        if at >= first.consumed {
            assert(rest[at - first.consumed] == tokens[at]);
            assert forall|i: int| 0 <= i < rest.len() && i != at - first.consumed implies (
            #[trigger] rest[i]).kind is Literal by {
                assert(rest[i] == tokens[i + first.consumed]);
            }
            lemma_stray_sign_is_passed(rest, at - first.consumed);
        } else {
            assert forall|i: int| 0 <= i < rest.len() implies (#[trigger] rest[i]).kind is Literal by {
                assert(rest[i] == tokens[i + first.consumed]);
            }
            lemma_literals_are_read(rest);
        }
    } else {
        if tokens[0].kind is Literal {
            assert(is_binary_literal(tokens[0]));
        } else {
            assert(at == 0);
            if tokens.len() > 1 {
                assert(tokens[1].kind is Literal);
                assert(is_binary_literal(tokens[1]));
            }
        }
    }
    lemma_failure_is_reported_once(tokens);
}

/// A run of literals with no binary data before its last token is read to
/// the end.
pub proof fn lemma_literals_are_read(tokens: Seq<TokenView>)
    requires
        forall|i: int| 0 <= i < tokens.len() ==> (#[trigger] tokens[i]).kind is Literal,
        forall|j: int| 0 <= j < tokens.len() - 1 ==> !is_binary_literal(#[trigger] tokens[j]),
    ensures
        drive(tokens).unread == 0,
    decreases tokens.len(),
{
    if tokens.len() > 0 {
        let first = unit(tokens);
        assert(tokens[0].kind is Literal);
        if !(first.node is Empty) {
            let rest = tokens.skip(1);
            assert forall|i: int| 0 <= i < rest.len() implies (#[trigger] rest[i]).kind is Literal by {
                assert(rest[i] == tokens[i + 1]);
            }
            assert forall|j: int| 0 <= j < rest.len() - 1 implies !is_binary_literal(
                #[trigger] rest[j],
            ) by {
                assert(rest[j] == tokens[j + 1]);
            }
            lemma_literals_are_read(rest);
        } else {
            assert(is_binary_literal(tokens[0]));
        }
    }
}

} // verus!
