use maud_parse::{lit_to_string, parse_literal, Cursor, Diagnostic, Lit, Message, Span, Token, TokenKind};

fn at(lo: u32, hi: u32) -> Span {
    Span { lo, hi }
}

fn literal(lit: Lit, lo: u32, hi: u32) -> Token {
    Token { kind: TokenKind::Literal(lit), span: at(lo, hi) }
}

fn minus(lo: u32) -> Token {
    Token { kind: TokenKind::Minus, span: at(lo, lo + 1) }
}

fn other(lo: u32) -> Token {
    Token { kind: TokenKind::Other, span: at(lo, lo + 1) }
}

#[test]
fn string_literal_gives_its_contents() {
    let tokens = vec![literal(Lit::Str("a \"b\" <c>".to_string()), 0, 11), other(12)];
    let mut log = Vec::new();
    let mut cursor = Cursor::new(&tokens);
    assert_eq!(parse_literal(&mut log, &mut cursor), Some("a \"b\" <c>".to_string()));
    assert_eq!(cursor.len(), 1);
    assert!(log.is_empty());
}

#[test]
fn char_literal_gives_the_character() {
    let tokens = vec![literal(Lit::Char('é'), 0, 3)];
    let mut log = Vec::new();
    let mut cursor = Cursor::new(&tokens);
    assert_eq!(parse_literal(&mut log, &mut cursor), Some("é".to_string()));
    assert_eq!(cursor.len(), 0);
    assert!(cursor.is_empty());
    assert!(log.is_empty());
}

#[test]
fn integer_literal_keeps_its_spelling() {
    let tokens = vec![literal(Lit::Int("0x_FFu8".to_string()), 0, 7), literal(Lit::Int("007".to_string()), 8, 11)];
    let mut log = Vec::new();
    let mut cursor = Cursor::new(&tokens);
    assert_eq!(parse_literal(&mut log, &mut cursor), Some("0x_FFu8".to_string()));
    assert_eq!(cursor.len(), 1);
    assert_eq!(parse_literal(&mut log, &mut cursor), Some("007".to_string()));
    assert_eq!(cursor.len(), 0);
    assert!(log.is_empty());
}

#[test]
fn float_literal_keeps_its_spelling() {
    let tokens = vec![literal(Lit::Float("1.50e+03".to_string()), 0, 8)];
    let mut log = Vec::new();
    let mut cursor = Cursor::new(&tokens);
    assert_eq!(parse_literal(&mut log, &mut cursor), Some("1.50e+03".to_string()));
    assert!(cursor.is_empty());
    assert!(log.is_empty());
}

#[test]
fn boolean_literals_give_their_words() {
    let tokens = vec![literal(Lit::Bool(true), 0, 4), literal(Lit::Bool(false), 5, 10)];
    let mut log = Vec::new();
    let mut cursor = Cursor::new(&tokens);
    assert_eq!(parse_literal(&mut log, &mut cursor), Some("true".to_string()));
    assert_eq!(parse_literal(&mut log, &mut cursor), Some("false".to_string()));
    assert!(cursor.is_empty());
    assert!(log.is_empty());
}

#[test]
fn sign_before_a_number_is_prepended() {
    let tokens = vec![minus(0), literal(Lit::Int("42".to_string()), 1, 3), other(4)];
    let mut log = Vec::new();
    let mut cursor = Cursor::new(&tokens);
    assert_eq!(parse_literal(&mut log, &mut cursor), Some("-42".to_string()));
    assert_eq!(cursor.len(), 1);
    assert!(log.is_empty());
}

#[test]
fn sign_before_a_float_is_prepended() {
    let tokens = vec![minus(0), literal(Lit::Float("0.5".to_string()), 1, 4)];
    let mut log = Vec::new();
    let mut cursor = Cursor::new(&tokens);
    assert_eq!(parse_literal(&mut log, &mut cursor), Some("-0.5".to_string()));
    assert_eq!(cursor.len(), 0);
    assert!(log.is_empty());
}

#[test]
fn sign_before_a_char_is_prepended() {
    let tokens = vec![minus(0), literal(Lit::Char('x'), 1, 4)];
    let mut log = Vec::new();
    let mut cursor = Cursor::new(&tokens);
    assert_eq!(parse_literal(&mut log, &mut cursor), Some("-x".to_string()));
    assert!(cursor.is_empty());
}

#[test]
fn sign_without_a_literal_is_still_passed() {
    let tokens = vec![minus(0), other(1), literal(Lit::Int("1".to_string()), 2, 3)];
    let mut log = Vec::new();
    let mut cursor = Cursor::new(&tokens);
    assert_eq!(parse_literal(&mut log, &mut cursor), None);
    assert_eq!(cursor.len(), 2);
    assert_eq!(cursor.peek(0), Some(&tokens[1]));
    assert!(log.is_empty());
}

#[test]
fn two_signs_pass_one_token() {
    let tokens = vec![minus(0), minus(1), literal(Lit::Int("1".to_string()), 2, 3)];
    let mut log = Vec::new();
    let mut cursor = Cursor::new(&tokens);
    assert_eq!(parse_literal(&mut log, &mut cursor), None);
    assert_eq!(cursor.len(), 2);
    assert!(log.is_empty());
}

#[test]
fn lone_sign_is_passed() {
    let tokens = vec![minus(0)];
    let mut log = Vec::new();
    let mut cursor = Cursor::new(&tokens);
    assert_eq!(parse_literal(&mut log, &mut cursor), None);
    assert!(cursor.is_empty());
    assert!(log.is_empty());
}

#[test]
fn other_token_is_not_passed() {
    let tokens = vec![other(0), literal(Lit::Int("1".to_string()), 1, 2)];
    let mut log = Vec::new();
    let mut cursor = Cursor::new(&tokens);
    assert_eq!(parse_literal(&mut log, &mut cursor), None);
    assert_eq!(cursor.len(), 2);
    assert!(log.is_empty());
}

#[test]
fn nothing_to_read_gives_nothing() {
    let tokens: Vec<Token> = vec![];
    let mut log = Vec::new();
    let mut cursor = Cursor::new(&tokens);
    assert_eq!(parse_literal(&mut log, &mut cursor), None);
    assert!(cursor.is_empty());
    assert!(log.is_empty());
}

#[test]
fn byte_literal_is_reported_and_passed() {
    let tokens = vec![literal(Lit::Byte(b'a'), 3, 7), other(8)];
    let mut log = Vec::new();
    let mut cursor = Cursor::new(&tokens);
    assert_eq!(parse_literal(&mut log, &mut cursor), None);
    assert_eq!(cursor.len(), 1);
    assert_eq!(log, vec![Diagnostic { span: at(3, 7), message: Message::BinaryData }]);
}

#[test]
fn byte_string_literal_is_reported_and_passed() {
    let tokens = vec![literal(Lit::Binary(vec![1, 2, 3]), 0, 6)];
    let mut log = vec![Diagnostic { span: at(90, 91), message: Message::InvalidSyntax }];
    let mut cursor = Cursor::new(&tokens);
    assert_eq!(parse_literal(&mut log, &mut cursor), None);
    assert!(cursor.is_empty());
    assert_eq!(
        log,
        vec![
            Diagnostic { span: at(90, 91), message: Message::InvalidSyntax },
            Diagnostic { span: at(0, 6), message: Message::BinaryData },
        ]
    );
}

#[test]
fn signed_byte_literal_passes_both_tokens() {
    let tokens = vec![minus(0), literal(Lit::Byte(7), 1, 5), other(6)];
    let mut log = Vec::new();
    let mut cursor = Cursor::new(&tokens);
    assert_eq!(parse_literal(&mut log, &mut cursor), None);
    assert_eq!(cursor.len(), 1);
    assert_eq!(log, vec![Diagnostic { span: at(1, 5), message: Message::BinaryData }]);
}

#[test]
fn lit_to_string_without_sign() {
    let mut log = Vec::new();
    assert_eq!(lit_to_string(&mut log, &Lit::Str(String::new()), at(0, 2), false), Some(String::new()));
    assert_eq!(lit_to_string(&mut log, &Lit::Str("hi".to_string()), at(0, 4), false), Some("hi".to_string()));
    assert_eq!(lit_to_string(&mut log, &Lit::Char('c'), at(0, 3), false), Some("c".to_string()));
    assert_eq!(lit_to_string(&mut log, &Lit::Int("1_000".to_string()), at(0, 5), false), Some("1_000".to_string()));
    assert_eq!(lit_to_string(&mut log, &Lit::Float("2.0f32".to_string()), at(0, 6), false), Some("2.0f32".to_string()));
    assert_eq!(lit_to_string(&mut log, &Lit::Bool(true), at(0, 4), false), Some("true".to_string()));
    assert_eq!(lit_to_string(&mut log, &Lit::Bool(false), at(0, 5), false), Some("false".to_string()));
    assert!(log.is_empty());
}

#[test]
fn lit_to_string_with_sign() {
    let mut log = Vec::new();
    assert_eq!(lit_to_string(&mut log, &Lit::Str("hi".to_string()), at(0, 4), true), Some("-hi".to_string()));
    assert_eq!(lit_to_string(&mut log, &Lit::Char('c'), at(0, 3), true), Some("-c".to_string()));
    assert_eq!(lit_to_string(&mut log, &Lit::Int("0b101".to_string()), at(0, 5), true), Some("-0b101".to_string()));
    assert_eq!(lit_to_string(&mut log, &Lit::Float("1e10".to_string()), at(0, 4), true), Some("-1e10".to_string()));
    assert_eq!(lit_to_string(&mut log, &Lit::Bool(true), at(0, 4), true), Some("-true".to_string()));
    assert!(log.is_empty());
}

#[test]
fn lit_to_string_reports_binary_data() {
    let mut log = Vec::new();
    assert_eq!(lit_to_string(&mut log, &Lit::Byte(0), at(5, 9), false), None);
    assert_eq!(lit_to_string(&mut log, &Lit::Binary(vec![]), at(10, 13), true), None);
    assert_eq!(
        log,
        vec![
            Diagnostic { span: at(5, 9), message: Message::BinaryData },
            Diagnostic { span: at(10, 13), message: Message::BinaryData },
        ]
    );
}

#[test]
fn cursor_moves_forward_only_by_what_is_asked() {
    let tokens = vec![other(0), minus(1), other(2)];
    let mut cursor = Cursor::new(&tokens);
    assert_eq!(cursor.len(), 3);
    assert_eq!(cursor.peek(0), Some(&tokens[0]));
    assert_eq!(cursor.peek(2), Some(&tokens[2]));
    assert_eq!(cursor.peek(3), None);
    cursor.shift(0);
    assert_eq!(cursor.len(), 3);
    cursor.shift(2);
    assert_eq!(cursor.len(), 1);
    assert_eq!(cursor.peek(0), Some(&tokens[2]));
    assert_eq!(cursor.peek(1), None);
    cursor.shift(1);
    assert!(cursor.is_empty());
    assert_eq!(cursor.peek(0), None);
}

#[test]
fn messages_have_their_wording() {
    assert_eq!(Message::InvalidSyntax.text(), "invalid syntax");
    assert_eq!(Message::BinaryData.text(), "cannot splice binary data");
}
