use lexx::error::{Error, ErrorKind};
use lexx::lexer::Lexer;
use lexx::span::Span;
use lexx::token::{Token, TokenKind};

fn lex(source: &str) -> (Vec<Token<'_>>, Vec<Error>) {
    Lexer::new(source).lex()
}

#[test]
fn escaped_punctuation_is_literal() {
    for c in ['\\', '|', '*', '+', '?', '{', '}', '[', ']', '(', ')', '-', '.', '^', '$'] {
        let source = format!("\\{}", c);
        let (tokens, errors) = lex(&source);
        assert_eq!(tokens.len(), 1, "escape of {:?}", c);
        assert!(matches!(tokens[0].kind, TokenKind::Literal { char } if char == c));
        assert_eq!(tokens[0].span, Span { start: 0, end: 2 });
        assert!(errors.is_empty());
    }
}

#[test]
fn hex_escapes_decode() {
    for source in ["\\x41", "\\u0041", "\\U00000041"] {
        let (tokens, errors) = lex(source);
        assert_eq!(tokens.len(), 1);
        assert!(matches!(tokens[0].kind, TokenKind::Literal { char: 'A' }));
        assert_eq!(tokens[0].span, Span { start: 0, end: source.len() });
        assert!(errors.is_empty());
    }
}

#[test]
fn short_hex_escape_is_error() {
    let (tokens, errors) = lex("\\xG1");
    assert!(matches!(tokens[0].kind, TokenKind::Error));
    assert_eq!(
        errors,
        vec![Error {
            kind: ErrorKind::InvalidHexEscape { char: 'x', expected_digits: 2 },
            span: Span { start: 0, end: 2 },
        }]
    );
}

#[test]
fn invalid_scalar_escape_is_error() {
    let (tokens, errors) = lex("\\UFFFFFFFF");
    assert_eq!(tokens.len(), 1);
    assert!(matches!(tokens[0].kind, TokenKind::Error));
    assert_eq!(
        errors,
        vec![Error {
            kind: ErrorKind::InvalidUnicodeScalar { value: 0xFFFFFFFF },
            span: Span { start: 0, end: 10 },
        }]
    );
}

#[test]
fn surrogate_escape_is_error() {
    let (_, errors) = lex("\\uD800");
    assert_eq!(errors[0].kind, ErrorKind::InvalidUnicodeScalar { value: 0xD800 });
}

#[test]
fn tab_in_class_is_error() {
    let (tokens, errors) = lex("[\t]");
    assert_eq!(tokens.len(), 3);
    assert!(matches!(tokens[0].kind, TokenKind::OpenBrack));
    assert!(matches!(tokens[1].kind, TokenKind::Error));
    assert!(matches!(tokens[2].kind, TokenKind::ClosedBrack));
    assert_eq!(
        errors,
        vec![Error { kind: ErrorKind::LiteralTabCharacter, span: Span { start: 1, end: 2 } }]
    );
}

#[test]
fn tab_outside_class_is_skipped() {
    let (tokens, errors) = lex("x = a\tb");
    assert_eq!(tokens.len(), 4);
    assert!(matches!(tokens[2].kind, TokenKind::Literal { char: 'a' }));
    assert!(matches!(tokens[3].kind, TokenKind::Literal { char: 'b' }));
    assert_eq!(tokens[3].span, Span { start: 6, end: 7 });
    assert!(errors.is_empty());
}

#[test]
fn hyphen_and_caret_depend_on_class() {
    let (tokens, _) = lex("[^-]");
    assert!(matches!(tokens[1].kind, TokenKind::Caret));
    assert!(matches!(tokens[2].kind, TokenKind::Hyphen));
    let (tokens, errors) = lex("x = -^");
    assert!(matches!(tokens[2].kind, TokenKind::Literal { char: '-' }));
    assert!(matches!(tokens[3].kind, TokenKind::Literal { char: '^' }));
    assert!(errors.is_empty());
}

#[test]
fn number_overflow_in_braces() {
    let (tokens, errors) = lex("{99999999999999999999}");
    assert_eq!(tokens.len(), 3);
    assert!(matches!(tokens[1].kind, TokenKind::Error));
    assert_eq!(tokens[1].span, Span { start: 1, end: 21 });
    assert_eq!(
        errors,
        vec![Error { kind: ErrorKind::IntegerOverflow, span: Span { start: 1, end: 21 } }]
    );
}

#[test]
fn numbers_only_in_braces() {
    let (tokens, _) = lex("{3,15}");
    assert!(matches!(tokens[1].kind, TokenKind::Number { num: 3 }));
    assert!(matches!(tokens[2].kind, TokenKind::Comma));
    assert!(matches!(tokens[3].kind, TokenKind::Number { num: 15 }));
    let (tokens, _) = lex("x = 1,");
    assert!(matches!(tokens[2].kind, TokenKind::Literal { char: '1' }));
    assert!(matches!(tokens[3].kind, TokenKind::Literal { char: ',' }));
}

#[test]
fn largest_number_fits() {
    let source = format!("{{{}}}", usize::MAX);
    let (tokens, errors) = lex(&source);
    assert!(matches!(tokens[1].kind, TokenKind::Number { num } if num == usize::MAX));
    assert!(errors.is_empty());
}

#[test]
fn equals_once_per_rule() {
    let (tokens, _) = lex("name = a=b\nnext = c");
    assert!(matches!(tokens[0].kind, TokenKind::Identifier { name: "name" }));
    assert!(matches!(tokens[1].kind, TokenKind::Equals));
    assert!(matches!(tokens[3].kind, TokenKind::Literal { char: '=' }));
    assert!(matches!(tokens[5].kind, TokenKind::Newline));
    assert!(matches!(tokens[6].kind, TokenKind::Identifier { name: "next" }));
    assert!(matches!(tokens[7].kind, TokenKind::Equals));
}

#[test]
fn identifier_inside_braces() {
    let (tokens, _) = lex("x = {digit_2}");
    assert!(matches!(tokens[3].kind, TokenKind::Identifier { name: "digit_2" }));
    assert_eq!(tokens[3].span, Span { start: 5, end: 12 });
}

#[test]
fn control_and_shorthand_escapes() {
    let (tokens, errors) = lex("\\t\\r\\n\\0\\d\\S");
    assert!(matches!(tokens[0].kind, TokenKind::Literal { char: '\t' }));
    assert!(matches!(tokens[1].kind, TokenKind::Literal { char: '\r' }));
    assert!(matches!(tokens[2].kind, TokenKind::Literal { char: '\n' }));
    assert!(matches!(tokens[3].kind, TokenKind::Literal { char: '\0' }));
    assert!(matches!(tokens[4].kind, TokenKind::ShorthandClass { char: 'd' }));
    assert!(matches!(tokens[5].kind, TokenKind::ShorthandClass { char: 'S' }));
    assert!(errors.is_empty());
}

#[test]
fn unknown_escape_is_error() {
    let (tokens, errors) = lex("\\q");
    assert!(matches!(tokens[0].kind, TokenKind::Error));
    assert_eq!(
        errors,
        vec![Error {
            kind: ErrorKind::InvalidEscapeCharacter { char: 'q' },
            span: Span { start: 0, end: 2 },
        }]
    );
}

#[test]
fn backslash_at_end_is_error() {
    let (tokens, errors) = lex("x = \\");
    assert!(matches!(tokens[2].kind, TokenKind::Error));
    assert_eq!(
        errors,
        vec![Error { kind: ErrorKind::UnexpectedEOF, span: Span { start: 4, end: 5 } }]
    );
}

#[test]
fn spans_count_bytes() {
    let (tokens, _) = lex("x = é\\u00e9");
    assert_eq!(tokens[2].span, Span { start: 4, end: 6 });
    assert!(matches!(tokens[3].kind, TokenKind::Literal { char: 'é' }));
    assert_eq!(tokens[3].span, Span { start: 6, end: 12 });
}

#[test]
fn empty_source_has_no_tokens() {
    let (tokens, errors) = lex("");
    assert!(tokens.is_empty());
    assert!(errors.is_empty());
}

#[test]
fn span_from_pair() {
    assert_eq!(Span::from((3, 7)), Span { start: 3, end: 7 });
}

#[test]
fn span_converts_to_source_span() {
    let span = Span { start: 2, end: 9 }.to_source_span();
    assert_eq!(span.offset(), 2);
    assert_eq!(span.len(), 7);
}

#[test]
fn identifiers_are_ascii() {
    let (tokens, _) = lex("é = a");
    assert!(matches!(tokens[0].kind, TokenKind::Literal { char: 'é' }));
    let (tokens, _) = lex("_a1 = b");
    assert!(matches!(tokens[0].kind, TokenKind::Identifier { name: "_a1" }));
}
