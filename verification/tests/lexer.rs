use limlang::kind::SyntaxKind;
use limlang::lexer::{Class, Cursor, Lexer};

fn tokens(input: &str) -> Vec<(SyntaxKind, String)> {
    let mut lexer = Lexer::new(input);
    let mut out = Vec::new();
    while let Some(token) = lexer.next() {
        out.push((token.kind, token.text.to_string()));
    }
    assert!(lexer.next().is_none());
    out
}

fn check_one(input: &str, kind: SyntaxKind) {
    assert_eq!(tokens(input), vec![(kind, input.to_string())]);
}

#[test]
fn lex_nothing() {
    assert_eq!(tokens(""), vec![]);
}

#[test]
fn lex_spaces() {
    check_one("   ", SyntaxKind::Whitespace);
}

#[test]
fn lex_all_whitespace_characters() {
    check_one(" \t\r\n ", SyntaxKind::Whitespace);
}

#[test]
fn lex_fn_keyword() {
    check_one("fn", SyntaxKind::FnKw);
}

#[test]
fn lex_let_keyword() {
    check_one("let", SyntaxKind::LetKw);
}

#[test]
fn lex_words_that_only_start_like_keywords() {
    check_one("f", SyntaxKind::Ident);
    check_one("fnn", SyntaxKind::Ident);
    check_one("le", SyntaxKind::Ident);
    check_one("lets", SyntaxKind::Ident);
    check_one("Let", SyntaxKind::Ident);
    check_one("fn1", SyntaxKind::Ident);
}

#[test]
fn lex_alphabetic_identifier() {
    check_one("abcd", SyntaxKind::Ident);
}

#[test]
fn lex_alphanumeric_identifier() {
    check_one("ab123cde456", SyntaxKind::Ident);
}

#[test]
fn lex_mixed_case_identifier() {
    check_one("ABCdef", SyntaxKind::Ident);
}

#[test]
fn lex_number() {
    check_one("123456", SyntaxKind::Number);
}

#[test]
fn lex_symbols() {
    check_one("+", SyntaxKind::Plus);
    check_one("-", SyntaxKind::Minus);
    check_one("*", SyntaxKind::Star);
    check_one("/", SyntaxKind::Slash);
    check_one("=", SyntaxKind::Equals);
    check_one("(", SyntaxKind::LParen);
    check_one(")", SyntaxKind::RParen);
    check_one("{", SyntaxKind::LBrace);
    check_one("}", SyntaxKind::RBrace);
}

#[test]
fn lex_unknown_characters() {
    check_one("$", SyntaxKind::Error);
    check_one("_", SyntaxKind::Error);
    check_one("\u{0}", SyntaxKind::Error);
    check_one("\u{7f}", SyntaxKind::Error);
    check_one("é", SyntaxKind::Error);
    check_one("→", SyntaxKind::Error);
    check_one("\u{1F980}", SyntaxKind::Error);
}

#[test]
fn lex_one_error_token_for_each_unknown_character() {
    assert_eq!(
        tokens("$é$$"),
        vec![
            (SyntaxKind::Error, "$".to_string()),
            (SyntaxKind::Error, "é".to_string()),
            (SyntaxKind::Error, "$".to_string()),
            (SyntaxKind::Error, "$".to_string()),
        ]
    );
}

#[test]
fn lex_number_then_word_then_number() {
    assert_eq!(
        tokens("12ab34 56"),
        vec![
            (SyntaxKind::Number, "12".to_string()),
            (SyntaxKind::Ident, "ab34".to_string()),
            (SyntaxKind::Whitespace, " ".to_string()),
            (SyntaxKind::Number, "56".to_string()),
        ]
    );
}

#[test]
fn lex_a_binding() {
    assert_eq!(
        tokens("let x={1+fn}"),
        vec![
            (SyntaxKind::LetKw, "let".to_string()),
            (SyntaxKind::Whitespace, " ".to_string()),
            (SyntaxKind::Ident, "x".to_string()),
            (SyntaxKind::Equals, "=".to_string()),
            (SyntaxKind::LBrace, "{".to_string()),
            (SyntaxKind::Number, "1".to_string()),
            (SyntaxKind::Plus, "+".to_string()),
            (SyntaxKind::FnKw, "fn".to_string()),
            (SyntaxKind::RBrace, "}".to_string()),
        ]
    );
}

#[test]
fn lex_loses_no_byte() {
    for input in ["", "a+b", "  12\t\nlet é→ $$ fn(x){y}", "\u{80}\u{7ff}\u{800}\u{10ffff}x"] {
        let joined: String = tokens(input).into_iter().map(|(_, text)| text).collect();
        assert_eq!(joined, input);
        assert!(tokens(input).iter().all(|(_, text)| !text.is_empty()));
    }
}

#[test]
fn lexers_over_one_text_agree() {
    let input = "fn a(1) = -b";
    assert_eq!(tokens(input), tokens(input));
}

#[test]
fn classes_hold_their_bytes() {
    for b in 0u8..=255 {
        assert_eq!(Class::Space.contains(b), b == b' ' || b == b'\t' || b == b'\n' || b == b'\r');
        assert_eq!(Class::Digit.contains(b), b.is_ascii_digit());
        assert_eq!(Class::Word.contains(b), b.is_ascii_alphanumeric());
        assert_eq!(Class::Continuation.contains(b), (0x80..0xc0).contains(&b));
    }
}

#[test]
fn cursor_peek_does_not_consume() {
    let mut cursor = Cursor::new("ab 1");
    assert_eq!(cursor.peek(), Some(SyntaxKind::Ident));
    assert_eq!(cursor.peek(), Some(SyntaxKind::Ident));
    let first = cursor.next().unwrap();
    assert_eq!((first.kind, first.text), (SyntaxKind::Ident, "ab"));
    let second = cursor.next().unwrap();
    assert_eq!((second.kind, second.text), (SyntaxKind::Whitespace, " "));
    assert_eq!(cursor.peek(), Some(SyntaxKind::Number));
    let third = cursor.next().unwrap();
    assert_eq!((third.kind, third.text), (SyntaxKind::Number, "1"));
    assert_eq!(cursor.peek(), None);
    assert_eq!(cursor.peek(), None);
    assert!(cursor.next().is_none());
}
