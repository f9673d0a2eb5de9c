use limlang::expr::{begins, expr, power, recover, skip_trivia, PREFIX_POWER};
use limlang::kind::SyntaxKind;
use limlang::parser::Parser;

#[test]
fn node_opened_at_a_checkpoint_wraps_what_came_since() {
    let mut p = Parser::new("a 1+2");
    p.start_node(SyntaxKind::Root);
    p.bump();
    p.bump();
    let checkpoint = p.checkpoint();
    p.bump();
    assert_eq!(p.peek(), Some(SyntaxKind::Plus));
    p.start_node_at(checkpoint, SyntaxKind::BinaryExpr);
    p.bump();
    p.bump();
    p.finish_node();
    p.finish_node();
    assert_eq!(
        p.finish().debug_tree(),
        "Root@0..5\n  Ident@0..1 \"a\"\n  Whitespace@1..2 \" \"\n  BinaryExpr@2..5\n    Number@2..3 \"1\"\n    Plus@3..4 \"+\"\n    Number@4..5 \"2\""
    );
}

#[test]
fn node_opened_at_a_checkpoint_is_the_node_opened_beforehand() {
    let mut late = Parser::new("1+2");
    late.start_node(SyntaxKind::Root);
    let checkpoint = late.checkpoint();
    late.bump();
    late.start_node_at(checkpoint, SyntaxKind::BinaryExpr);
    late.bump();
    late.bump();
    late.finish_node();
    late.finish_node();

    let mut early = Parser::new("1+2");
    early.start_node(SyntaxKind::Root);
    early.start_node(SyntaxKind::BinaryExpr);
    early.bump();
    early.bump();
    early.bump();
    early.finish_node();
    early.finish_node();

    let late = late.finish();
    let early = early.finish();
    assert_eq!(late.green_node(), early.green_node());
    assert_eq!(late.debug_tree(), Parser::new("1+2").parse().debug_tree());
}

#[test]
fn checkpoint_that_is_not_used_leaves_no_trace() {
    let mut p = Parser::new("7");
    p.start_node(SyntaxKind::Root);
    let _checkpoint = p.checkpoint();
    p.bump();
    p.finish_node();
    assert_eq!(p.finish().debug_tree(), "Root@0..1\n  Number@0..1 \"7\"");
}

#[test]
fn nodes_nest_and_close_innermost_first() {
    let mut p = Parser::new("(x)");
    p.start_node(SyntaxKind::Root);
    p.start_node(SyntaxKind::ParenExpr);
    p.bump();
    p.start_node(SyntaxKind::Error);
    p.finish_node();
    p.bump();
    p.bump();
    p.finish_node();
    p.finish_node();
    assert_eq!(
        p.finish().debug_tree(),
        "Root@0..3\n  ParenExpr@0..3\n    LParen@0..1 \"(\"\n    Error@1..1\n    Ident@1..2 \"x\"\n    RParen@2..3 \")\""
    );
}

#[test]
fn peek_does_not_consume_and_does_not_build() {
    let mut peeked = Parser::new("1+2");
    assert_eq!(peeked.peek(), Some(SyntaxKind::Number));
    assert_eq!(peeked.peek(), Some(SyntaxKind::Number));
    assert_eq!(peeked.peek(), Some(SyntaxKind::Number));
    let plain = Parser::new("1+2");
    assert_eq!(peeked.parse().debug_tree(), plain.parse().debug_tree());

    let mut p = Parser::new("a b");
    p.start_node(SyntaxKind::Root);
    assert_eq!(p.peek(), Some(SyntaxKind::Ident));
    p.bump();
    assert_eq!(p.peek(), Some(SyntaxKind::Whitespace));
    assert_eq!(p.peek(), Some(SyntaxKind::Whitespace));
    p.bump();
    assert_eq!(p.peek(), Some(SyntaxKind::Ident));
    p.bump();
    assert_eq!(p.peek(), None);
    assert_eq!(p.peek(), None);
    p.finish_node();
    assert_eq!(
        p.finish().debug_tree(),
        "Root@0..3\n  Ident@0..1 \"a\"\n  Whitespace@1..2 \" \"\n  Ident@2..3 \"b\""
    );
}

#[test]
fn peek_at_the_end_of_input() {
    let mut p = Parser::new("");
    assert_eq!(p.peek(), None);
}

#[test]
fn skip_trivia_takes_whitespace_only() {
    let mut p = Parser::new(" \n x");
    p.start_node(SyntaxKind::Root);
    skip_trivia(&mut p);
    assert_eq!(p.peek(), Some(SyntaxKind::Ident));
    skip_trivia(&mut p);
    assert_eq!(p.peek(), Some(SyntaxKind::Ident));
    p.bump();
    p.finish_node();
    assert_eq!(
        p.finish().debug_tree(),
        "Root@0..4\n  Whitespace@0..3 \" \\n \"\n  Ident@3..4 \"x\""
    );
}

#[test]
fn expr_stops_before_a_weaker_operator() {
    let mut p = Parser::new("2*3+4");
    p.start_node(SyntaxKind::Root);
    expr(&mut p, 3);
    assert_eq!(p.peek(), Some(SyntaxKind::Plus));
    p.bump();
    p.bump();
    p.finish_node();
    assert_eq!(
        p.finish().debug_tree(),
        "Root@0..5\n  BinaryExpr@0..3\n    Number@0..1 \"2\"\n    Star@1..2 \"*\"\n    Number@2..3 \"3\"\n  Plus@3..4 \"+\"\n  Number@4..5 \"4\""
    );
}

#[test]
fn expr_takes_nothing_where_no_expression_starts() {
    let mut p = Parser::new("+1");
    p.start_node(SyntaxKind::Root);
    expr(&mut p, 0);
    assert_eq!(p.peek(), Some(SyntaxKind::Plus));
    recover(&mut p);
    expr(&mut p, 0);
    assert_eq!(p.peek(), None);
    p.finish_node();
    assert_eq!(
        p.finish().debug_tree(),
        "Root@0..2\n  Error@0..1\n    Plus@0..1 \"+\"\n  Number@1..2 \"1\""
    );
}

#[test]
fn recover_keeps_an_error_token_as_it_is() {
    let mut p = Parser::new("#)");
    p.start_node(SyntaxKind::Root);
    recover(&mut p);
    recover(&mut p);
    p.finish_node();
    assert_eq!(
        p.finish().debug_tree(),
        "Root@0..2\n  Error@0..1 \"#\"\n  Error@1..2\n    RParen@1..2 \")\""
    );
}

#[test]
fn binding_powers() {
    for kind in [SyntaxKind::Plus, SyntaxKind::Minus] {
        let found = power(kind).unwrap();
        assert_eq!((found.left, found.right), (1, 2));
    }
    for kind in [SyntaxKind::Star, SyntaxKind::Slash] {
        let found = power(kind).unwrap();
        assert_eq!((found.left, found.right), (3, 4));
    }
    for kind in [SyntaxKind::Number, SyntaxKind::LParen, SyntaxKind::Equals, SyntaxKind::Error] {
        assert!(power(kind).is_none());
    }
    assert_eq!(PREFIX_POWER, 5);
}

#[test]
fn kinds_that_start_an_expression() {
    for kind in [SyntaxKind::Number, SyntaxKind::Ident, SyntaxKind::Minus, SyntaxKind::LParen] {
        assert!(begins(kind));
    }
    for kind in [
        SyntaxKind::Whitespace,
        SyntaxKind::Plus,
        SyntaxKind::RParen,
        SyntaxKind::LetKw,
        SyntaxKind::Error,
        SyntaxKind::Root,
    ] {
        assert!(!begins(kind));
    }
}
