use expect_test::{Expect, Position};
use limlang::parser::{parse_text, Parser};

fn expect(data: &'static str) -> Expect {
    Expect { position: Position { file: "tests/parser.rs", line: 1, column: 1 }, data, indent: true }
}

fn check(input: &str, expected_tree: Expect) {
    let parse = Parser::new(input).parse();
    expected_tree.assert_eq(&parse.debug_tree());
}

#[test]
fn it_works() {
    assert_eq!(2 + 2, 4);
}

#[test]
fn parse_nothing() {
    check("", expect(r#"Root@0..0"#));
}

#[test]
fn parse_number() {
    check(
        "123",
        expect(
            r#"
Root@0..3
  Number@0..3 "123""#,
        ),
    );
}

#[test]
fn parse_binding_usage() {
    check(
        "counter",
        expect(
            r#"
Root@0..7
  Ident@0..7 "counter""#,
        ),
    );
}

#[test]
fn parse_simple_binary_expression() {
    check(
        "1+2",
        expect(
            r#"
Root@0..3
  BinaryExpr@0..3
    Number@0..1 "1"
    Plus@1..2 "+"
    Number@2..3 "2""#,
        ),
    );
}

#[test]
fn parse_unrecognized_symbol() {
    check(
        "$",
        expect(
            r#"
Root@0..1
  Error@0..1 "$""#,
        ),
    );
}

#[test]
fn parse_unrecognized_character_of_several_bytes() {
    check(
        "é",
        expect(
            r#"
Root@0..2
  Error@0..2 "é""#,
        ),
    );
}

#[test]
fn parse_left_associative_operators() {
    check(
        "1+2+3",
        expect(
            r#"
Root@0..5
  BinaryExpr@0..5
    BinaryExpr@0..3
      Number@0..1 "1"
      Plus@1..2 "+"
      Number@2..3 "2"
    Plus@3..4 "+"
    Number@4..5 "3""#,
        ),
    );
}

#[test]
fn parse_mixed_precedence() {
    check(
        "1+2*3-4",
        expect(
            r#"
Root@0..7
  BinaryExpr@0..7
    BinaryExpr@0..5
      Number@0..1 "1"
      Plus@1..2 "+"
      BinaryExpr@2..5
        Number@2..3 "2"
        Star@3..4 "*"
        Number@4..5 "3"
    Minus@5..6 "-"
    Number@6..7 "4""#,
        ),
    );
}

#[test]
fn parse_prefix_binds_tighter_than_infix() {
    check(
        "-a/b",
        expect(
            r#"
Root@0..4
  BinaryExpr@0..4
    PrefixExpr@0..2
      Minus@0..1 "-"
      Ident@1..2 "a"
    Slash@2..3 "/"
    Ident@3..4 "b""#,
        ),
    );
}

#[test]
fn parse_parentheses() {
    check(
        "(1+2)*3",
        expect(
            r#"
Root@0..7
  BinaryExpr@0..7
    ParenExpr@0..5
      LParen@0..1 "("
      BinaryExpr@1..4
        Number@1..2 "1"
        Plus@2..3 "+"
        Number@3..4 "2"
      RParen@4..5 ")"
    Star@5..6 "*"
    Number@6..7 "3""#,
        ),
    );
}

#[test]
fn parse_whitespace_goes_into_the_open_node() {
    check(
        " 1 +  2 ",
        expect(
            r#"
Root@0..8
  Whitespace@0..1 " "
  BinaryExpr@1..8
    Number@1..2 "1"
    Whitespace@2..3 " "
    Plus@3..4 "+"
    Whitespace@4..6 "  "
    Number@6..7 "2"
    Whitespace@7..8 " ""#,
        ),
    );
}

#[test]
fn parse_token_outside_any_expression() {
    check(
        ")+",
        expect(
            r#"
Root@0..2
  Error@0..1
    RParen@0..1 ")"
  Error@1..2
    Plus@1..2 "+""#,
        ),
    );
}

#[test]
fn parse_operator_without_right_operand() {
    check(
        "1*",
        expect(
            r#"
Root@0..2
  BinaryExpr@0..2
    Number@0..1 "1"
    Star@1..2 "*""#,
        ),
    );
}

#[test]
fn parse_parenthesis_left_open() {
    check(
        "(x let",
        expect(
            r#"
Root@0..6
  ParenExpr@0..3
    LParen@0..1 "("
    Ident@1..2 "x"
    Whitespace@2..3 " "
  Error@3..6
    LetKw@3..6 "let""#,
        ),
    );
}

#[test]
fn parse_two_expressions_in_a_row() {
    check(
        "a 1",
        expect(
            r#"
Root@0..3
  Ident@0..1 "a"
  Whitespace@1..2 " "
  Number@2..3 "1""#,
        ),
    );
}

#[test]
fn debug_tree_escapes_token_text() {
    check(
        "\n\"\\",
        expect(
            r#"
Root@0..3
  Whitespace@0..1 "\n"
  Error@1..2 "\""
  Error@2..3 "\\""#,
        ),
    );
}

#[test]
fn debug_tree_shows_long_tokens_in_full() {
    check(
        "abcdefghijklmnopqrstuvwxyz0123456789",
        expect(
            r#"
Root@0..36
  Ident@0..36 "abcdefghijklmnopqrstuvwxyz0123456789""#,
        ),
    );
}

#[test]
fn debug_tree_counts_offsets_in_bytes() {
    check(
        "→ 10",
        expect(
            r#"
Root@0..6
  Error@0..3 "→"
  Whitespace@3..4 " "
  Number@4..6 "10""#,
        ),
    );
}

#[test]
fn debug_tree_offsets_of_several_digits() {
    let input = "1234567890 + 12";
    let text = Parser::new(input).parse().debug_tree();
    assert_eq!(
        text,
        "Root@0..15\n  BinaryExpr@0..15\n    Number@0..10 \"1234567890\"\n    Whitespace@10..11 \" \"\n    Plus@11..12 \"+\"\n    Whitespace@12..13 \" \"\n    Number@13..15 \"12\""
    );
}

#[test]
fn tree_text_is_the_input() {
    let inputs = [
        "",
        "1",
        "1+2",
        " ( a + b ) * -c / 4 ",
        "let x = { fn }",
        "((((1",
        "1)))) $ # é→\u{1F980} \t\r\n",
        "- - - 1 * * 2",
        "\u{0}\u{7f}\u{80}\u{7ff}\u{800}\u{ffff}\u{10000}\u{10ffff}",
    ];
    for input in inputs {
        let parse = Parser::new(input).parse();
        assert_eq!(parse.text(), input);
        assert_eq!(parse.green_node().to_string(), input);
        assert_eq!(parse.green_node().kind(), rowan::SyntaxKind(15));
        assert_eq!(u32::from(parse.green_node().text_len()) as usize, input.len());
    }
}

#[test]
fn parse_text_takes_every_input() {
    for input in ["", "1+2", "$", " \n", ")(", "fn let = { }"] {
        let parse = parse_text(input).unwrap();
        assert_eq!(parse.text(), input);
        assert_eq!(parse.debug_tree(), Parser::new(input).parse().debug_tree());
    }
}
