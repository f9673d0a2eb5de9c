//! The grammar: what tree a row of tokens stands for, and the procedure
//! that builds that tree on a parser.
//!
//! An expression is an operand followed by any number of infix operators
//! with their right-hand sides, grouped by binding power. An operand is a
//! number, an identifier, a minus sign before an operand, or an expression
//! in parentheses. Whitespace goes into whatever node is open when it is
//! met. At the top, a token that starts no expression is kept as an error,
//! so that no input is refused and none is lost.

use crate::green::checkpoint_place;
use crate::kind::{raw_of, SyntaxKind};
use crate::lexer::{concat, lemma_lex_lossless, lex, Lexeme};
use crate::parser::Parser;
use crate::tree::{lemma_text_one, lemma_texts_add, lemma_texts_push, text_of, texts_of, Element};
use vstd::prelude::*;

verus! {

/// What a rule of the grammar makes of the front of a row of tokens: the
/// elements it builds, and the tokens it leaves.
pub struct Parsed {
    pub elements: Seq<Element>,
    pub rest: Seq<Lexeme>,
}

/// A token as a leaf of the tree.
pub open spec fn leaf(lexeme: Lexeme) -> Element {
    Element::Token { kind: raw_of(lexeme.kind), text: lexeme.text }
}

/// A node of `kind` over `children`.
pub open spec fn node(kind: SyntaxKind, children: Seq<Element>) -> Element {
    Element::Node { kind: raw_of(kind), children }
}

/// Whether a token of `kind` can start an expression.
pub open spec fn starts_expr(kind: SyntaxKind) -> bool {
    kind == SyntaxKind::Number || kind == SyntaxKind::Ident || kind == SyntaxKind::Minus || kind
        == SyntaxKind::LParen
}

/// How strongly an infix operator holds the operands on its two sides.
#[derive(Clone, Copy)]
pub struct Power {
    pub left: u8,
    pub right: u8,
}

/// The binding powers of an infix operator, to its left and to its right;
/// `None` for a kind that is no infix operator. The right one is the
/// greater: operators of one level group from the left.
pub open spec fn binding(kind: SyntaxKind) -> Option<Power> {
    if kind == SyntaxKind::Plus || kind == SyntaxKind::Minus {
        Some(Power { left: 1, right: 2 })
    } else if kind == SyntaxKind::Star || kind == SyntaxKind::Slash {
        Some(Power { left: 3, right: 4 })
    } else {
        None
    }
}

/// The binding power of the minus sign before an operand: more than that of
/// any infix operator.
pub const PREFIX_POWER: u8 = 5;

/// What a rule has left, where that is no more than `limit` tokens. It never
/// is more, since no rule leaves more than it was given (`lemma_expression`);
/// the rules say so where one of them goes on with what another has left,
/// which is what shows that they end.
pub open spec fn bounded(rest: Seq<Lexeme>, limit: nat) -> Seq<Lexeme> {
    if rest.len() <= limit {
        rest
    } else {
        Seq::empty()
    }
}

/// The whitespace at the front of `tokens`.
pub open spec fn trivia(tokens: Seq<Lexeme>) -> Parsed
    decreases tokens.len(),
{
    if tokens.len() > 0 && tokens[0].kind == SyntaxKind::Whitespace {
        let more = trivia(tokens.drop_first());
        Parsed { elements: seq![leaf(tokens[0])] + more.elements, rest: more.rest }
    } else {
        Parsed { elements: Seq::empty(), rest: tokens }
    }
}

/// The expression at the front of `tokens`, with the operators of binding
/// power `min` or more. Where no expression starts, nothing is built and
/// nothing consumed.
pub open spec fn expression(tokens: Seq<Lexeme>, min: u8) -> Parsed
    decreases tokens.len(), 2int,
{
    if tokens.len() > 0 && starts_expr(tokens[0].kind) {
        let left = operand(tokens);
        operators(left.elements, bounded(left.rest, tokens.len()), min)
    } else {
        Parsed { elements: Seq::empty(), rest: tokens }
    }
}

/// The operand at the front of `tokens`, the first of which starts an
/// expression.
pub open spec fn operand(tokens: Seq<Lexeme>) -> Parsed
    decreases tokens.len(), 1int,
{
    if tokens.len() == 0 {
        Parsed { elements: Seq::empty(), rest: tokens }
    } else {
        let first = tokens[0];
        let gap = trivia(tokens.drop_first());
        proof {
            lemma_trivia(tokens.drop_first());
        }
        if first.kind == SyntaxKind::Minus {
            let inner = expression(gap.rest, PREFIX_POWER);
            Parsed {
                elements: seq![
                    node(SyntaxKind::PrefixExpr, seq![leaf(first)] + gap.elements + inner.elements),
                ],
                rest: inner.rest,
            }
        } else if first.kind == SyntaxKind::LParen {
            let inner = expression(gap.rest, 0);
            let open = seq![leaf(first)] + gap.elements + inner.elements;
            if inner.rest.len() > 0 && inner.rest[0].kind == SyntaxKind::RParen {
                Parsed {
                    elements: seq![node(SyntaxKind::ParenExpr, open.push(leaf(inner.rest[0])))],
                    rest: inner.rest.drop_first(),
                }
            } else {
                Parsed { elements: seq![node(SyntaxKind::ParenExpr, open)], rest: inner.rest }
            }
        } else {
            Parsed { elements: seq![leaf(first)], rest: tokens.drop_first() }
        }
    }
}

/// The expression that `left`, already built, makes with the infix
/// operators of binding power `min` or more at the front of `tokens`.
pub open spec fn operators(left: Seq<Element>, tokens: Seq<Lexeme>, min: u8) -> Parsed
    decreases tokens.len(), 0int,
{
    let gap = trivia(tokens);
    if gap.rest.len() > 0 && binding(gap.rest[0].kind) is Some && binding(gap.rest[0].kind)->0.left
        >= min {
        let operator = gap.rest[0];
        let after = trivia(gap.rest.drop_first());
        proof {
            lemma_trivia(tokens);
            lemma_trivia(gap.rest.drop_first());
        }
        let right = expression(after.rest, binding(operator.kind)->0.right);
        operators(
            seq![
                node(
                    SyntaxKind::BinaryExpr,
                    left + gap.elements + seq![leaf(operator)] + after.elements + right.elements,
                ),
            ],
            bounded(right.rest, after.rest.len()),
            min,
        )
    } else {
        Parsed { elements: left + gap.elements, rest: gap.rest }
    }
}

/// A token that is in no expression, kept in the tree: as it is where it is
/// an error token already, else inside an error node.
pub open spec fn unexpected(lexeme: Lexeme) -> Element {
    if lexeme.kind == SyntaxKind::Error {
        leaf(lexeme)
    } else {
        node(SyntaxKind::Error, seq![leaf(lexeme)])
    }
}

/// The children of the root: the expressions of `tokens`, with the
/// whitespace and the unexpected tokens between them.
pub open spec fn items(tokens: Seq<Lexeme>) -> Seq<Element>
    decreases tokens.len(),
{
    let gap = trivia(tokens);
    if gap.rest.len() == 0 {
        gap.elements
    } else if starts_expr(gap.rest[0].kind) {
        let found = expression(gap.rest, 0);
        proof {
            lemma_trivia(tokens);
            lemma_expression(gap.rest, 0);
        }
        gap.elements + found.elements + items(found.rest)
    } else {
        proof {
            lemma_trivia(tokens);
        }
        gap.elements + seq![unexpected(gap.rest[0])] + items(gap.rest.drop_first())
    }
}

/// The tree of a row of tokens.
pub open spec fn root(tokens: Seq<Lexeme>) -> Element {
    node(SyntaxKind::Root, items(tokens))
}

/// Whitespace is taken off the front only: what is built and what is left
/// hold the text of what was given, nothing is added, and no whitespace is
/// left at the front.
pub proof fn lemma_trivia(tokens: Seq<Lexeme>)
    ensures
        trivia(tokens).rest.len() <= tokens.len(),
        texts_of(trivia(tokens).elements) + concat(trivia(tokens).rest) == concat(tokens),
        trivia(tokens).rest.len() > 0 ==> trivia(tokens).rest[0].kind != SyntaxKind::Whitespace,
    decreases tokens.len(),
{
    if tokens.len() > 0 && tokens[0].kind == SyntaxKind::Whitespace {
        let more = trivia(tokens.drop_first());
        lemma_trivia(tokens.drop_first());
        lemma_texts_add(seq![leaf(tokens[0])], more.elements);
        lemma_text_one(leaf(tokens[0]));
        assert((tokens[0].text + texts_of(more.elements)) + concat(more.rest) =~= tokens[0].text + (
        texts_of(more.elements) + concat(more.rest)));
    } else {
        assert(texts_of(Seq::<Element>::empty()) + concat(tokens) =~= concat(tokens));
    }
}

/// What a rule says of one input: it leaves no more tokens than it was
/// given, and what it builds and what it leaves hold the text of what it
/// was given.
pub open spec fn keeps(tokens: Seq<Lexeme>, parsed: Parsed) -> bool {
    &&& parsed.rest.len() <= tokens.len()
    &&& texts_of(parsed.elements) + concat(parsed.rest) == concat(tokens)
}

/// No rule of the grammar loses or invents text, and none leaves more than
/// it was given; an expression that starts consumes at least one token.
pub proof fn lemma_expression(tokens: Seq<Lexeme>, min: u8)
    ensures
        keeps(tokens, expression(tokens, min)),
        tokens.len() > 0 && starts_expr(tokens[0].kind) ==> expression(tokens, min).rest.len()
            < tokens.len(),
    decreases tokens.len(), 2int,
{
    if tokens.len() > 0 && starts_expr(tokens[0].kind) {
        let left = operand(tokens);
        lemma_operand(tokens);
        lemma_operators(left.elements, left.rest, min);
        assert(texts_of(left.elements) + concat(left.rest) == concat(tokens));
    } else {
        assert(texts_of(Seq::<Element>::empty()) + concat(tokens) =~= concat(tokens));
    }
}

/// The same of an operand, which consumes at least one token.
pub proof fn lemma_operand(tokens: Seq<Lexeme>)
    requires
        tokens.len() > 0,
    ensures
        keeps(tokens, operand(tokens)),
        operand(tokens).rest.len() < tokens.len(),
    decreases tokens.len(), 1int,
{
    let first = tokens[0];
    let gap = trivia(tokens.drop_first());
    lemma_trivia(tokens.drop_first());
    lemma_text_one(leaf(first));
    if first.kind == SyntaxKind::Minus {
        let inner = expression(gap.rest, PREFIX_POWER);
        lemma_expression(gap.rest, PREFIX_POWER);
        let children = seq![leaf(first)] + gap.elements + inner.elements;
        lemma_texts_add(seq![leaf(first)], gap.elements);
        lemma_texts_add(seq![leaf(first)] + gap.elements, inner.elements);
        lemma_text_one(node(SyntaxKind::PrefixExpr, children));
        assert(texts_of(children) + concat(inner.rest) =~= first.text + (texts_of(gap.elements) + (
        texts_of(inner.elements) + concat(inner.rest))));
    } else if first.kind == SyntaxKind::LParen {
        let inner = expression(gap.rest, 0);
        lemma_expression(gap.rest, 0);
        let open = seq![leaf(first)] + gap.elements + inner.elements;
        lemma_texts_add(seq![leaf(first)], gap.elements);
        lemma_texts_add(seq![leaf(first)] + gap.elements, inner.elements);
        assert(texts_of(open) + concat(inner.rest) =~= first.text + (texts_of(gap.elements) + (
        texts_of(inner.elements) + concat(inner.rest))));
        if inner.rest.len() > 0 && inner.rest[0].kind == SyntaxKind::RParen {
            let close = leaf(inner.rest[0]);
            lemma_texts_push(open, close);
            lemma_text_one(node(SyntaxKind::ParenExpr, open.push(close)));
            assert((texts_of(open) + inner.rest[0].text) + concat(inner.rest.drop_first())
                =~= texts_of(open) + concat(inner.rest));
        } else {
            lemma_text_one(node(SyntaxKind::ParenExpr, open));
        }
    }
}

/// The same of a row of operators, with the text of the part that is built
/// already counted in.
pub proof fn lemma_operators(left: Seq<Element>, tokens: Seq<Lexeme>, min: u8)
    ensures
        operators(left, tokens, min).rest.len() <= tokens.len(),
        texts_of(operators(left, tokens, min).elements) + concat(
            operators(left, tokens, min).rest,
        ) == texts_of(left) + concat(tokens),
    decreases tokens.len(), 0int,
{
    let gap = trivia(tokens);
    lemma_trivia(tokens);
    lemma_texts_add(left, gap.elements);
    if gap.rest.len() > 0 && binding(gap.rest[0].kind) is Some && binding(gap.rest[0].kind)->0.left
        >= min {
        let operator = gap.rest[0];
        let after = trivia(gap.rest.drop_first());
        lemma_trivia(gap.rest.drop_first());
        let right = expression(after.rest, binding(operator.kind)->0.right);
        lemma_expression(after.rest, binding(operator.kind)->0.right);
        let children = left + gap.elements + seq![leaf(operator)] + after.elements
            + right.elements;
        let wrapped = seq![node(SyntaxKind::BinaryExpr, children)];
        lemma_operators(wrapped, right.rest, min);
        lemma_text_one(node(SyntaxKind::BinaryExpr, children));
        lemma_text_one(leaf(operator));
        lemma_texts_add(left + gap.elements, seq![leaf(operator)]);
        lemma_texts_add(left + gap.elements + seq![leaf(operator)], after.elements);
        lemma_texts_add(
            left + gap.elements + seq![leaf(operator)] + after.elements,
            right.elements,
        );
        assert(texts_of(children) + concat(right.rest) =~= texts_of(left) + (texts_of(gap.elements)
            + (operator.text + (texts_of(after.elements) + (texts_of(right.elements) + concat(
            right.rest,
        ))))));
        assert(texts_of(left) + concat(tokens) =~= texts_of(left) + (texts_of(gap.elements) + (
        operator.text + concat(gap.rest.drop_first()))));
    } else {
        assert((texts_of(left) + texts_of(gap.elements)) + concat(gap.rest) =~= texts_of(left) + (
        texts_of(gap.elements) + concat(gap.rest)));
    }
}

/// The tree of a row of tokens holds the text of every token, in order, and
/// nothing else.
pub proof fn lemma_root_lossless(tokens: Seq<Lexeme>)
    ensures
        text_of(root(tokens)) == concat(tokens),
        texts_of(items(tokens)) == concat(tokens),
    decreases tokens.len(),
{
    let gap = trivia(tokens);
    lemma_trivia(tokens);
    if gap.rest.len() == 0 {
        assert(texts_of(gap.elements) + concat(gap.rest) =~= texts_of(gap.elements));
    } else if starts_expr(gap.rest[0].kind) {
        let found = expression(gap.rest, 0);
        lemma_expression(gap.rest, 0);
        lemma_root_lossless(found.rest);
        lemma_texts_add(gap.elements, found.elements);
        lemma_texts_add(gap.elements + found.elements, items(found.rest));
        assert((texts_of(gap.elements) + texts_of(found.elements)) + concat(found.rest)
            =~= texts_of(gap.elements) + (texts_of(found.elements) + concat(found.rest)));
    } else {
        let stray = unexpected(gap.rest[0]);
        lemma_root_lossless(gap.rest.drop_first());
        lemma_text_one(leaf(gap.rest[0]));
        lemma_text_one(stray);
        lemma_texts_add(gap.elements, seq![stray]);
        lemma_texts_add(gap.elements + seq![stray], items(gap.rest.drop_first()));
        assert((texts_of(gap.elements) + gap.rest[0].text) + concat(gap.rest.drop_first())
            =~= texts_of(gap.elements) + (gap.rest[0].text + concat(gap.rest.drop_first())));
    }
}

/// Every text has a tree, rooted in a node of kind `Root`, and the texts of
/// the tree's tokens, first to last, are the text again.
pub proof fn lemma_syntax_lossless(bytes: Seq<u8>)
    ensures
        root(lex(bytes)) is Node,
        root(lex(bytes)).kind() == raw_of(SyntaxKind::Root),
        text_of(root(lex(bytes))) == bytes,
{
    lemma_root_lossless(lex(bytes));
    lemma_lex_lossless(bytes);
}

/// Whether a token of `kind` can start an expression.
pub fn begins(kind: SyntaxKind) -> (yes: bool)
    ensures
        yes == starts_expr(kind),
{
    match kind {
        SyntaxKind::Number | SyntaxKind::Ident | SyntaxKind::Minus | SyntaxKind::LParen => true,
        _ => false,
    }
}

/// The binding powers of `kind` as an infix operator, if it is one.
pub fn power(kind: SyntaxKind) -> (found: Option<Power>)
    ensures
        found == binding(kind),
{
    match kind {
        SyntaxKind::Plus | SyntaxKind::Minus => Some(Power { left: 1, right: 2 }),
        SyntaxKind::Star | SyntaxKind::Slash => Some(Power { left: 3, right: 4 }),
        _ => None,
    }
}

/// Consumes the whitespace at the front and emits it.
pub fn skip_trivia(p: &mut Parser)
    requires
        old(p).wf(),
    ensures
        final(p).wf(),
        final(p).tokens() == trivia(old(p).tokens()).rest,
        final(p).pending() == old(p).pending().emit(trivia(old(p).tokens()).elements),
{
    let ghost base = p.pending();
    let ghost start = p.tokens();
    let ghost mut seen: Seq<Element> = Seq::empty();
    proof {
        base.lemma_emit(Seq::empty(), Seq::empty());
        assert(seen + trivia(start).elements =~= trivia(start).elements);
    }
    loop
        invariant_except_break
            p.wf(),
            p.pending() == base.emit(seen),
            trivia(start).elements == seen + trivia(p.tokens()).elements,
            trivia(start).rest == trivia(p.tokens()).rest,
        ensures
            p.wf(),
            p.tokens() == trivia(start).rest,
            p.pending() == base.emit(trivia(start).elements),
        decreases p.tokens().len(),
    {
        let ghost tokens = p.tokens();
        match p.peek() {
            Some(SyntaxKind::Whitespace) => {
                p.bump();
                proof {
                    let one = leaf(tokens[0]);
                    base.emit(seen).lemma_token(raw_of(tokens[0].kind), tokens[0].text);
                    base.lemma_emit(seen, seq![one]);
                    assert(seen + (seq![one] + trivia(p.tokens()).elements) =~= (seen + seq![one])
                        + trivia(p.tokens()).elements);
                    seen = seen + seq![one];
                }
            },
            _ => {
                proof {
                    assert(seen + Seq::<Element>::empty() =~= seen);
                }
                break ;
            },
        }
    }
}

/// Consumes one token that is in no expression and emits it as an error.
pub fn recover(p: &mut Parser)
    requires
        old(p).wf(),
        old(p).tokens().len() > 0,
    ensures
        final(p).wf(),
        final(p).tokens() == old(p).tokens().drop_first(),
        final(p).pending() == old(p).pending().emit(seq![unexpected(old(p).tokens()[0])]),
{
    let ghost base = p.pending();
    let ghost first = p.tokens()[0];
    proof {
        base.lemma_token(raw_of(first.kind), first.text);
    }
    match p.peek() {
        Some(SyntaxKind::Error) => {
            p.bump();
        },
        _ => {
            p.start_node(SyntaxKind::Error);
            p.bump();
            p.finish_node();
            proof {
                base.start_node(raw_of(SyntaxKind::Error)).lemma_token(
                    raw_of(first.kind),
                    first.text,
                );
                base.lemma_nest(seq![leaf(first)], raw_of(SyntaxKind::Error));
            }
        },
    }
}

/// Parses the expression at the front, with the operators of binding power
/// `min` or more, and emits it. The first operand is emitted before it is
/// known whether an operator follows; when one does, the node of the
/// operation is opened at a checkpoint taken before that operand.
pub fn expr(p: &mut Parser, min: u8)
    requires
        old(p).wf(),
    ensures
        final(p).wf(),
        final(p).tokens() == expression(old(p).tokens(), min).rest,
        final(p).pending() == old(p).pending().emit(expression(old(p).tokens(), min).elements),
    decreases old(p).tokens().len(),
{
    let ghost base = p.pending();
    let ghost start = p.tokens();
    let checkpoint = p.checkpoint();
    proof {
        base.lemma_emit(Seq::empty(), Seq::empty());
        if start.len() > 0 {
            lemma_trivia(start.drop_first());
            lemma_operand(start);
            base.lemma_token(raw_of(start[0].kind), start[0].text);
        }
    }
    match p.peek() {
        Some(SyntaxKind::Number) | Some(SyntaxKind::Ident) => {
            p.bump();
        },
        Some(SyntaxKind::Minus) => {
            let ghost kind = raw_of(SyntaxKind::PrefixExpr);
            p.start_node(SyntaxKind::PrefixExpr);
            p.bump();
            skip_trivia(p);
            expr(p, PREFIX_POWER);
            p.finish_node();
            proof {
                let gap = trivia(start.drop_first());
                let inner = expression(gap.rest, PREFIX_POWER);
                let opened = base.start_node(kind);
                opened.lemma_token(raw_of(start[0].kind), start[0].text);
                opened.lemma_emit(seq![leaf(start[0])], gap.elements);
                opened.lemma_emit(seq![leaf(start[0])] + gap.elements, inner.elements);
                base.lemma_nest(seq![leaf(start[0])] + gap.elements + inner.elements, kind);
            }
        },
        Some(SyntaxKind::LParen) => {
            let ghost kind = raw_of(SyntaxKind::ParenExpr);
            let ghost gap = trivia(start.drop_first());
            let ghost inner = expression(gap.rest, 0);
            let ghost open = seq![leaf(start[0])] + gap.elements + inner.elements;
            let ghost opened = base.start_node(kind);
            p.start_node(SyntaxKind::ParenExpr);
            p.bump();
            skip_trivia(p);
            expr(p, 0);
            proof {
                opened.lemma_token(raw_of(start[0].kind), start[0].text);
                opened.lemma_emit(seq![leaf(start[0])], gap.elements);
                opened.lemma_emit(seq![leaf(start[0])] + gap.elements, inner.elements);
                assert(p.pending() == opened.emit(open));
            }
            match p.peek() {
                Some(SyntaxKind::RParen) => {
                    p.bump();
                    proof {
                        let close = leaf(inner.rest[0]);
                        opened.emit(open).lemma_token(
                            raw_of(inner.rest[0].kind),
                            inner.rest[0].text,
                        );
                        opened.lemma_emit(open, seq![close]);
                        assert(open + seq![close] =~= open.push(close));
                        base.lemma_nest(open.push(close), kind);
                    }
                },
                _ => {
                    proof {
                        base.lemma_nest(open, kind);
                    }
                },
            }
            p.finish_node();
        },
        _ => {
            return ;
        },
    }
    let ghost mut left = operand(start).elements;
    loop
        invariant_except_break
            p.wf(),
            base.wf(),
            start == old(p).tokens(),
            checkpoint_place(checkpoint) == base.done.len(),
            p.pending() == base.emit(left),
            operators(left, p.tokens(), min) == expression(start, min),
            p.tokens().len() < start.len(),
        ensures
            p.wf(),
            p.tokens() == expression(start, min).rest,
            p.pending() == base.emit(expression(start, min).elements),
        decreases p.tokens().len(),
    {
        let ghost tokens = p.tokens();
        let ghost gap = trivia(tokens);
        proof {
            lemma_trivia(tokens);
            base.lemma_emit(left, gap.elements);
        }
        skip_trivia(p);
        let found = match p.peek() {
            Some(kind) => power(kind),
            None => None,
        };
        let right_power: u8 = match found {
            Some(both) => {
                if both.left < min {
                    break ;
                }
                both.right
            },
            None => {
                break ;
            },
        };
        let ghost operator = gap.rest[0];
        let ghost after = trivia(gap.rest.drop_first());
        let ghost right = expression(after.rest, right_power);
        let ghost kind = raw_of(SyntaxKind::BinaryExpr);
        let ghost inside = left + gap.elements;
        let ghost more = seq![leaf(operator)] + after.elements + right.elements;
        proof {
            lemma_trivia(gap.rest.drop_first());
            lemma_expression(after.rest, right_power);
            base.lemma_wrap(inside, more, kind);
        }
        p.start_node_at(checkpoint, SyntaxKind::BinaryExpr);
        p.bump();
        skip_trivia(p);
        expr(p, right_power);
        proof {
            let opened = base.emit(inside).start_node_at(base.done.len() as int, kind);
            opened.lemma_token(raw_of(operator.kind), operator.text);
            opened.lemma_emit(seq![leaf(operator)], after.elements);
            opened.lemma_emit(seq![leaf(operator)] + after.elements, right.elements);
            assert(p.pending() == opened.emit(more));
        }
        p.finish_node();
        proof {
            assert(inside + more =~= left + gap.elements + seq![leaf(operator)] + after.elements
                + right.elements);
            left = seq![node(SyntaxKind::BinaryExpr, inside + more)];
        }
    }
}

} // verus!
