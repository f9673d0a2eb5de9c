//! The parser driver: a token cursor and a tree builder, and the steps that
//! a grammar takes on them.

use crate::expr::{
    begins, expr, expression, items, lemma_expression, lemma_root_lossless, lemma_syntax_lossless,
    lemma_trivia, recover, root, skip_trivia, trivia, unexpected,
};
use crate::green::{
    builder_checkpoint, builder_done, builder_finish, builder_finish_node, builder_new,
    builder_open, builder_start_node, builder_start_node_at, builder_token, checkpoint_place,
    node_children, node_tree,
};
use crate::kind::{raw_of, SyntaxKind};
use crate::lexer::{lemma_lex_lossless, lemma_lex_step, lex, Cursor, Lexeme};
use crate::render::{lemma_encode_injective, render, rendered, source};
use crate::tree::{lemma_text_one, text_of, texts_of, Element, Pending};
use rowan::{Checkpoint, GreenNode, GreenNodeBuilder};
use vstd::prelude::*;
use vstd::string::StringSliceAdditionalSpecFns;
use vstd::utf8::encode_utf8;

verus! {

/// A parse in progress.
pub struct Parser<'a> {
    cursor: Cursor<'a>,
    builder: GreenNodeBuilder<'static>,
}

impl<'a> Parser<'a> {
    /// The bytes of the source text that have not been consumed.
    pub closed spec fn rest(&self) -> Seq<u8> {
        self.cursor@
    }

    /// The tokens that have not been consumed.
    pub open spec fn tokens(&self) -> Seq<Lexeme> {
        lex(self.rest())
    }

    /// The tree as far as it is built.
    pub closed spec fn pending(&self) -> Pending {
        Pending { open: builder_open(self.builder), done: builder_done(self.builder) }
    }

    /// The lookahead is in step with the text.
    pub closed spec fn in_step(&self) -> bool {
        self.cursor.wf()
    }

    /// The tree under construction is well-formed, and the whole text, what
    /// is in the tree and what is still to come, has a length of 32 bits.
    pub open spec fn wf(&self) -> bool {
        &&& self.in_step()
        &&& self.pending().wf()
        &&& self.pending().text().len() + self.rest().len() <= u32::MAX
    }

    /// A parser at the start of `input`, with nothing built.
    pub fn new(input: &'a str) -> (parser: Self)
        requires
            input.spec_bytes().len() <= u32::MAX,
        ensures
            parser.wf(),
            parser.rest() == input.spec_bytes(),
            parser.pending() == Pending::empty(),
    {
        Parser { cursor: Cursor::new(input), builder: builder_new() }
    }

    /// Opens a node of `kind` inside the innermost open node.
    pub fn start_node(&mut self, kind: SyntaxKind)
        requires
            old(self).wf(),
        ensures
            final(self).wf(),
            final(self).rest() == old(self).rest(),
            final(self).pending() == old(self).pending().start_node(raw_of(kind)),
    {
        proof {
            self.pending().lemma_can_start_at_end();
            self.pending().lemma_start_node_at(self.pending().done.len() as int, raw_of(kind));
        }
        builder_start_node(&mut self.builder, kind.to_raw());
    }

    /// Opens a node of `kind` at a checkpoint taken earlier: what was emitted
    /// since the checkpoint ends up inside the node.
    pub fn start_node_at(&mut self, checkpoint: Checkpoint, kind: SyntaxKind)
        requires
            old(self).wf(),
            old(self).pending().can_start_at(checkpoint_place(checkpoint)),
        ensures
            final(self).wf(),
            final(self).rest() == old(self).rest(),
            final(self).pending() == old(self).pending().start_node_at(
                checkpoint_place(checkpoint),
                raw_of(kind),
            ),
    {
        proof {
            self.pending().lemma_start_node_at(checkpoint_place(checkpoint), raw_of(kind));
        }
        builder_start_node_at(&mut self.builder, checkpoint, kind.to_raw());
    }

    /// Closes the innermost open node.
    pub fn finish_node(&mut self)
        requires
            old(self).wf(),
            old(self).pending().open.len() > 0,
        ensures
            final(self).wf(),
            final(self).rest() == old(self).rest(),
            final(self).pending() == old(self).pending().finish_node(),
    {
        proof {
            self.pending().lemma_finish_node();
        }
        builder_finish_node(&mut self.builder);
    }

    /// The kind of the next token, or `None` at the end of the text. Nothing
    /// is consumed and nothing is built.
    pub fn peek(&mut self) -> (kind: Option<SyntaxKind>)
        requires
            old(self).wf(),
        ensures
            final(self).wf(),
            final(self).rest() == old(self).rest(),
            final(self).pending() == old(self).pending(),
            kind == (if old(self).tokens().len() == 0 {
                None
            } else {
                Some(old(self).tokens()[0].kind)
            }),
    {
        proof {
            lemma_lex_lossless(self.rest());
            if self.rest().len() > 0 {
                lemma_lex_step(self.rest());
            }
        }
        self.cursor.peek()
    }

    /// Consumes the next token and emits it as a leaf.
    pub fn bump(&mut self)
        requires
            old(self).wf(),
            old(self).tokens().len() > 0,
        ensures
            final(self).wf(),
            final(self).rest() == old(self).rest().skip(old(self).tokens()[0].text.len() as int),
            final(self).tokens() == old(self).tokens().drop_first(),
            final(self).pending() == old(self).pending().token(
                raw_of(old(self).tokens()[0].kind),
                old(self).tokens()[0].text,
            ),
    {
        proof {
            lemma_lex_lossless(self.rest());
            lemma_lex_step(self.rest());
            self.pending().lemma_token(raw_of(self.tokens()[0].kind), self.tokens()[0].text);
        }
        let token = self.cursor.next().unwrap();
        builder_token(&mut self.builder, token.kind.to_raw(), token.text);
    }

    /// A mark at the end of what has been emitted so far.
    pub fn checkpoint(&self) -> (checkpoint: Checkpoint)
        ensures
            checkpoint_place(checkpoint) == self.pending().done.len(),
    {
        builder_checkpoint(&self.builder)
    }

    /// Parses the whole text: a root node over the expressions in it, with
    /// the whitespace and the unexpected tokens where they stood.
    pub fn parse(self) -> (parse: Parse)
        requires
            self.wf(),
            self.pending() == Pending::empty(),
        ensures
            parse.tree() == root(self.tokens()),
            parse.tree().kind() == raw_of(SyntaxKind::Root),
            text_of(parse.tree()) == self.rest(),
    {
        let mut parser = self;
        let ghost all = parser.tokens();
        let ghost kind = raw_of(SyntaxKind::Root);
        let ghost base = Pending::empty().start_node(kind);
        let ghost mut seen: Seq<Element> = Seq::empty();
        parser.start_node(SyntaxKind::Root);
        proof {
            base.lemma_emit(Seq::empty(), Seq::empty());
            assert(seen + items(all) =~= items(all));
        }
        loop
            invariant_except_break
                parser.wf(),
                parser.pending() == base.emit(seen),
                items(all) == seen + items(parser.tokens()),
            ensures
                parser.wf(),
                parser.pending() == base.emit(items(all)),
            decreases parser.tokens().len(),
        {
            let ghost tokens = parser.tokens();
            let ghost gap = trivia(tokens);
            proof {
                lemma_trivia(tokens);
                base.lemma_emit(seen, gap.elements);
            }
            skip_trivia(&mut parser);
            match parser.peek() {
                None => {
                    proof {
                        assert(seen + gap.elements =~= seen + items(tokens));
                    }
                    break ;
                },
                Some(next) => {
                    if begins(next) {
                        expr(&mut parser, 0);
                        proof {
                            let found = expression(gap.rest, 0);
                            lemma_expression(gap.rest, 0);
                            base.lemma_emit(seen + gap.elements, found.elements);
                            assert(seen + (gap.elements + found.elements + items(found.rest)) =~= (
                            seen + gap.elements + found.elements) + items(found.rest));
                            seen = seen + gap.elements + found.elements;
                        }
                    } else {
                        recover(&mut parser);
                        proof {
                            let stray = seq![unexpected(gap.rest[0])];
                            base.lemma_emit(seen + gap.elements, stray);
                            assert(seen + (gap.elements + stray + items(gap.rest.drop_first())) =~= (
                            seen + gap.elements + stray) + items(gap.rest.drop_first()));
                            seen = seen + gap.elements + stray;
                        }
                    }
                },
            }
        }
        proof {
            Pending::empty().lemma_nest(items(all), kind);
            Pending::empty().lemma_emit(Seq::empty(), Seq::empty());
        }
        parser.finish_node();
        proof {
            let whole = Element::Node { kind, children: items(all) };
            assert(Pending::empty().emit(seq![whole]).done =~= seq![whole]);
            assert(parser.pending().done[0] == whole);
            lemma_root_lossless(all);
            lemma_lex_lossless(self.rest());
        }
        parser.finish()
    }

    /// Hands out the finished tree. Every node that was opened has to be
    /// closed again, and the outermost of them has to be all there is.
    pub fn finish(self) -> (parse: Parse)
        requires
            self.wf(),
            self.pending().open.len() == 0,
            self.pending().done.len() == 1,
            self.pending().done[0] is Node,
        ensures
            parse.tree() == self.pending().done[0],
    {
        proof {
            lemma_text_one(self.pending().done[0]);
            assert(self.pending().done =~= seq![self.pending().done[0]]);
        }
        let green_node = builder_finish(self.builder);
        Parse { green_node }
    }
}

/// The text of the tree of a text is that text.
pub proof fn lemma_round_trip(input: Seq<char>, output: Seq<char>)
    requires
        encode_utf8(output) == text_of(root(lex(encode_utf8(input)))),
    ensures
        output == input,
{
    lemma_syntax_lossless(encode_utf8(input));
    lemma_encode_injective(output, input);
}

/// Parses `input`, whatever it holds. `None` only for a text too long for
/// the tree, whose offsets are 32 bits wide.
pub fn parse_text(input: &str) -> (parse: Option<Parse>)
    ensures
        parse is Some <==> input.spec_bytes().len() <= u32::MAX,
        parse is Some ==> parse->0.tree() == root(lex(input.spec_bytes())),
        parse is Some ==> text_of(parse->0.tree()) == input.spec_bytes(),
{
    if input.as_bytes().len() > u32::MAX as usize {
        None
    } else {
        Some(Parser::new(input).parse())
    }
}

/// The result of a parse: the finished tree.
pub struct Parse {
    green_node: GreenNode,
}

impl Parse {
    /// The text that the tree covers has a length of 32 bits.
    #[verifier::type_invariant]
    spec fn fits(self) -> bool {
        texts_of(node_children(self.green_node)).len() <= u32::MAX
    }

    /// The tree as a value.
    pub closed spec fn tree(&self) -> Element {
        node_tree(self.green_node)
    }

    /// The tree as text: a line for each node and token, indented by depth,
    /// with its kind and the bytes it covers.
    pub fn debug_tree(&self) -> (text: String)
        ensures
            text@ == rendered(self.tree()),
    {
        proof {
            use_type_invariant(self);
        }
        render(&self.green_node)
    }

    /// The text that the tree was made of: the texts of its tokens, first to
    /// last.
    pub fn text(&self) -> (text: String)
        ensures
            encode_utf8(text@) == text_of(self.tree()),
    {
        source(&self.green_node)
    }

    /// The tree itself, for a caller that walks it with rowan.
    pub fn green_node(&self) -> (node: &GreenNode)
        ensures
            node_tree(*node) == self.tree(),
    {
        &self.green_node
    }
}

} // verus!
