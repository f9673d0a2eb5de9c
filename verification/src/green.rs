//! The tree library. The trees are rowan's green trees, built by rowan's
//! builder; this file says what the rest of the crate takes for granted
//! about them. Nothing here is proved: each function below makes one call
//! into rowan, and its contract is read off rowan's source.

use crate::tree::{texts_of, Element, Open};
use rowan::{Checkpoint, GreenNode, GreenNodeBuilder};
use vstd::prelude::*;
use vstd::string::StringSliceAdditionalSpecFns;
use vstd::utf8::encode_utf8;

verus! {

/// rowan's builder of green trees, taken as it is.
#[verifier::external_type_specification]
#[verifier::external_body]
pub struct ExGreenNodeBuilder<'cache>(GreenNodeBuilder<'cache>);

/// rowan's green node, taken as it is.
#[verifier::external_type_specification]
#[verifier::external_body]
pub struct ExGreenNode(GreenNode);

/// rowan's checkpoint, taken as it is.
#[verifier::external_type_specification]
#[verifier::external_body]
pub struct ExCheckpoint(Checkpoint);

/// The nodes that a builder holds open, outermost first: its `parents`.
pub uninterp spec fn builder_open(builder: GreenNodeBuilder<'static>) -> Seq<Open>;

/// The elements that a builder has finished and not yet put under a node:
/// its `children`.
pub uninterp spec fn builder_done(builder: GreenNodeBuilder<'static>) -> Seq<Element>;

/// The place in a builder's list of elements that a checkpoint marks.
pub uninterp spec fn checkpoint_place(checkpoint: Checkpoint) -> int;

/// The kind of a green node, as a number.
pub uninterp spec fn node_kind(node: GreenNode) -> u16;

/// The children of a green node, in order.
pub uninterp spec fn node_children(node: GreenNode) -> Seq<Element>;

/// A green node as a value.
pub open spec fn node_tree(node: GreenNode) -> Element {
    Element::Node { kind: node_kind(node), children: node_children(node) }
}

/// A child of a green node, taken out of it.
pub enum Child {
    Node(GreenNode),
    Token { kind: u16, text: String },
}

impl View for Child {
    type V = Element;

    open spec fn view(&self) -> Element {
        match *self {
            Child::Node(node) => node_tree(node),
            Child::Token { kind, text } => Element::Token { kind, text: encode_utf8(text@) },
        }
    }
}

/// `GreenNodeBuilder::new`: the new builder has no node open and no element.
#[verifier::external_body]
pub(crate) fn builder_new() -> (builder: GreenNodeBuilder<'static>)
    ensures
        builder_open(builder) == Seq::<Open>::empty(),
        builder_done(builder) == Seq::<Element>::empty(),
{
    GreenNodeBuilder::new()
}

/// `GreenNodeBuilder::start_node`: pushes the kind, with the length of the
/// list of elements, on the stack of open nodes.
#[verifier::external_body]
pub(crate) fn builder_start_node(builder: &mut GreenNodeBuilder<'static>, kind: u16)
    ensures
        builder_open(*final(builder)) == builder_open(*old(builder)).push(
            (Open { kind, first: builder_done(*old(builder)).len() as int }),
        ),
        builder_done(*final(builder)) == builder_done(*old(builder)),
{
    builder.start_node(rowan::SyntaxKind(kind))
}

/// `GreenNodeBuilder::token`: appends a token of that kind and text to the
/// list of elements.
#[verifier::external_body]
pub(crate) fn builder_token(builder: &mut GreenNodeBuilder<'static>, kind: u16, text: &str)
    ensures
        builder_open(*final(builder)) == builder_open(*old(builder)),
        builder_done(*final(builder)) == builder_done(*old(builder)).push(
            (Element::Token { kind, text: text.spec_bytes() }),
        ),
{
    builder.token(rowan::SyntaxKind(kind), text)
}

/// `GreenNodeBuilder::finish_node`: pops the innermost open node, drains
/// the elements from its start on into a node of its kind, and appends that
/// node. It panics with no node open; the text lengths that the new node
/// sums are 32 bits wide.
#[verifier::external_body]
pub(crate) fn builder_finish_node(builder: &mut GreenNodeBuilder<'static>)
    requires
        builder_open(*old(builder)).len() > 0,
        0 <= builder_open(*old(builder)).last().first <= builder_done(*old(builder)).len(),
        texts_of(builder_done(*old(builder)).skip(builder_open(*old(builder)).last().first)).len()
            <= u32::MAX,
    ensures
        builder_open(*final(builder)) == builder_open(*old(builder)).drop_last(),
        builder_done(*final(builder)) == builder_done(*old(builder)).take(
            builder_open(*old(builder)).last().first,
        ).push(
            (Element::Node {
                kind: builder_open(*old(builder)).last().kind,
                children: builder_done(*old(builder)).skip(
                    builder_open(*old(builder)).last().first,
                ),
            }),
        ),
{
    builder.finish_node()
}

/// `GreenNodeBuilder::checkpoint`: the checkpoint marks the current length of
/// the list of elements.
#[verifier::external_body]
pub(crate) fn builder_checkpoint(builder: &GreenNodeBuilder<'static>) -> (checkpoint: Checkpoint)
    ensures
        checkpoint_place(checkpoint) == builder_done(*builder).len(),
{
    builder.checkpoint()
}

/// `GreenNodeBuilder::start_node_at`: pushes the kind, with the place that
/// the checkpoint marks, on the stack of open nodes. It panics where the
/// place is past the end of the list, or before the start of the innermost
/// open node.
#[verifier::external_body]
pub(crate) fn builder_start_node_at(
    builder: &mut GreenNodeBuilder<'static>,
    checkpoint: Checkpoint,
    kind: u16,
)
    requires
        0 <= checkpoint_place(checkpoint) <= builder_done(*old(builder)).len(),
        builder_open(*old(builder)).len() > 0 ==> builder_open(*old(builder)).last().first
            <= checkpoint_place(checkpoint),
    ensures
        builder_open(*final(builder)) == builder_open(*old(builder)).push(
            (Open { kind, first: checkpoint_place(checkpoint) }),
        ),
        builder_done(*final(builder)) == builder_done(*old(builder)),
{
    builder.start_node_at(checkpoint, rowan::SyntaxKind(kind))
}

/// `GreenNodeBuilder::finish`: hands out the one element of the list, which
/// has to be a node.
#[verifier::external_body]
pub(crate) fn builder_finish(builder: GreenNodeBuilder<'static>) -> (node: GreenNode)
    requires
        builder_done(builder).len() == 1,
        builder_done(builder)[0] is Node,
    ensures
        node_tree(node) == builder_done(builder)[0],
{
    builder.finish()
}

/// `GreenNodeData::kind`: the kind of the node.
#[verifier::external_body]
pub(crate) fn green_kind(node: &GreenNode) -> (kind: u16)
    ensures
        kind == node_kind(*node),
{
    node.kind().0
}

/// `GreenNodeData::text_len`: the length in bytes of the text that the node
/// covers, which rowan keeps as a sum of 32 bits.
#[verifier::external_body]
pub(crate) fn green_text_len(node: &GreenNode) -> (len: u32)
    requires
        texts_of(node_children(*node)).len() <= u32::MAX,
    ensures
        len == texts_of(node_children(*node)).len(),
{
    node.text_len().into()
}

/// `GreenNodeData::children`: the children of the node, in order, each a
/// node or a token with its kind and text.
#[verifier::external_body]
pub(crate) fn green_children(node: &GreenNode) -> (children: Vec<Child>)
    ensures
        children@.len() == node_children(*node).len(),
        forall|i: int| 0 <= i < children@.len() ==> (#[trigger] children@[i])@ == node_children(*node)[i],
{
    node.children().map(|child| match child {
        rowan::NodeOrToken::Node(inner) => Child::Node(inner.to_owned()),
        rowan::NodeOrToken::Token(token) => Child::Token {
            kind: token.kind().0,
            text: token.text().to_string(),
        },
    }).collect()
}

} // verus!
