//! A tree as text, in two ways.
//!
//! The listing has one line for each node and token, from the root down and
//! from first child to last. A line holds the name of the kind, `@`, and the
//! range of bytes that the element covers, as `start..end`; the line of a
//! token ends with a space and the token's text in quotes. A child's line is
//! indented by two spaces more than its parent's. No line break follows the
//! last line.
//!
//! The source is the text that the tree was made of: the texts of its
//! tokens, first to last.

use crate::green::{
    green_children, green_kind, green_text_len, node_children, node_tree, Child,
};
use crate::kind::{kind_of, name_of, SyntaxKind};
use crate::tree::{lemma_texts_add, text_of, texts_of, Element};
use rowan::GreenNode;
use vstd::prelude::*;
use vstd::string::StringExecFns;
use vstd::utf8::{decode_utf8, encode_utf8, encode_utf8_decode_utf8};

verus! {

/// The text `text` between quotes, with the characters that Rust escapes in
/// the debug form of a string escaped as Rust escapes them.
pub uninterp spec fn quoted(text: Seq<char>) -> Seq<char>;

/// `format!` with `{:?}` on a string: the debug form that std gives a
/// string.
#[verifier::external_body]
fn quote(text: &str) -> (out: String)
    ensures
        out@ == quoted(text@),
{
    format!("{:?}", text)
}

/// A digit as text.
pub open spec fn digit(d: nat) -> Seq<char> {
    if d == 0 {
        "0"@
    } else if d == 1 {
        "1"@
    } else if d == 2 {
        "2"@
    } else if d == 3 {
        "3"@
    } else if d == 4 {
        "4"@
    } else if d == 5 {
        "5"@
    } else if d == 6 {
        "6"@
    } else if d == 7 {
        "7"@
    } else if d == 8 {
        "8"@
    } else {
        "9"@
    }
}

/// A number in decimal, without leading zeros.
pub open spec fn decimal(n: nat) -> Seq<char>
    decreases n,
{
    if n < 10 {
        digit(n)
    } else {
        decimal(n / 10) + digit(n % 10)
    }
}

/// The name of a kind and the range that an element covers.
pub open spec fn label(kind: u16, start: nat, end: nat) -> Seq<char> {
    name_of(kind_of(kind)) + "@"@ + decimal(start) + ".."@ + decimal(end)
}

/// What stands before the label of an element `depth` levels below the
/// root: nothing for the root itself, else a line break and two spaces for
/// each level.
pub open spec fn lead(depth: nat) -> Seq<char>
    decreases depth,
{
    if depth == 0 {
        Seq::empty()
    } else if depth == 1 {
        "\n  "@
    } else {
        lead((depth - 1) as nat) + "  "@
    }
}

/// The lines of an element that stands `depth` levels below the root and
/// starts at byte `start`, and of all that is below it.
pub open spec fn listing(element: Element, depth: nat, start: nat) -> Seq<char>
    decreases element,
{
    match element {
        Element::Token { kind, text } => lead(depth) + label(kind, start, start + text.len())
            + " "@ + quoted(decode_utf8(text)),
        Element::Node { kind, children } => lead(depth) + label(
            kind,
            start,
            start + texts_of(children).len(),
        ) + rows(children, depth + 1, start),
    }
}

/// The lines of a row of elements, the first of which starts at byte
/// `start`, each starting where the one before it ends.
pub open spec fn rows(elements: Seq<Element>, depth: nat, start: nat) -> Seq<char>
    decreases elements,
{
    if elements.len() == 0 {
        Seq::empty()
    } else {
        rows(elements.drop_last(), depth, start) + listing(
            elements.last(),
            depth,
            start + texts_of(elements.drop_last()).len(),
        )
    }
}

/// The rendering of a whole tree.
pub open spec fn rendered(tree: Element) -> Seq<char> {
    listing(tree, 0, 0)
}

/// A digit as text.
fn digit_text(d: u32) -> (text: &'static str)
    requires
        d < 10,
    ensures
        text@ == digit(d as nat),
{
    if d == 0 {
        "0"
    } else if d == 1 {
        "1"
    } else if d == 2 {
        "2"
    } else if d == 3 {
        "3"
    } else if d == 4 {
        "4"
    } else if d == 5 {
        "5"
    } else if d == 6 {
        "6"
    } else if d == 7 {
        "7"
    } else if d == 8 {
        "8"
    } else {
        "9"
    }
}

/// Appends `n` in decimal.
fn push_decimal(out: &mut String, n: u32)
    ensures
        final(out)@ == old(out)@ + decimal(n as nat),
    decreases n,
{
    if n >= 10 {
        push_decimal(out, n / 10);
    }
    out.append(digit_text(n % 10));
    proof {
        if n >= 10 {
            assert(old(out)@ + decimal(n as nat / 10) + digit(n as nat % 10) =~= old(out)@ + (
            decimal(n as nat / 10) + digit(n as nat % 10)));
        }
    }
}

/// Appends the label of an element.
fn push_label(out: &mut String, kind: u16, start: u32, end: u32)
    ensures
        final(out)@ == old(out)@ + label(kind, start as nat, end as nat),
{
    out.append(SyntaxKind::from_raw(kind).name());
    out.append("@");
    push_decimal(out, start);
    out.append("..");
    push_decimal(out, end);
    proof {
        assert(out@ =~= old(out)@ + label(kind, start as nat, end as nat));
    }
}

/// Appends the lines of the children of `node`, which stand `depth` levels
/// below the root, the first of them at byte `start`.
fn push_rows(out: &mut String, node: &GreenNode, before: &str, start: u32, Ghost(depth): Ghost<nat>)
    requires
        depth >= 1,
        before@ == lead(depth),
        start + texts_of(node_children(*node)).len() <= u32::MAX,
    ensures
        final(out)@ == old(out)@ + rows(node_children(*node), depth, start as nat),
    decreases node_children(*node),
{
    let children = green_children(node);
    let ghost all = node_children(*node);
    let mut at: u32 = start;
    let mut i: usize = 0;
    proof {
        assert(all.take(0) =~= Seq::<Element>::empty());
        assert(old(out)@ + Seq::<char>::empty() =~= old(out)@);
    }
    while i < children.len()
        invariant
            i <= children@.len(),
            children@.len() == all.len(),
            all == node_children(*node),
            forall|j: int| 0 <= j < children@.len() ==> (#[trigger] children@[j])@ == all[j],
            depth >= 1,
            before@ == lead(depth),
            start + texts_of(all).len() <= u32::MAX,
            at == start + texts_of(all.take(i as int)).len(),
            out@ == old(out)@ + rows(all.take(i as int), depth, start as nat),
        decreases children@.len() - i,
    {
        let ghost done = all.take(i as int);
        let ghost this = all[i as int];
        let ghost so_far = out@;
        proof {
            assert(all.take(i + 1).drop_last() =~= done);
            assert(all.take(i + 1).last() == this);
            lemma_texts_add(all.take(i + 1), all.skip(i + 1));
            assert(all.take(i + 1) + all.skip(i + 1) =~= all);
            assert(children@[i as int]@ == this);
        }
        out.append(before);
        match &children[i] {
            Child::Token { kind, text } => {
                let len: usize = text.as_str().len();
                proof {
                    assert(this == Element::Token { kind: *kind, text: encode_utf8(text@) });
                    assert(text_of(this) == encode_utf8(text@));
                    assert(texts_of(all.take(i + 1)) == texts_of(done) + text_of(this));
                    assert(len == encode_utf8(text@).len());
                    assert(texts_of(all).len() >= texts_of(all.take(i + 1)).len());
                }
                let end: u32 = at + len as u32;
                push_label(out, *kind, at, end);
                out.append(" ");
                let literal = quote(text.as_str());
                out.append(literal.as_str());
                proof {
                    encode_utf8_decode_utf8(text@);
                    assert(out@ =~= so_far + listing(this, depth, at as nat));
                }
                at = end;
            },
            Child::Node(inner) => {
                proof {
                    assert(this == node_tree(*inner));
                    assert(text_of(this) == texts_of(node_children(*inner)));
                    assert(texts_of(all.take(i + 1)) == texts_of(done) + text_of(this));
                    assert(texts_of(all).len() >= texts_of(all.take(i + 1)).len());
                }
                let len: u32 = green_text_len(inner);
                let end: u32 = at + len;
                push_label(out, green_kind(inner), at, end);
                let mut deeper = String::from_str(before);
                deeper.append("  ");
                push_rows(out, inner, deeper.as_str(), at, Ghost(depth + 1));
                proof {
                    assert(out@ =~= so_far + listing(this, depth, at as nat));
                }
                at = end;
            },
        }
        proof {
            assert(out@ =~= old(out)@ + rows(all.take(i + 1), depth, start as nat));
        }
        i += 1;
    }
    proof {
        assert(all.take(i as int) =~= all);
    }
}

/// The rendering of the tree under `node`.
pub(crate) fn render(node: &GreenNode) -> (text: String)
    requires
        texts_of(node_children(*node)).len() <= u32::MAX,
    ensures
        text@ == rendered(node_tree(*node)),
{
    let mut out = String::new();
    let len: u32 = green_text_len(node);
    push_label(&mut out, green_kind(node), 0, len);
    push_rows(&mut out, node, "\n  ", 0, Ghost(1));
    proof {
        assert(out@ =~= rendered(node_tree(*node)));
    }
    out
}

/// Text encodes piece by piece: the bytes of two texts joined are the bytes
/// of the first and then those of the second.
pub proof fn lemma_encode_add(front: Seq<char>, back: Seq<char>)
    ensures
        encode_utf8(front + back) == encode_utf8(front) + encode_utf8(back),
    decreases front.len(),
{
    if front.len() == 0 {
        assert(front + back =~= back);
        assert(encode_utf8(front) + encode_utf8(back) =~= encode_utf8(back));
    } else {
        lemma_encode_add(front.drop_first(), back);
        assert((front + back).drop_first() =~= front.drop_first() + back);
        assert(encode_utf8(front + back) =~= encode_utf8(front) + encode_utf8(back));
    }
}

/// Two texts with the same bytes are the same text.
pub proof fn lemma_encode_injective(one: Seq<char>, other: Seq<char>)
    requires
        encode_utf8(one) == encode_utf8(other),
    ensures
        one == other,
{
    encode_utf8_decode_utf8(one);
    encode_utf8_decode_utf8(other);
}

/// Appends the text that the children of `node` cover.
fn push_source(out: &mut String, node: &GreenNode)
    ensures
        encode_utf8(final(out)@) == encode_utf8(old(out)@) + texts_of(node_children(*node)),
    decreases node_children(*node),
{
    let children = green_children(node);
    let ghost all = node_children(*node);
    let mut i: usize = 0;
    proof {
        assert(all.take(0) =~= Seq::<Element>::empty());
        assert(encode_utf8(old(out)@) + Seq::<u8>::empty() =~= encode_utf8(old(out)@));
    }
    while i < children.len()
        invariant
            i <= children@.len(),
            children@.len() == all.len(),
            all == node_children(*node),
            forall|j: int| 0 <= j < children@.len() ==> (#[trigger] children@[j])@ == all[j],
            encode_utf8(out@) == encode_utf8(old(out)@) + texts_of(all.take(i as int)),
        decreases children@.len() - i,
    {
        let ghost this = all[i as int];
        let ghost so_far = out@;
        proof {
            assert(all.take(i + 1).drop_last() =~= all.take(i as int));
            assert(all.take(i + 1).last() == this);
            assert(children@[i as int]@ == this);
            assert(texts_of(all.take(i + 1)) == texts_of(all.take(i as int)) + text_of(this));
        }
        match &children[i] {
            Child::Token { kind, text } => {
                out.append(text.as_str());
                proof {
                    lemma_encode_add(so_far, text@);
                }
            },
            Child::Node(inner) => {
                push_source(out, inner);
            },
        }
        proof {
            assert(encode_utf8(out@) =~= encode_utf8(old(out)@) + texts_of(all.take(i + 1)));
        }
        i += 1;
    }
    proof {
        assert(all.take(i as int) =~= all);
    }
}

/// The text that the tree under `node` covers.
pub(crate) fn source(node: &GreenNode) -> (text: String)
    ensures
        encode_utf8(text@) == text_of(node_tree(*node)),
{
    let mut out = String::new();
    proof {
        assert(encode_utf8(out@) =~= Seq::<u8>::empty());
    }
    push_source(&mut out, node);
    proof {
        assert(Seq::<u8>::empty() + texts_of(node_children(*node)) =~= texts_of(
            node_children(*node),
        ));
    }
    out
}

} // verus!
