//! The syntax tree as a value, and the state of a tree that is being built.
//!
//! A tree holds kinds and token texts and nothing else: no offsets, no
//! parents. The state of a build is a flat list of finished elements and a
//! stack of nodes that are open, each with the place in that list where its
//! children start. Opening a node at an earlier place is then one push.

use vstd::prelude::*;

verus! {

/// A token, or a node with its children in order. Kinds are stored as
/// numeric tags.
pub enum Element {
    Token { kind: u16, text: Seq<u8> },
    Node { kind: u16, children: Seq<Element> },
}

impl Element {
    /// The kind of the element, as a numeric tag.
    pub open spec fn kind(self) -> u16 {
        match self {
            Element::Token { kind, .. } => kind,
            Element::Node { kind, .. } => kind,
        }
    }
}

/// The text that an element covers: that of its tokens, first to last.
pub open spec fn text_of(element: Element) -> Seq<u8>
    decreases element,
{
    match element {
        Element::Token { text, .. } => text,
        Element::Node { children, .. } => texts_of(children),
    }
}

/// The text that a row of elements covers.
pub open spec fn texts_of(elements: Seq<Element>) -> Seq<u8>
    decreases elements,
{
    if elements.len() == 0 {
        Seq::empty()
    } else {
        texts_of(elements.drop_last()) + text_of(elements.last())
    }
}

/// The text of a row with one more element is the row's text and then the
/// element's.
pub proof fn lemma_texts_push(elements: Seq<Element>, element: Element)
    ensures
        texts_of(elements.push(element)) == texts_of(elements) + text_of(element),
{
    assert(elements.push(element).drop_last() =~= elements);
}

/// The text of a row of one element is that element's text.
pub proof fn lemma_text_one(element: Element)
    ensures
        texts_of(seq![element]) == text_of(element),
{
    lemma_texts_push(Seq::empty(), element);
    assert(Seq::<Element>::empty().push(element) =~= seq![element]);
    assert(texts_of(Seq::<Element>::empty()) + text_of(element) =~= text_of(element));
}

/// The text of two rows, one after the other, is the two texts joined.
pub proof fn lemma_texts_add(front: Seq<Element>, back: Seq<Element>)
    ensures
        texts_of(front + back) == texts_of(front) + texts_of(back),
    decreases back.len(),
{
    if back.len() == 0 {
        assert(front + back =~= front);
        assert(texts_of(front) + texts_of(back) =~= texts_of(front));
    } else {
        lemma_texts_add(front, back.drop_last());
        assert((front + back).drop_last() =~= front + back.drop_last());
        assert((front + back).last() == back.last());
        assert(texts_of(front) + (texts_of(back.drop_last()) + text_of(back.last())) =~= (texts_of(
            front,
        ) + texts_of(back.drop_last())) + text_of(back.last()));
    }
}

/// A node that is open: its kind, and where in the list of finished elements
/// its children start.
pub struct Open {
    pub kind: u16,
    pub first: int,
}

/// A tree that is being built.
#[verifier::ext_equal]
pub struct Pending {
    /// The open nodes, outermost first.
    pub open: Seq<Open>,
    /// The elements finished so far that no finished node has taken in.
    pub done: Seq<Element>,
}

impl Pending {
    /// The state before anything was opened or emitted.
    pub open spec fn empty() -> Pending {
        Pending { open: Seq::empty(), done: Seq::empty() }
    }

    /// Every open node starts inside the list, and none before a node that
    /// was opened earlier.
    pub open spec fn wf(self) -> bool {
        &&& forall|i: int|
            0 <= i < self.open.len() ==> 0 <= (#[trigger] self.open[i]).first <= self.done.len()
        &&& forall|i: int, j: int|
            0 <= i <= j < self.open.len() ==> (#[trigger] self.open[i]).first <= (
            #[trigger] self.open[j]).first
    }

    /// Whether a node may be opened at `at`: inside the list, and not before
    /// the start of the innermost open node.
    pub open spec fn can_start_at(self, at: int) -> bool {
        &&& 0 <= at <= self.done.len()
        &&& self.open.len() > 0 ==> self.open.last().first <= at
    }

    /// Opens a node that starts at `at`: everything emitted since becomes its
    /// child, and what came before stays outside.
    pub open spec fn start_node_at(self, at: int, kind: u16) -> Pending {
        Pending { open: self.open.push(Open { kind, first: at }), done: self.done }
    }

    /// Opens a node at the end.
    pub open spec fn start_node(self, kind: u16) -> Pending {
        self.start_node_at(self.done.len() as int, kind)
    }

    /// Emits elements at the end.
    pub open spec fn emit(self, elements: Seq<Element>) -> Pending {
        Pending { open: self.open, done: self.done + elements }
    }

    /// Emits one token at the end.
    pub open spec fn token(self, kind: u16, text: Seq<u8>) -> Pending {
        Pending { open: self.open, done: self.done.push(Element::Token { kind, text }) }
    }

    /// Closes the innermost open node: the elements from its start on
    /// become its children, and it takes their place.
    pub open spec fn finish_node(self) -> Pending {
        let top = self.open.last();
        Pending {
            open: self.open.drop_last(),
            done: self.done.take(top.first).push(
                Element::Node { kind: top.kind, children: self.done.skip(top.first) },
            ),
        }
    }

    /// The text of everything emitted so far.
    pub open spec fn text(self) -> Seq<u8> {
        texts_of(self.done)
    }

    /// A node may be opened at the end, whatever is open.
    pub proof fn lemma_can_start_at_end(self)
        requires
            self.wf(),
        ensures
            self.can_start_at(self.done.len() as int),
    {
    }

    /// Opening a node keeps the state well-formed and the text as it is.
    pub proof fn lemma_start_node_at(self, at: int, kind: u16)
        requires
            self.wf(),
            self.can_start_at(at),
        ensures
            self.start_node_at(at, kind).wf(),
            self.start_node_at(at, kind).text() == self.text(),
    {
        let after = self.start_node_at(at, kind);
        assert forall|i: int, j: int| 0 <= i <= j < after.open.len() implies (
        #[trigger] after.open[i]).first <= (#[trigger] after.open[j]).first by {
            if i < self.open.len() {
                assert(self.open[i].first <= self.open[self.open.len() - 1].first);
            }
        }
    }

    /// Emitting keeps the state well-formed and adds the text of what is
    /// emitted.
    pub proof fn lemma_emit_text(self, elements: Seq<Element>)
        requires
            self.wf(),
        ensures
            self.emit(elements).wf(),
            self.emit(elements).text() == self.text() + texts_of(elements),
    {
        lemma_texts_add(self.done, elements);
    }

    /// Emitting a token is emitting a row of one element.
    pub proof fn lemma_token(self, kind: u16, text: Seq<u8>)
        ensures
            self.token(kind, text) == self.emit(seq![Element::Token { kind, text }]),
            self.token(kind, text).text() == self.text() + text,
            self.wf() ==> self.token(kind, text).wf(),
    {
        lemma_texts_push(self.done, Element::Token { kind, text });
        assert(self.done.push(Element::Token { kind, text }) =~= self.done + seq![
            Element::Token { kind, text },
        ]);
    }

    /// Closing a node keeps the state well-formed and the text as it is.
    pub proof fn lemma_finish_node(self)
        requires
            self.wf(),
            self.open.len() > 0,
        ensures
            self.finish_node().wf(),
            self.finish_node().text() == self.text(),
            texts_of(self.done.skip(self.open.last().first)).len() <= self.text().len(),
    {
        let top = self.open.last();
        let inner = self.done.skip(top.first);
        let node = Element::Node { kind: top.kind, children: inner };
        lemma_texts_push(self.done.take(top.first), node);
        lemma_texts_add(self.done.take(top.first), inner);
        assert(self.done.take(top.first) + inner =~= self.done);
        let after = self.finish_node();
        assert forall|i: int| 0 <= i < after.open.len() implies 0 <= (
        #[trigger] after.open[i]).first <= after.done.len() by {
            assert(after.open[i] == self.open[i]);
            assert(self.open[i].first <= self.open[self.open.len() - 1].first);
        }
    }

    /// Opening a node at a place after the fact builds what opening it there
    /// beforehand would have built: with `before` emitted, a node opened
    /// behind it, `inside` and `more` emitted and the node closed, `before`
    /// is followed by one node whose children are `inside` and then `more`.
    /// It makes no difference whether the node is opened before `inside` is
    /// emitted or after. Nothing of `before` is inside the node, and the open
    /// nodes are as they were.
    pub proof fn lemma_wrap(self, inside: Seq<Element>, more: Seq<Element>, kind: u16)
        requires
            self.wf(),
        ensures
            self.emit(inside).can_start_at(self.done.len() as int),
            self.emit(inside).start_node_at(self.done.len() as int, kind) == self.start_node(
                kind,
            ).emit(inside),
            self.emit(inside).start_node_at(self.done.len() as int, kind).emit(
                more,
            ).finish_node() == self.emit(seq![Element::Node { kind, children: inside + more }]),
    {
        let at = self.done.len() as int;
        let opened = self.emit(inside).start_node_at(at, kind);
        let closed = opened.emit(more).finish_node();
        assert(opened.emit(more).open.last() == Open { kind, first: at });
        assert(closed.open =~= self.open);
        assert((self.done + inside + more).take(at) =~= self.done);
        assert((self.done + inside + more).skip(at) =~= inside + more);
        assert(closed.done =~= self.done + seq![Element::Node { kind, children: inside + more }]);
    }

    /// Emitting nothing changes nothing, and emitting twice is emitting the
    /// two rows as one.
    pub proof fn lemma_emit(self, first: Seq<Element>, second: Seq<Element>)
        ensures
            self.emit(Seq::empty()) == self,
            self.emit(first).emit(second) == self.emit(first + second),
    {
        assert(self.done + Seq::<Element>::empty() =~= self.done);
        assert((self.done + first) + second =~= self.done + (first + second));
    }

    /// A node that is opened, filled and closed is one element more: a node
    /// of that kind over what was emitted in between.
    pub proof fn lemma_nest(self, inside: Seq<Element>, kind: u16)
        requires
            self.wf(),
        ensures
            self.start_node(kind).emit(inside).finish_node() == self.emit(
                seq![Element::Node { kind, children: inside }],
            ),
    {
        self.lemma_wrap(Seq::empty(), inside, kind);
        self.lemma_emit(Seq::empty(), Seq::empty());
        assert(Seq::<Element>::empty() + inside =~= inside);
    }

    /// A checkpoint taken before a first operand, and a node opened there
    /// once the operator is seen, give a node whose children are exactly the
    /// first operand, the operator and the second operand.
    pub proof fn lemma_wrap_operands(self, left: Element, operator: Element, right: Element, kind: u16)
        requires
            self.wf(),
        ensures
            self.emit(seq![left]).start_node_at(self.done.len() as int, kind).emit(
                seq![operator],
            ).emit(seq![right]).finish_node() == self.emit(
                seq![Element::Node { kind, children: seq![left, operator, right] }],
            ),
    {
        self.lemma_wrap(seq![left], seq![operator, right], kind);
        let opened = self.emit(seq![left]).start_node_at(self.done.len() as int, kind);
        assert(opened.emit(seq![operator]).emit(seq![right]) == opened.emit(seq![operator, right])) by {
            assert(opened.done + seq![operator] + seq![right] =~= opened.done + seq![
                operator,
                right,
            ]);
        }
        assert(seq![left] + seq![operator, right] =~= seq![left, operator, right]);
    }
}

} // verus!
