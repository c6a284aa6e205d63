//! The lossless syntax tree: leaves that own their text, inner nodes that
//! share their children, and error nodes that keep the text they could not
//! match together with a diagnostic.

use vstd::prelude::*;
use std::rc::Rc;
use std::sync::Arc;
use ecow::{EcoString, EcoVec};
use crate::eco::{eco_chars, eco_items, hints_clone, hints_eq, hints_new, hints_push};
use crate::kind::SyntaxKind;
use crate::span::Span;

verus! {

/// What a syntax tree is, apart from how it is stored.
pub enum Tree {
    /// A token with its text.
    Leaf { kind: SyntaxKind, text: Seq<char>, span: Span },
    /// A construct made of its children, in document order.
    Inner { kind: SyntaxKind, span: Span, children: Seq<Tree> },
    /// Text that matched no rule, with the reason and advice for the user.
    Error { text: Seq<char>, span: Span, message: Seq<char>, hints: Seq<Seq<char>> },
}

impl Tree {
    pub open spec fn kind(self) -> SyntaxKind {
        match self {
            Tree::Leaf { kind, .. } => kind,
            Tree::Inner { kind, .. } => kind,
            Tree::Error { .. } => SyntaxKind::Error,
        }
    }

    pub open spec fn span(self) -> Span {
        match self {
            Tree::Leaf { span, .. } => span,
            Tree::Inner { span, .. } => span,
            Tree::Error { span, .. } => span,
        }
    }

    /// The text that the node itself owns: none for an inner node.
    pub open spec fn text(self) -> Seq<char> {
        match self {
            Tree::Leaf { text, .. } => text,
            Tree::Inner { .. } => Seq::empty(),
            Tree::Error { text, .. } => text,
        }
    }

    pub open spec fn children(self) -> Seq<Tree> {
        match self {
            Tree::Inner { children, .. } => children,
            _ => Seq::empty(),
        }
    }

    /// The source text that the tree stands for: the text of its leaves and
    /// error nodes, in document order.
    pub open spec fn full_text(self) -> Seq<char>
        decreases self,
    {
        match self {
            Tree::Leaf { text, .. } => text,
            Tree::Inner { children, .. } => full_text_of(children),
            Tree::Error { text, .. } => text,
        }
    }

    /// Equality of two trees apart from their spans.
    pub open spec fn spanless_eq(self, other: Tree) -> bool
        decreases self,
    {
        match (self, other) {
            (Tree::Leaf { kind: k1, text: t1, .. }, Tree::Leaf { kind: k2, text: t2, .. }) => k1
                == k2 && t1 == t2,
            (
                Tree::Inner { kind: k1, children: c1, .. },
                Tree::Inner { kind: k2, children: c2, .. },
            ) => k1 == k2 && all_spanless_eq(c1, c2),
            (
                Tree::Error { text: t1, message: m1, hints: h1, .. },
                Tree::Error { text: t2, message: m2, hints: h2, .. },
            ) => t1 == t2 && m1 == m2 && h1 == h2,
            _ => false,
        }
    }

    /// The tree with one more hint, where it is an error node; the tree
    /// itself otherwise.
    pub open spec fn with_hint(self, hint: Seq<char>) -> Tree {
        match self {
            Tree::Error { text, span, message, hints } => Tree::Error {
                text,
                span,
                message,
                hints: hints.push(hint),
            },
            _ => self,
        }
    }
}

/// The source text that a run of trees stands for.
pub open spec fn full_text_of(trees: Seq<Tree>) -> Seq<char>
    decreases trees,
{
    if trees.len() == 0 {
        Seq::empty()
    } else {
        full_text_of(trees.drop_last()) + trees.last().full_text()
    }
}

/// Two runs of trees are equal apart from spans when they are equally long
/// and equal apart from spans place by place.
pub open spec fn all_spanless_eq(a: Seq<Tree>, b: Seq<Tree>) -> bool
    decreases a,
{
    if a.len() != b.len() {
        false
    } else if a.len() == 0 {
        true
    } else {
        all_spanless_eq(a.drop_last(), b.drop_last()) && a.last().spanless_eq(b.last())
    }
}

/// A node of the syntax tree.
#[derive(Clone, Debug, Eq, PartialEq, Hash)]
pub struct SyntaxNode(Repr);

#[derive(Clone, Debug, Eq, PartialEq, Hash)]
enum Repr {
    Leaf(LeafNode),
    Inner(Arc<InnerNode>),
    Error(Arc<ErrorNode>),
}

#[derive(Clone, Debug, Eq, PartialEq, Hash)]
struct LeafNode {
    kind: SyntaxKind,
    text: EcoString,
    span: Span,
}

#[derive(Clone, Debug, Eq, PartialEq, Hash)]
struct InnerNode {
    kind: SyntaxKind,
    span: Span,
    children: Vec<SyntaxNode>,
}

#[derive(Debug, Eq, PartialEq, Hash)]
struct ErrorNode {
    text: EcoString,
    error: SyntaxError,
}

/// A diagnostic: where the input went wrong, why, and what may help.
#[derive(Debug, Eq, PartialEq, Hash)]
pub struct SyntaxError {
    pub span: Span,
    pub message: EcoString,
    pub hints: EcoVec<EcoString>,
}

spec fn tree_of(node: SyntaxNode) -> Tree
    decreases node,
{
    match node.0 {
        Repr::Leaf(leaf) => Tree::Leaf {
            kind: leaf.kind,
            text: eco_chars(leaf.text),
            span: leaf.span,
        },
        Repr::Inner(inner) => Tree::Inner {
            kind: inner.kind,
            span: inner.span,
            children: trees_of(inner.children@),
        },
        Repr::Error(node) => Tree::Error {
            text: eco_chars(node.text),
            span: node.error.span,
            message: eco_chars(node.error.message),
            hints: eco_items(node.error.hints),
        },
    }
}

spec fn trees_of(nodes: Seq<SyntaxNode>) -> Seq<Tree>
    decreases nodes,
{
    if nodes.len() == 0 {
        Seq::empty()
    } else {
        trees_of(nodes.drop_last()).push(tree_of(nodes.last()))
    }
}

impl View for SyntaxNode {
    type V = Tree;

    closed spec fn view(&self) -> Tree {
        tree_of(*self)
    }
}

/// The trees of a run of nodes.
pub open spec fn views(nodes: Seq<SyntaxNode>) -> Seq<Tree> {
    nodes.map_values(|n: SyntaxNode| n@)
}

proof fn lemma_trees_of(nodes: Seq<SyntaxNode>)
    ensures
        trees_of(nodes) == views(nodes),
    decreases nodes.len(),
{
    if nodes.len() > 0 {
        lemma_trees_of(nodes.drop_last());
        assert(trees_of(nodes) =~= views(nodes));
    } else {
        assert(trees_of(nodes) =~= views(nodes));
    }
}

/// The text of a run of trees grows by the text of each tree appended.
pub proof fn lemma_full_text_push(trees: Seq<Tree>, last: Tree)
    ensures
        full_text_of(trees.push(last)) == full_text_of(trees) + last.full_text(),
{
    assert(trees.push(last).drop_last() =~= trees);
}

/// The text of two runs of trees, one behind the other, is the text of the
/// first and then that of the second.
pub proof fn lemma_full_text_concat(a: Seq<Tree>, b: Seq<Tree>)
    ensures
        full_text_of(a + b) == full_text_of(a) + full_text_of(b),
    decreases b.len(),
{
    if b.len() == 0 {
        assert(a + b =~= a);
        assert(full_text_of(a) + full_text_of(b) =~= full_text_of(a));
    } else {
        assert((a + b).drop_last() =~= a + b.drop_last());
        lemma_full_text_concat(a, b.drop_last());
        assert((a + b).last() == b.last());
        assert(full_text_of(a + b) =~= full_text_of(a) + full_text_of(b));
    }
}

/// The text of a run of one tree is the text of that tree.
pub proof fn lemma_full_text_one(tree: Tree)
    ensures
        full_text_of(seq![tree]) == tree.full_text(),
{
    lemma_full_text_push(Seq::empty(), tree);
    assert(Seq::<Tree>::empty().push(tree) =~= seq![tree]);
    assert(full_text_of(Seq::empty()) + tree.full_text() =~= tree.full_text());
}

/// Equality apart from spans, of two runs of trees, holds place by place.
pub proof fn lemma_all_spanless_eq(a: Seq<Tree>, b: Seq<Tree>)
    ensures
        all_spanless_eq(a, b) <==> (a.len() == b.len() && forall|i: int|
            0 <= i < a.len() ==> (#[trigger] a[i]).spanless_eq(b[i])),
    decreases a.len(),
{
    if a.len() == b.len() && a.len() > 0 {
        lemma_all_spanless_eq(a.drop_last(), b.drop_last());
        if all_spanless_eq(a, b) {
            assert forall|i: int| 0 <= i < a.len() implies (#[trigger] a[i]).spanless_eq(b[i]) by {
                if i < a.len() - 1 {
                    assert(a.drop_last()[i] == a[i]);
                    assert(b.drop_last()[i] == b[i]);
                }
            }
        } else if forall|i: int| 0 <= i < a.len() ==> (#[trigger] a[i]).spanless_eq(b[i]) {
            assert forall|i: int| 0 <= i < a.drop_last().len() implies (#[trigger] a.drop_last()[i]).spanless_eq(
                b.drop_last()[i],
            ) by {
                assert(a.drop_last()[i] == a[i]);
                assert(b.drop_last()[i] == b[i]);
            }
            assert(a.last() == a[a.len() - 1]);
        }
    }
}

impl View for SyntaxError {
    type V = Tree;

    /// A diagnostic seen as an error node without text.
    open spec fn view(&self) -> Tree {
        Tree::Error {
            text: Seq::empty(),
            span: self.span,
            message: eco_chars(self.message),
            hints: eco_items(self.hints),
        }
    }
}

impl Clone for SyntaxError {
    fn clone(&self) -> (e: SyntaxError)
        ensures
            e@ == self@,
    {
        SyntaxError {
            span: self.span,
            message: self.message.clone(),
            hints: hints_clone(&self.hints),
        }
    }
}

impl SyntaxError {
    /// A diagnostic that is not yet tied to a place.
    pub fn new(message: EcoString) -> (e: SyntaxError)
        ensures
            e.span == (Span { start: 1, end: 1 }),
            eco_chars(e.message) == eco_chars(message),
            eco_items(e.hints) == Seq::<Seq<char>>::empty(),
    {
        SyntaxError { span: Span { start: 1, end: 1 }, message, hints: hints_new() }
    }

    fn spanless_eq(&self, other: &SyntaxError) -> (r: bool)
        ensures
            r == (eco_chars(self.message) == eco_chars(other.message) && eco_items(self.hints)
                == eco_items(other.hints)),
    {
        self.message == other.message && hints_eq(&self.hints, &other.hints)
    }
}

impl LeafNode {
    fn new(kind: SyntaxKind, text: EcoString, span: Span) -> (r: LeafNode)
        ensures
            r.kind == kind,
            eco_chars(r.text) == eco_chars(text),
            r.span == span,
    {
        LeafNode { kind, text, span }
    }

    fn spanless_eq(&self, other: &LeafNode) -> (r: bool)
        ensures
            r == (self.kind == other.kind && eco_chars(self.text) == eco_chars(other.text)),
    {
        self.kind == other.kind && self.text == other.text
    }
}

impl InnerNode {
    fn new(kind: SyntaxKind, children: Vec<SyntaxNode>, span: Span) -> (r: InnerNode)
        ensures
            r.kind == kind,
            r.children == children,
            r.span == span,
    {
        InnerNode { kind, span, children }
    }

    /// Appends the source text of the children, in order, to `out`.
    fn push_text(&self, out: &mut EcoString)
        ensures
            eco_chars(*final(out)) == eco_chars(*old(out)) + full_text_of(views(self.children@)),
        decreases self,
    {
        let ghost before = eco_chars(*out);
        let ghost trees = views(self.children@);
        let mut i: usize = 0;
        while i < self.children.len()
            invariant
                i <= self.children.len(),
                trees == views(self.children@),
                eco_chars(*out) == before + full_text_of(trees.take(i as int)),
            decreases self.children.len() - i,
        {
            proof {
                lemma_full_text_push(trees.take(i as int), trees[i as int]);
                assert(trees.take(i as int).push(trees[i as int]) =~= trees.take(i + 1));
            }
            self.children[i].push_text(out);
            i += 1;
        }
        proof {
            assert(trees.take(i as int) =~= trees);
        }
    }

    fn spanless_eq(&self, other: &InnerNode) -> (r: bool)
        ensures
            r == (self.kind == other.kind && all_spanless_eq(
                views(self.children@),
                views(other.children@),
            )),
        decreases self,
    {
        if self.kind != other.kind || self.children.len() != other.children.len() {
            proof {
                lemma_all_spanless_eq(views(self.children@), views(other.children@));
            }
            return false;
        }
        let mut i: usize = 0;
        while i < self.children.len()
            invariant
                i <= self.children.len(),
                self.kind == other.kind,
                self.children.len() == other.children.len(),
                forall|j: int|
                    0 <= j < i ==> (#[trigger] views(self.children@)[j]).spanless_eq(
                        views(other.children@)[j],
                    ),
            decreases self.children.len() - i,
        {
            if !self.children[i].spanless_eq(&other.children[i]) {
                proof {
                    lemma_all_spanless_eq(views(self.children@), views(other.children@));
                    assert(!views(self.children@)[i as int].spanless_eq(
                        views(other.children@)[i as int],
                    ));
                }
                return false;
            }
            i += 1;
        }
        proof {
            lemma_all_spanless_eq(views(self.children@), views(other.children@));
        }
        true
    }
}

impl Clone for ErrorNode {
    fn clone(&self) -> (r: ErrorNode)
        ensures
            r.tree() == self.tree(),
    {
        ErrorNode { text: self.text.clone(), error: self.error.clone() }
    }
}

impl ErrorNode {
    pub closed spec fn tree(self) -> Tree {
        Tree::Error {
            text: eco_chars(self.text),
            span: self.error.span,
            message: eco_chars(self.error.message),
            hints: eco_items(self.error.hints),
        }
    }

    fn new(error: SyntaxError, text: EcoString) -> (r: ErrorNode)
        ensures
            r.tree() == (Tree::Error {
                text: eco_chars(text),
                span: error.span,
                message: eco_chars(error.message),
                hints: eco_items(error.hints),
            }),
    {
        ErrorNode { text, error }
    }

    fn hint(&mut self, hint: EcoString)
        ensures
            final(self).tree() == old(self).tree().with_hint(eco_chars(hint)),
    {
        hints_push(&mut self.error.hints, hint);
    }

    fn spanless_eq(&self, other: &ErrorNode) -> (r: bool)
        ensures
            r == self.tree().spanless_eq(other.tree()),
    {
        self.text == other.text && self.error.spanless_eq(&other.error)
    }
}

/// `Arc::make_mut` hands out the node behind the pointer for writing: the
/// node itself where nothing else shares it, a copy that replaces it where
/// something does. Either way the node first reads as before, and what is
/// written is what the pointer holds afterwards.
#[verifier::external_body]
fn unshared(node: &mut Arc<ErrorNode>) -> (r: &mut ErrorNode)
    ensures
        r.tree() == old(node).tree(),
        final(node).tree() == final(r).tree(),
{
    Arc::make_mut(node)
}

impl SyntaxNode {
    /// A leaf: a token of `kind` that owns `text`.
    pub fn leaf(kind: SyntaxKind, text: EcoString, span: Span) -> (r: SyntaxNode)
        ensures
            r@ == (Tree::Leaf { kind, text: eco_chars(text), span }),
    {
        SyntaxNode(Repr::Leaf(LeafNode::new(kind, text, span)))
    }

    /// An inner node of `kind` over `children`, kept behind a shared pointer.
    pub fn inner(kind: SyntaxKind, children: Vec<SyntaxNode>, span: Span) -> (r: SyntaxNode)
        ensures
            r@ == (Tree::Inner { kind, span, children: views(children@) }),
    {
        proof {
            lemma_trees_of(children@);
        }
        SyntaxNode(Repr::Inner(Arc::new(InnerNode::new(kind, children, span))))
    }

    /// An error node: the `text` that matched no rule, with its diagnostic.
    pub fn error(error: SyntaxError, text: EcoString) -> (r: SyntaxNode)
        ensures
            r@ == (Tree::Error {
                text: eco_chars(text),
                span: error.span,
                message: eco_chars(error.message),
                hints: eco_items(error.hints),
            }),
    {
        SyntaxNode(Repr::Error(Arc::new(ErrorNode::new(error, text))))
    }

    /// The kind of the node; `Error` for an error node.
    pub fn kind(&self) -> (k: SyntaxKind)
        ensures
            k == self@.kind(),
    {
        match &self.0 {
            Repr::Leaf(leaf) => leaf.kind,
            Repr::Inner(inner) => inner.kind,
            Repr::Error(_) => SyntaxKind::Error,
        }
    }

    /// The span of the node.
    pub fn span(&self) -> (s: Span)
        ensures
            s == self@.span(),
    {
        match &self.0 {
            Repr::Leaf(leaf) => leaf.span,
            Repr::Inner(inner) => inner.span,
            Repr::Error(node) => node.error.span,
        }
    }

    /// The text that the node itself owns; empty for an inner node.
    pub fn text(&self) -> (t: EcoString)
        ensures
            eco_chars(t) == self@.text(),
    {
        match &self.0 {
            Repr::Leaf(leaf) => leaf.text.clone(),
            Repr::Inner(_) => EcoString::new(),
            Repr::Error(node) => node.text.clone(),
        }
    }

    /// Appends the source text of the tree to `out`.
    fn push_text(&self, out: &mut EcoString)
        ensures
            eco_chars(*final(out)) == eco_chars(*old(out)) + self@.full_text(),
        decreases self,
    {
        match &self.0 {
            Repr::Leaf(leaf) => {
                out.push_str(leaf.text.as_str());
            },
            Repr::Inner(inner) => {
                proof {
                    lemma_trees_of(inner.children@);
                }
                inner.push_text(out);
            },
            Repr::Error(node) => {
                out.push_str(node.text.as_str());
            },
        }
    }

    /// The source text that the tree stands for: the text of all its leaves
    /// and error nodes, in document order.
    pub fn into_text(self) -> (t: EcoString)
        ensures
            eco_chars(t) == self@.full_text(),
    {
        let mut out = EcoString::new();
        self.push_text(&mut out);
        out
    }

    /// The children of an inner node; none for a leaf or an error node.
    pub fn children(&self) -> (c: &[SyntaxNode])
        ensures
            views(c@) == self@.children(),
    {
        match &self.0 {
            Repr::Inner(inner) => {
                proof {
                    lemma_trees_of(inner.children@);
                }
                inner.children.as_slice()
            },
            _ => {
                let none: &[SyntaxNode] = &[];
                assert(views(none@) =~= Seq::<Tree>::empty());
                none
            },
        }
    }

    /// Adds advice for the user to an error node, and leaves any other node
    /// as it is. A node that is shared is copied before it is written.
    pub fn hint(&mut self, hint: EcoString)
        ensures
            final(self)@ == old(self)@.with_hint(eco_chars(hint)),
    {
        match &mut self.0 {
            Repr::Error(node) => {
                unshared(node).hint(hint);
            },
            _ => {},
        }
    }

    /// Whether the two trees are the same apart from spans.
    pub fn spanless_eq(&self, other: &SyntaxNode) -> (r: bool)
        ensures
            r == self@.spanless_eq(other@),
        decreases self,
    {
        match (&self.0, &other.0) {
            (Repr::Leaf(a), Repr::Leaf(b)) => a.spanless_eq(b),
            (Repr::Inner(a), Repr::Inner(b)) => {
                proof {
                    lemma_trees_of(a.children@);
                    lemma_trees_of(b.children@);
                }
                a.spanless_eq(b)
            },
            (Repr::Error(a), Repr::Error(b)) => a.spanless_eq(b),
            _ => false,
        }
    }
}

impl Default for SyntaxNode {
    /// An end-of-input leaf without text, at the unset span.
    fn default() -> (r: SyntaxNode)
        ensures
            r@ == (Tree::Leaf {
                kind: SyntaxKind::Eof,
                text: Seq::empty(),
                span: Span { start: 1, end: 1 },
            }),
    {
        SyntaxNode::leaf(SyntaxKind::Eof, EcoString::new(), Span::default())
    }
}

/// A node seen in its place: which node it is, under which parent, as which
/// child, and at which byte offset of the source.
#[derive(Clone, Debug)]
pub struct LinkedNode<'a> {
    node: &'a SyntaxNode,
    parent: Option<Rc<LinkedNode<'a>>>,
    index: usize,
    offset: usize,
}

impl<'a> LinkedNode<'a> {
    /// The node that the cursor stands on.
    pub closed spec fn node(self) -> SyntaxNode {
        *self.node
    }

    /// The cursor of the parent; none at the root of a traversal.
    pub closed spec fn parent_link(self) -> Option<LinkedNode<'a>> {
        match self.parent {
            Some(p) => Some(*p),
            None => None,
        }
    }

    /// Place of the node among the children of its parent.
    pub closed spec fn place(self) -> usize {
        self.index
    }

    /// Byte offset of the node in the source.
    pub closed spec fn byte_offset(self) -> usize {
        self.offset
    }

    /// Starts a traversal at `root`: no parent, first place, offset zero.
    pub fn new(root: &'a SyntaxNode) -> (r: LinkedNode<'a>)
        ensures
            r.node() == *root,
            r.parent_link() is None,
            r.place() == 0,
            r.byte_offset() == 0,
    {
        LinkedNode { node: root, parent: None, index: 0, offset: 0 }
    }

    /// The node that the cursor stands on.
    pub fn get(&self) -> (n: &'a SyntaxNode)
        ensures
            *n == self.node(),
    {
        self.node
    }

    /// The index of this node in its parent's list of children.
    pub fn index(&self) -> (i: usize)
        ensures
            i == self.place(),
    {
        self.index
    }

    /// The byte offset of this node in the source.
    pub fn offset(&self) -> (o: usize)
        ensures
            o == self.byte_offset(),
    {
        self.offset
    }

    /// The cursor of the parent.
    pub fn parent(&self) -> (p: Option<&LinkedNode<'a>>)
        ensures
            p is Some <==> self.parent_link() is Some,
            p is Some ==> *p->0 == self.parent_link()->0,
    {
        match &self.parent {
            Some(p) => Some(&**p),
            None => None,
        }
    }

    /// The kind of the parent node.
    pub fn parent_kind(&self) -> (k: Option<SyntaxKind>)
        ensures
            k == match self.parent_link() {
                Some(p) => Some(p.node()@.kind()),
                None => None,
            },
    {
        match self.parent() {
            Some(p) => Some(p.node.kind()),
            None => None,
        }
    }
}

/// On which side of a byte offset a cursor stands.
#[derive(Debug, Clone, Copy, PartialEq, Eq, Structural)]
pub enum Side {
    Before,
    After,
}

} // verus!
