use ecow::EcoString;
use neorg_syntax::kind::SyntaxKind;
use neorg_syntax::node::{LinkedNode, Side, SyntaxError, SyntaxNode};
use neorg_syntax::span::Span;

fn leaf(kind: SyntaxKind, text: &str, start: usize, end: usize) -> SyntaxNode {
    SyntaxNode::leaf(kind, EcoString::from(text), Span { start, end })
}

fn italic(at: usize) -> SyntaxNode {
    SyntaxNode::inner(
        SyntaxKind::Italic,
        vec![
            leaf(SyntaxKind::Slash, "/", at, at + 1),
            leaf(SyntaxKind::Text, "it", at + 1, at + 3),
            leaf(SyntaxKind::Slash, "/", at + 3, at + 4),
        ],
        Span { start: at, end: at + 4 },
    )
}

fn broken(message: &str, text: &str) -> SyntaxNode {
    SyntaxNode::error(SyntaxError::new(EcoString::from(message)), EcoString::from(text))
}

#[test]
fn a_leaf_owns_its_text() {
    let node = leaf(SyntaxKind::Text, "word", 2, 6);
    assert_eq!(node.kind(), SyntaxKind::Text);
    assert_eq!(node.text(), "word");
    assert_eq!(node.span(), Span { start: 2, end: 6 });
    assert!(node.children().is_empty());
    assert_eq!(node.into_text(), "word");
}

#[test]
fn an_inner_node_has_no_text_of_its_own() {
    let node = italic(5);
    assert_eq!(node.kind(), SyntaxKind::Italic);
    assert_eq!(node.text(), "");
    assert_eq!(node.span(), Span { start: 5, end: 9 });
    assert_eq!(node.children().len(), 3);
    assert_eq!(node.children()[1], leaf(SyntaxKind::Text, "it", 6, 8));
    assert_eq!(node.into_text(), "/it/");
}

#[test]
fn into_text_walks_the_whole_tree_in_order() {
    let root = SyntaxNode::inner(
        SyntaxKind::Root,
        vec![
            leaf(SyntaxKind::Text, "a", 0, 1),
            SyntaxNode::inner(
                SyntaxKind::Bold,
                vec![italic(1), broken("incomplete bold text", "*x"), SyntaxNode::inner(SyntaxKind::Root, vec![], Span::default())],
                Span { start: 1, end: 7 },
            ),
            leaf(SyntaxKind::NewLine, "\n", 7, 8),
        ],
        Span { start: 0, end: 8 },
    );
    assert_eq!(root.into_text(), "a/it/*x\n");
}

#[test]
fn an_error_node_keeps_text_and_diagnostic() {
    let mut error = SyntaxError::new(EcoString::from("incomplete italic text"));
    assert_eq!(error.span, Span { start: 1, end: 1 });
    assert!(error.hints.is_empty());
    error.span = Span { start: 4, end: 9 };
    let node = SyntaxNode::error(error, EcoString::from("/ital"));
    assert_eq!(node.kind(), SyntaxKind::Error);
    assert_eq!(node.text(), "/ital");
    assert_eq!(node.span(), Span { start: 4, end: 9 });
    assert!(node.children().is_empty());
    assert_eq!(node.into_text(), "/ital");
}

#[test]
fn hints_are_added_to_error_nodes_only() {
    let mut node = broken("incomplete italic text", "/a");
    node.hint(EcoString::from("close the pair"));
    node.hint(EcoString::from("or remove the slash"));
    let mut error = SyntaxError::new(EcoString::from("incomplete italic text"));
    error.hints.push(EcoString::from("close the pair"));
    error.hints.push(EcoString::from("or remove the slash"));
    assert_eq!(node, SyntaxNode::error(error, EcoString::from("/a")));

    let mut plain = leaf(SyntaxKind::Text, "a", 0, 1);
    plain.hint(EcoString::from("ignored"));
    assert_eq!(plain, leaf(SyntaxKind::Text, "a", 0, 1));
    let mut inner = italic(0);
    inner.hint(EcoString::from("ignored"));
    assert_eq!(inner, italic(0));
}

#[test]
fn a_hint_on_a_shared_node_leaves_the_other_owner_alone() {
    let first = broken("incomplete italic text", "/a");
    let mut copy = first.clone();
    copy.hint(EcoString::from("close the pair"));
    assert_eq!(first, broken("incomplete italic text", "/a"));
    assert_ne!(copy, first);
    assert!(!copy.spanless_eq(&first));
}

#[test]
fn spanless_eq_ignores_spans_at_every_depth() {
    assert!(leaf(SyntaxKind::Text, "a", 0, 1).spanless_eq(&leaf(SyntaxKind::Text, "a", 40, 41)));
    assert!(!leaf(SyntaxKind::Text, "a", 0, 1).spanless_eq(&leaf(SyntaxKind::Text, "b", 0, 1)));
    assert!(!leaf(SyntaxKind::Text, "a", 0, 1).spanless_eq(&leaf(SyntaxKind::At, "a", 0, 1)));
    assert!(italic(0).spanless_eq(&italic(77)));
    assert_ne!(italic(0), italic(77));

    let shorter = SyntaxNode::inner(
        SyntaxKind::Italic,
        vec![leaf(SyntaxKind::Slash, "/", 0, 1), leaf(SyntaxKind::Text, "it", 1, 3)],
        Span { start: 0, end: 3 },
    );
    assert!(!italic(0).spanless_eq(&shorter));
    assert!(!shorter.spanless_eq(&italic(0)));
    let other_kind = SyntaxNode::inner(SyntaxKind::Bold, italic(0).children().to_vec(), Span { start: 0, end: 4 });
    assert!(!italic(0).spanless_eq(&other_kind));
    assert!(!italic(0).spanless_eq(&leaf(SyntaxKind::Italic, "/it/", 0, 4)));
}

#[test]
fn spanless_eq_compares_diagnostics_apart_from_their_span() {
    let mut here = SyntaxError::new(EcoString::from("m"));
    here.span = Span { start: 3, end: 4 };
    let mut there = SyntaxError::new(EcoString::from("m"));
    there.span = Span { start: 30, end: 31 };
    let a = SyntaxNode::error(here, EcoString::from("t"));
    let b = SyntaxNode::error(there, EcoString::from("t"));
    assert!(a.spanless_eq(&b));
    assert!(!a.spanless_eq(&broken("other", "t")));
    assert!(!a.spanless_eq(&broken("m", "u")));
    let mut hinted = b.clone();
    hinted.hint(EcoString::from("h"));
    assert!(!a.spanless_eq(&hinted));
    assert!(!a.spanless_eq(&leaf(SyntaxKind::Error, "t", 3, 4)));
}

#[test]
fn the_default_node_is_an_empty_end_leaf() {
    let node = SyntaxNode::default();
    assert_eq!(node, SyntaxNode::leaf(SyntaxKind::Eof, EcoString::new(), Span { start: 1, end: 1 }));
}

#[test]
fn a_traversal_starts_at_its_root() {
    let root = italic(0);
    let link = LinkedNode::new(&root);
    assert_eq!(link.get(), &root);
    assert_eq!(link.index(), 0);
    assert_eq!(link.offset(), 0);
    assert!(link.parent().is_none());
    assert_eq!(link.parent_kind(), None);
}

#[test]
fn sides_are_told_apart() {
    assert_ne!(Side::Before, Side::After);
    assert_eq!(Side::Before.clone(), Side::Before);
}

#[test]
fn a_cloned_diagnostic_keeps_message_and_hints() {
    let mut error = SyntaxError::new(EcoString::from("incomplete bold text"));
    error.span = Span { start: 2, end: 5 };
    error.hints.push(EcoString::from("close the pair"));
    let copy = error.clone();
    assert_eq!(copy, error);
    assert_eq!(copy.hints.len(), 1);
    assert_eq!(copy.hints[0], "close the pair");
    assert_eq!(copy.message, "incomplete bold text");
}
