use ecow::EcoString;
use neorg_syntax::kind::SyntaxKind;
use neorg_syntax::lexer::Token;
use neorg_syntax::parser::{ErrorNode, Expr, LeafNode, Node, Parser, Repr, SyntaxNode};
use neorg_syntax::span::Span;
use neorg_syntax::{lex, parse};

fn token(kind: SyntaxKind, text: &str, start: usize, end: usize) -> Token {
    Token { kind, text: text.to_string(), span: Span { start, end } }
}

fn shape(nodes: &[Node]) -> Vec<(SyntaxKind, String, Span)> {
    nodes.iter().map(|n| (n.kind(), n.text(), n.span())).collect()
}

fn entry(kind: SyntaxKind, text: &str, start: usize, end: usize) -> (SyntaxKind, String, Span) {
    (kind, text.to_string(), Span { start, end })
}

fn rebuilt(nodes: &[Node]) -> String {
    nodes.iter().map(|n| n.resolve().into_text().to_string()).collect()
}

#[test]
fn bold_pair_in_a_sentence() {
    let input = "This is *bold* text";
    let nodes = parse(input);
    assert_eq!(
        shape(&nodes),
        vec![
            entry(SyntaxKind::Text, "This", 0, 4),
            entry(SyntaxKind::WhiteSpace, " ", 4, 5),
            entry(SyntaxKind::Text, "is", 5, 7),
            entry(SyntaxKind::WhiteSpace, " ", 7, 8),
            entry(SyntaxKind::Bold, "bold", 8, 14),
            entry(SyntaxKind::WhiteSpace, " ", 14, 15),
            entry(SyntaxKind::Text, "text", 15, 19),
        ]
    );
    let bold: Vec<&Node> = nodes.iter().filter(|n| n.kind() == SyntaxKind::Bold).collect();
    assert_eq!(bold.len(), 1);
    assert_eq!(bold[0].text(), "bold");
    assert_eq!(bold[0].type_is(), "SyntaxNode");
    assert_eq!(bold[0].errors(), None);
    assert_eq!(rebuilt(&nodes), input);
}

#[test]
fn every_pair_makes_its_construct() {
    let nodes = parse("x /i/ _u_ ~l~ -s- *b*");
    let made: Vec<(SyntaxKind, String)> = nodes
        .iter()
        .filter(|n| n.kind() != SyntaxKind::WhiteSpace)
        .map(|n| (n.kind(), n.text()))
        .collect();
    assert_eq!(
        made,
        vec![
            (SyntaxKind::Text, "x".to_string()),
            (SyntaxKind::Italic, "i".to_string()),
            (SyntaxKind::UnderLined, "u".to_string()),
            (SyntaxKind::ListItem, "l".to_string()),
            (SyntaxKind::StrikeThrough, "s".to_string()),
            (SyntaxKind::Bold, "b".to_string()),
        ]
    );
    assert!(nodes.iter().all(|n| n.errors().is_none()));
}

#[test]
fn unterminated_italic_is_an_error_node() {
    let input = "/italic text";
    let nodes = parse(input);
    assert_eq!(
        shape(&nodes),
        vec![
            entry(SyntaxKind::Error, "/italic", 0, 7),
            entry(SyntaxKind::WhiteSpace, " ", 7, 8),
            entry(SyntaxKind::Text, "text", 8, 12),
        ]
    );
    let errors: Vec<String> = nodes.iter().filter_map(|n| n.errors()).collect();
    assert_eq!(errors, vec!["incomplete italic text".to_string()]);
    assert!(errors[0].contains("incomplete italic"));
    assert_eq!(nodes[0].type_is(), "ErrorNode");
    assert_eq!(rebuilt(&nodes), input);
}

#[test]
fn space_before_the_closing_slash_gives_no_italic() {
    let input = "/italic /";
    let nodes = parse(input);
    assert!(nodes.iter().any(|n| n.kind() == SyntaxKind::Error));
    assert!(nodes.iter().all(|n| n.kind() != SyntaxKind::Italic));
    assert_eq!(
        shape(&nodes),
        vec![
            entry(SyntaxKind::Error, "/italic", 0, 7),
            entry(SyntaxKind::WhiteSpace, " ", 7, 8),
            entry(SyntaxKind::Error, "/", 8, 9),
        ]
    );
    assert_eq!(rebuilt(&nodes), input);
}

#[test]
fn text_that_ends_in_a_blank_is_rejected_inside_a_pair() {
    for blank in [" ", "\t"] {
        let inner = format!("italic{}", blank);
        let tokens = vec![
            token(SyntaxKind::Slash, "/", 0, 1),
            token(SyntaxKind::Text, &inner, 1, 8),
            token(SyntaxKind::Slash, "/", 8, 9),
            token(SyntaxKind::Eof, "", 9, 9),
        ];
        let nodes = Parser::new(tokens).parse();
        assert_eq!(nodes.len(), 1);
        assert_eq!(nodes[0].kind(), SyntaxKind::Error);
        assert_eq!(nodes[0].errors(), Some("trailing whitespace".to_string()));
        assert_eq!(nodes[0].text(), format!("/{}/", inner));
        assert_eq!(nodes[0].span(), Span { start: 0, end: 9 });
    }
}

#[test]
fn a_delimiter_pairs_only_with_its_own_kind() {
    let nodes = parse("/a_ _b/");
    assert!(nodes.iter().all(|n| n.kind() != SyntaxKind::Italic));
    assert!(nodes.iter().all(|n| n.kind() != SyntaxKind::UnderLined));
    assert_eq!(
        nodes.iter().filter_map(|n| n.errors()).collect::<Vec<_>>(),
        vec![
            "incomplete italic text".to_string(),
            "incomplete underlined text".to_string(),
            "incomplete underlined text".to_string(),
            "incomplete italic text".to_string(),
        ]
    );
    assert_eq!(rebuilt(&nodes), "/a_ _b/");
}

#[test]
fn pairs_do_not_nest() {
    let nodes = parse("x /a/b/");
    assert_eq!(
        shape(&nodes),
        vec![
            entry(SyntaxKind::Text, "x", 0, 1),
            entry(SyntaxKind::WhiteSpace, " ", 1, 2),
            entry(SyntaxKind::Italic, "a", 2, 5),
            entry(SyntaxKind::Text, "b", 5, 6),
            entry(SyntaxKind::Error, "/", 6, 7),
        ]
    );
}

#[test]
fn each_unterminated_pair_names_its_construct() {
    let cases = [
        ("x *a", "incomplete bold text"),
        ("x /a", "incomplete italic text"),
        ("x _a", "incomplete underlined text"),
        ("x ~a", "incomplete list text"),
        ("x -a", "incomplete strikethrough text"),
    ];
    for (input, message) in cases {
        let nodes = parse(input);
        assert_eq!(nodes.len(), 3);
        assert_eq!(nodes[2].kind(), SyntaxKind::Error);
        assert_eq!(nodes[2].errors(), Some(message.to_string()));
        assert_eq!(nodes[2].text(), &input[2..]);
        assert_eq!(rebuilt(&nodes), input);
    }
}

#[test]
fn error_nodes_resolve_with_message_and_hint() {
    let nodes = parse("x /a");
    let tree = nodes[2].resolve();
    assert_eq!(tree.kind(), SyntaxKind::Error);
    assert_eq!(tree.text(), "/a");
    assert_eq!(tree.span(), Span { start: 2, end: 4 });
    let mut expected = neorg_syntax::node::SyntaxError::new(EcoString::from("incomplete italic text"));
    expected.span = Span { start: 2, end: 4 };
    expected.hints.push(EcoString::from("text must be wrapped in slash pairs like /text/"));
    assert_eq!(tree, neorg_syntax::node::SyntaxNode::error(expected, EcoString::from("/a")));
}

#[test]
fn a_pair_resolves_into_delimiters_around_its_text() {
    let nodes = parse("x _und_");
    let tree = nodes[2].resolve();
    assert_eq!(tree.kind(), SyntaxKind::UnderLined);
    assert_eq!(tree.text(), "");
    assert_eq!(tree.span(), Span { start: 2, end: 7 });
    let children: Vec<(SyntaxKind, String, Span)> = tree
        .children()
        .iter()
        .map(|c| (c.kind(), c.text().to_string(), c.span()))
        .collect();
    assert_eq!(
        children,
        vec![
            entry(SyntaxKind::Underscore, "_", 2, 3),
            entry(SyntaxKind::Text, "und", 3, 6),
            entry(SyntaxKind::Underscore, "_", 6, 7),
        ]
    );
    assert_eq!(tree.into_text(), "_und_");
}

#[test]
fn an_asterisk_that_opens_a_line_makes_a_heading() {
    let input = "* Title here\n** Deeper\nend";
    let nodes = parse(input);
    assert_eq!(
        shape(&nodes),
        vec![
            entry(SyntaxKind::Heading, "* Title here", 0, 12),
            entry(SyntaxKind::NewLine, "\n", 12, 13),
            entry(SyntaxKind::Heading, "** Deeper", 13, 22),
            entry(SyntaxKind::NewLine, "\n", 22, 23),
            entry(SyntaxKind::Text, "end", 23, 26),
        ]
    );
    assert_eq!(nodes[0].level(), 1);
    assert_eq!(nodes[2].level(), 2);
    assert_eq!(nodes[4].level(), 0);
    assert_eq!(rebuilt(&nodes), input);
}

#[test]
fn a_heading_may_be_indented_and_may_end_the_input() {
    let nodes = parse("  *** Deep");
    assert_eq!(
        shape(&nodes),
        vec![
            entry(SyntaxKind::IndentWhiteSpace, "  ", 0, 2),
            entry(SyntaxKind::Heading, "*** Deep", 2, 10),
        ]
    );
    assert_eq!(nodes[1].level(), 3);
}

#[test]
fn every_asterisk_of_a_heading_adds_to_its_level() {
    let nodes = parse("* a * b");
    assert_eq!(shape(&nodes), vec![entry(SyntaxKind::Heading, "* a * b", 0, 7)]);
    assert_eq!(nodes[0].level(), 2);
}

#[test]
fn an_unexpected_token_breaks_a_heading_off() {
    let input = "* Title /it/ more\n";
    let nodes = parse(input);
    assert_eq!(
        shape(&nodes),
        vec![
            entry(SyntaxKind::Error, "* Title ", 0, 8),
            entry(SyntaxKind::Italic, "it", 8, 12),
            entry(SyntaxKind::WhiteSpace, " ", 12, 13),
            entry(SyntaxKind::Text, "more", 13, 17),
            entry(SyntaxKind::NewLine, "\n", 17, 18),
        ]
    );
    assert_eq!(nodes[0].errors(), Some("unexpected token in heading".to_string()));
    assert_eq!(rebuilt(&nodes), input);
}

#[test]
fn an_asterisk_inside_a_line_is_no_heading() {
    let nodes = parse("a *b* c\n*d* e");
    assert_eq!(nodes[2].kind(), SyntaxKind::Bold);
    assert_eq!(nodes[6].kind(), SyntaxKind::Heading);
    assert_eq!(nodes[6].text(), "*d* e");
    assert_eq!(nodes[6].level(), 2);
}

#[test]
fn other_tokens_pass_through_unchanged() {
    let input = " @ x\n";
    let nodes = parse(input);
    assert_eq!(
        shape(&nodes),
        vec![
            entry(SyntaxKind::IndentWhiteSpace, " ", 0, 1),
            entry(SyntaxKind::At, "@", 1, 2),
            entry(SyntaxKind::WhiteSpace, " ", 2, 3),
            entry(SyntaxKind::Text, "x", 3, 4),
            entry(SyntaxKind::NewLine, "\n", 4, 5),
        ]
    );
}

#[test]
fn the_closing_token_gets_no_node() {
    assert!(parse("").is_empty());
    let nodes = parse("a");
    assert_eq!(nodes.len(), 1);
    assert!(nodes.iter().all(|n| n.kind() != SyntaxKind::Eof));
    let mut parser = Parser::new(vec![
        token(SyntaxKind::Text, "a", 0, 1),
        token(SyntaxKind::Eof, "", 1, 1),
        token(SyntaxKind::Text, "b", 1, 2),
    ]);
    assert_eq!(parser.parse().len(), 1);
    assert_eq!(parser.current, 1);
}

#[test]
fn scan_steps_over_the_tokens_of_one_node() {
    let mut parser = Parser::new(lex("a /b/ c"));
    assert_eq!(*parser.scan().kind(), SyntaxKind::Text);
    assert_eq!((parser.start, parser.current), (0, 1));
    assert_eq!(*parser.scan().kind(), SyntaxKind::WhiteSpace);
    let italic = parser.scan();
    assert_eq!(*italic.kind(), SyntaxKind::Italic);
    assert_eq!(italic.type_is(), "SyntaxNode");
    assert_eq!((parser.start, parser.current), (2, 5));
    assert_eq!(parser.next().map(|t| t.kind), Some(SyntaxKind::WhiteSpace));
    assert_eq!(parser.current, 5);
}

#[test]
fn scan_behind_the_last_token_gives_an_end_node() {
    let mut parser = Parser::new(vec![token(SyntaxKind::Text, "a", 0, 1)]);
    parser.scan();
    let end = parser.scan();
    assert_eq!(end, Repr::SyntaxNode(SyntaxNode::new(SyntaxKind::Eof, EcoString::new(), Span::default())));
    assert_eq!(parser.current, 1);
    assert_eq!(parser.next(), None);
}

#[test]
fn parsing_reproduces_every_input() {
    for input in [
        "",
        "plain text",
        "This is *bold* text",
        "/italic text",
        "/italic /",
        "* Heading\n  ** Sub _x_\n- a - -b- ~c~ ~ d\n",
        "* broken @ heading\n",
        "caf\u{e9} /\u{1f331}/ _\u{4e16}\u{754c}",
        "//__**~~--@@",
        "\n\n\t\n",
    ] {
        assert_eq!(rebuilt(&parse(input)), input);
    }
}

#[test]
fn node_spans_tile_the_input() {
    let input = "* H\nx /a/ _b ~c~\n";
    let mut at = 0;
    for n in parse(input) {
        assert_eq!(n.span().start, at);
        assert_eq!(n.resolve().into_text(), &input[n.span().start..n.span().end]);
        at = n.span().end;
    }
    assert_eq!(at, input.len());
}

#[test]
fn the_same_text_at_another_offset_gives_the_same_nodes() {
    let text = "* Title\nsome /it/ and _broken\n";
    let alone = parse(text);
    for prefix in ["\n", "boilerplate\n", "a much longer run of lead\u{e9}n boilerplate\n\n"] {
        let input = format!("{}{}", prefix, text);
        let nodes = parse(&input);
        let skipped = parse(prefix).len();
        let moved = &nodes[skipped..];
        assert_eq!(moved.len(), alone.len());
        for (a, b) in alone.iter().zip(moved) {
            assert!(a.resolve().spanless_eq(&b.resolve()));
            assert_eq!(b.span().start, a.span().start + prefix.len());
            assert_eq!(b.span().end, a.span().end + prefix.len());
        }
        assert_ne!(alone[0].resolve(), moved[0].resolve());
    }
}

#[test]
fn nodes_are_written_with_kind_text_and_message() {
    let nodes = parse("a /b");
    assert_eq!(nodes[0].to_text(), "TEXT: \"a\" ");
    assert_eq!(nodes[2].to_text(), "ERROR: \"/b\" incomplete italic text");
    let syn = SyntaxNode::new(SyntaxKind::Text, EcoString::from("q\"t"), Span { start: 2, end: 5 });
    assert_eq!(syn.to_text(), "TEXT: \"q\\\"t\" [ span: 2..5 ]");
    let err = ErrorNode::new(SyntaxKind::Error, EcoString::from("/b"), None, None, Span { start: 0, end: 2 });
    assert_eq!(err.to_text(), "/b");
    assert_eq!(Repr::ErrorNode(err).to_text(), "ERROR: \"/b\" ");
}

#[test]
fn an_open_construct_names_where_it_starts() {
    let leaf = LeafNode::new(EcoString::from("x"), Span { start: 17, end: 18 }, None, None);
    assert_eq!(Expr::Bold(leaf.clone()).errors(), vec!["Unclosed delimeter 17".to_string()]);
    assert_eq!(Expr::Italics(leaf.clone()).errors(), vec!["Unclosed delimeter 17".to_string()]);
    assert_eq!(Expr::Error(leaf).errors(), vec!["Unclosed delimeter 17".to_string()]);
}
