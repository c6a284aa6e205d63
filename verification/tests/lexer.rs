use neorg_syntax::kind::SyntaxKind;
use neorg_syntax::lex;
use neorg_syntax::lexer::{Lexer, Token};
use neorg_syntax::span::Span;
use ropey::Rope;

fn token(kind: SyntaxKind, text: &str, start: usize, end: usize) -> Token {
    Token { kind, text: text.to_string(), span: Span { start, end } }
}

fn kinds(tokens: &[Token]) -> Vec<SyntaxKind> {
    tokens.iter().map(|t| t.kind).collect()
}

fn spelled(tokens: &[Token]) -> String {
    tokens.iter().map(|t| t.text.as_str()).collect()
}

#[test]
fn empty_input_gives_the_closing_token_alone() {
    assert_eq!(lex(""), vec![token(SyntaxKind::Eof, "", 0, 0)]);
}

#[test]
fn each_delimiter_is_a_token_of_its_own() {
    assert_eq!(
        lex("*@-~/_"),
        vec![
            token(SyntaxKind::Astrisk, "*", 0, 1),
            token(SyntaxKind::At, "@", 1, 2),
            token(SyntaxKind::Hyphen, "-", 2, 3),
            token(SyntaxKind::Tilda, "~", 3, 4),
            token(SyntaxKind::Slash, "/", 4, 5),
            token(SyntaxKind::Underscore, "_", 5, 6),
            token(SyntaxKind::Eof, "", 6, 6),
        ]
    );
}

#[test]
fn text_runs_stop_at_spaces_and_delimiters() {
    assert_eq!(
        lex("This is *bold* text"),
        vec![
            token(SyntaxKind::Text, "This", 0, 4),
            token(SyntaxKind::WhiteSpace, " ", 4, 5),
            token(SyntaxKind::Text, "is", 5, 7),
            token(SyntaxKind::WhiteSpace, " ", 7, 8),
            token(SyntaxKind::Astrisk, "*", 8, 9),
            token(SyntaxKind::Text, "bold", 9, 13),
            token(SyntaxKind::Astrisk, "*", 13, 14),
            token(SyntaxKind::WhiteSpace, " ", 14, 15),
            token(SyntaxKind::Text, "text", 15, 19),
            token(SyntaxKind::Eof, "", 19, 19),
        ]
    );
}

#[test]
fn blank_runs_are_indentation_only_where_a_line_opens() {
    assert_eq!(
        lex("  a \t b\n\t c\n\nd "),
        vec![
            token(SyntaxKind::IndentWhiteSpace, "  ", 0, 2),
            token(SyntaxKind::Text, "a", 2, 3),
            token(SyntaxKind::WhiteSpace, " \t ", 3, 6),
            token(SyntaxKind::Text, "b", 6, 7),
            token(SyntaxKind::NewLine, "\n", 7, 8),
            token(SyntaxKind::IndentWhiteSpace, "\t ", 8, 10),
            token(SyntaxKind::Text, "c", 10, 11),
            token(SyntaxKind::NewLine, "\n", 11, 12),
            token(SyntaxKind::NewLine, "\n", 12, 13),
            token(SyntaxKind::Text, "d", 13, 14),
            token(SyntaxKind::WhiteSpace, " ", 14, 15),
            token(SyntaxKind::Eof, "", 15, 15),
        ]
    );
}

#[test]
fn spans_count_bytes_of_wide_characters() {
    assert_eq!(
        lex("h\u{e9} \u{1f331}\u{1f331}/\u{4e16}\u{754c}"),
        vec![
            token(SyntaxKind::Text, "h\u{e9}", 0, 3),
            token(SyntaxKind::WhiteSpace, " ", 3, 4),
            token(SyntaxKind::Text, "\u{1f331}\u{1f331}", 4, 12),
            token(SyntaxKind::Slash, "/", 12, 13),
            token(SyntaxKind::Text, "\u{4e16}\u{754c}", 13, 19),
            token(SyntaxKind::Eof, "", 19, 19),
        ]
    );
}

#[test]
fn scan_gives_one_token_at_a_time_and_stays_at_the_end() {
    let mut lexer = Lexer::new(Rope::from_str("a b"));
    assert_eq!(lexer.scan(), token(SyntaxKind::Text, "a", 0, 1));
    assert_eq!(lexer.scan(), token(SyntaxKind::WhiteSpace, " ", 1, 2));
    assert_eq!(lexer.scan(), token(SyntaxKind::Text, "b", 2, 3));
    assert_eq!(lexer.scan(), token(SyntaxKind::Eof, "", 3, 3));
    assert_eq!(lexer.scan(), token(SyntaxKind::Eof, "", 3, 3));
}

#[test]
fn scan_tells_indentation_by_itself() {
    let mut lexer = Lexer::new(Rope::from_str(" a\n b"));
    assert_eq!(lexer.scan().kind, SyntaxKind::IndentWhiteSpace);
    assert_eq!(lexer.scan().kind, SyntaxKind::Text);
    assert_eq!(lexer.scan().kind, SyntaxKind::NewLine);
    assert_eq!(lexer.scan().kind, SyntaxKind::IndentWhiteSpace);
    assert_eq!(lexer.scan().kind, SyntaxKind::Text);
    assert_eq!(lexer.scan().kind, SyntaxKind::Eof);
}

#[test]
fn lex_goes_on_from_where_scan_stopped() {
    let mut lexer = Lexer::new(Rope::from_str("a/b"));
    assert_eq!(lexer.scan(), token(SyntaxKind::Text, "a", 0, 1));
    assert_eq!(
        lexer.lex(),
        vec![
            token(SyntaxKind::Slash, "/", 1, 2),
            token(SyntaxKind::Text, "b", 2, 3),
            token(SyntaxKind::Eof, "", 3, 3),
        ]
    );
    assert_eq!(lexer.lex(), vec![token(SyntaxKind::Eof, "", 3, 3)]);
}

#[test]
fn exactly_the_last_token_closes_the_stream() {
    for input in ["", "a", " \n", "*bold*\n- x -", "\u{e9}~\u{e9}"] {
        let tokens = lex(input);
        let (last, others) = tokens.split_last().unwrap();
        assert_eq!(last.kind, SyntaxKind::Eof);
        assert!(others.iter().all(|t| t.kind != SyntaxKind::Eof));
    }
}

#[test]
fn token_texts_spell_the_input() {
    for input in [
        "",
        "plain",
        "This is *bold* text",
        "  indented\n\t/it/ and _un_ ~li~ -st- @\n\n",
        "h\u{e9}llo \u{1f331} w\u{f6}rld\r\n",
    ] {
        assert_eq!(spelled(&lex(input)), input);
    }
}

#[test]
fn token_spans_tile_the_input() {
    let input = "* Title\n  /it\u{e9}/ x";
    let tokens = lex(input);
    let mut at = 0;
    for t in &tokens {
        assert_eq!(t.span.start, at);
        assert_eq!(&input[t.span.start..t.span.end], t.text);
        at = t.span.end;
    }
    assert_eq!(at, input.len());
}

#[test]
fn lexing_again_gives_the_same_kinds() {
    for input in ["", "a b", "*x*\n /y/ _z \t~", "\u{e9}-\u{e9} -"] {
        let first = lex(input);
        let again = lex(&spelled(&first));
        assert_eq!(kinds(&again), kinds(&first));
        assert_eq!(again, first);
    }
}

#[test]
fn a_cloned_token_equals_the_token_cloned() {
    let t = token(SyntaxKind::Text, "w\u{f6}rd", 3, 8);
    assert_eq!(t.clone(), t);
}

#[test]
fn tokens_are_written_with_kind_text_and_span() {
    assert_eq!(token(SyntaxKind::Text, "a\"b", 0, 3).to_text(), "TEXT \"a\\\"b\" [ span: 0..3 ]");
    assert_eq!(token(SyntaxKind::NewLine, "\n", 4, 5).to_text(), "NEWLINE \"\\n\" [ span: 4..5 ]");
}

#[test]
fn a_long_document_is_cut_without_loss() {
    let line = "* Title \u{4e16}\u{754c}\n  some /it/ and _broken ~x~ -y- @ caf\u{e9}\t\u{1f331}\n\n";
    let input: String = std::iter::repeat(line).take(200).collect();
    let tokens = lex(&input);
    assert_eq!(spelled(&tokens), input);
    let mut at = 0;
    for t in &tokens {
        assert_eq!(t.span.start, at);
        assert_eq!(&input[t.span.start..t.span.end], t.text);
        at = t.span.end;
    }
    assert_eq!(at, input.len());
    assert_eq!(tokens.iter().filter(|t| t.kind == SyntaxKind::NewLine).count(), 600);
    assert_eq!(tokens.iter().filter(|t| t.kind == SyntaxKind::IndentWhiteSpace).count(), 200);
}
