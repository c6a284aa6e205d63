use neorg_syntax::error::NeoError;
use neorg_syntax::kind::SyntaxKind;
use neorg_syntax::text::{byte_len, decimal, labelled};
use neorg_syntax::NeoChar;

#[test]
fn only_the_left_curly_brace_groups() {
    assert!(SyntaxKind::LeftCurlyBraces.is_grouping());
    assert!(!SyntaxKind::RightCurlyBraces.is_grouping());
    assert!(!SyntaxKind::Text.is_grouping());
}

#[test]
fn only_the_error_kind_is_an_error() {
    assert!(SyntaxKind::Error.is_error());
    assert!(!SyntaxKind::Eof.is_error());
    assert!(!SyntaxKind::Bold.is_error());
}

#[test]
fn kinds_are_written_in_upper_case() {
    assert_eq!(SyntaxKind::Slash.name(), "SLASH");
    assert_eq!(SyntaxKind::WhiteSpace.name(), "WHITESPACE");
    assert_eq!(SyntaxKind::NewLine.name(), "NEWLINE");
    assert_eq!(SyntaxKind::Text.name(), "TEXT");
    assert_eq!(SyntaxKind::Eof.name(), "EOF");
    assert_eq!(SyntaxKind::Astrisk.name(), "ASTRISK");
    assert_eq!(SyntaxKind::Underscore.name(), "UNDERSCORE");
    assert_eq!(SyntaxKind::Tilda.name(), "TILDA");
    assert_eq!(SyntaxKind::Hyphen.name(), "HYPHEN");
    assert_eq!(SyntaxKind::At.name(), "AT");
    assert_eq!(SyntaxKind::Error.name(), "ERROR");
    assert_eq!(SyntaxKind::Root.name(), "ROOT");
    assert_eq!(SyntaxKind::IndentWhiteSpace.name(), "INDENTWHITESPACE");
    assert_eq!(SyntaxKind::Heading.name(), "HEADING");
    assert_eq!(SyntaxKind::Bold.name(), "BOLD");
    assert_eq!(SyntaxKind::Italic.name(), "ITALIC");
    assert_eq!(SyntaxKind::UnderLined.name(), "UNDERLINED");
    assert_eq!(SyntaxKind::StrikeThrough.name(), "STRIKETHROUGH");
    assert_eq!(SyntaxKind::ListItem.name(), "LISTITEM");
    assert_eq!(SyntaxKind::LeftParen.name(), "LEFTPAREN");
}

#[test]
fn special_characters_end_a_run_of_text() {
    for c in ['*', '@', '-', '~', '/', '_', '\n', ' ', '\t'] {
        assert!(c.is_special_char());
    }
    for c in ['a', 'Z', '0', '.', '\r', '\u{e9}', '\u{1f331}', '#', '['] {
        assert!(!c.is_special_char());
    }
}

#[test]
fn numbers_are_written_in_decimal() {
    assert_eq!(decimal(0), "0");
    assert_eq!(decimal(7), "7");
    assert_eq!(decimal(10), "10");
    assert_eq!(decimal(409), "409");
    assert_eq!(decimal(1234567890), "1234567890");
    assert_eq!(decimal(usize::MAX), usize::MAX.to_string());
}

#[test]
fn byte_len_counts_bytes() {
    assert_eq!(byte_len(""), 0);
    assert_eq!(byte_len("abc"), 3);
    assert_eq!(byte_len("\u{e9}\u{1f331}"), 6);
}

#[test]
fn labelled_lines_are_put_together_with_spaces() {
    assert_eq!(labelled("TEXT", "\"a\"", "[ span: 0..1 ]"), "TEXT: \"a\" [ span: 0..1 ]");
    assert_eq!(labelled("EOF", "\"\"", ""), "EOF: \"\" ");
}

#[test]
fn errors_are_written_as_sentences() {
    assert_eq!(NeoError::UnexpectedEOF.to_text(), "Unexpected end of input");
    let e = NeoError::ParseError { pos: 42, message: "no closing slash".to_string() };
    assert_eq!(e.to_text(), "Parsing error at position 42: no closing slash");
}
