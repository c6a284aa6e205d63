use neorg_syntax::error::NeoError;
use neorg_syntax::span::{Position, Range, Span, SpanOps};

fn range(sl: u32, sc: u32, el: u32, ec: u32) -> Range {
    Range {
        start: Position { line: sl, character: sc },
        end: Position { line: el, character: ec },
    }
}

#[test]
fn try_into_lsp_range_test_zero_based_01() {
    let input = "this is a string";
    let span = Span::new(0, input.len());
    assert_eq!(
        span.into_zero_based_lsp_range(input).unwrap(),
        Range {
            start: Position { line: 0, character: 0 },
            end: Position { line: 0, character: 16 }
        }
    )
}

#[test]
fn try_into_lsp_range_test_zero_based_02() {
    let input = "this is a string \n and a newline";
    let span = Span::new(0, input.len());
    assert_eq!(
        span.into_zero_based_lsp_range(input).unwrap(),
        Range {
            start: Position { line: 0, character: 0 },
            end: Position { line: 1, character: 14 }
        }
    )
}

#[test]
fn into_lsp_range_test_01() {
    let input = "this is a string";
    let span = Span::new(0, input.len());
    assert_eq!(
        span.into_lsp_range(input).unwrap(),
        Range {
            start: Position { line: 1, character: 1 },
            end: Position { line: 1, character: 16 }
        }
    )
}

#[test]
fn into_lsp_range_test_02() {
    let input = "this is a string \n and a newline";
    let span = Span::new(0, input.len());
    assert_eq!(
        span.into_lsp_range(input).unwrap(),
        Range {
            start: Position { line: 1, character: 1 },
            end: Position { line: 2, character: 14 }
        }
    )
}

#[test]
fn span_new_keeps_both_ends() {
    let span = Span::new(3, 9);
    assert_eq!(span.start, 3);
    assert_eq!(span.end, 9);
    let empty = Span::new(4, 4);
    assert_eq!(empty, Span { start: 4, end: 4 });
}

#[test]
fn default_span_is_the_unset_span() {
    assert_eq!(Span::default(), Span { start: 1, end: 1 });
    assert_ne!(Span::default(), Span { start: 0, end: 0 });
}

#[test]
fn span_of_a_str_covers_its_bytes() {
    assert_eq!("hello".span(), Span { start: 0, end: 5 });
    assert_eq!("".span(), Span { start: 0, end: 0 });
    assert_eq!("h\u{e9}llo \u{1f331}".span(), Span { start: 0, end: 11 });
}

#[test]
fn zero_based_range_fails_behind_the_end() {
    let input = "short";
    assert_eq!(
        Span::new(0, 6).into_zero_based_lsp_range(input),
        Err(NeoError::UnexpectedEOF)
    );
    assert_eq!(
        Span { start: 9, end: 2 }.into_zero_based_lsp_range(input),
        Err(NeoError::UnexpectedEOF)
    );
    assert_eq!(
        Span::new(6, 7).into_lsp_range(input),
        Err(NeoError::UnexpectedEOF)
    );
    assert_eq!(
        Span::new(5, 5).into_zero_based_lsp_range(input),
        Ok(range(0, 5, 0, 5))
    );
    assert_eq!(
        Span::new(0, 0).into_zero_based_lsp_range(""),
        Ok(range(0, 0, 0, 0))
    );
}

#[test]
fn zero_based_range_counts_characters_not_bytes() {
    // 'é' takes two bytes, '🌱' four.
    let input = "h\u{e9}llo \u{1f331}!";
    assert_eq!(input.len(), 12);
    assert_eq!(
        Span::new(0, input.len()).into_zero_based_lsp_range(input),
        Ok(range(0, 0, 0, 8))
    );
    assert_eq!(
        Span::new(3, 11).into_zero_based_lsp_range(input),
        Ok(range(0, 2, 0, 7))
    );
}

#[test]
fn zero_based_range_on_the_second_line_with_wide_characters() {
    // The line feed is at byte 5; "né" behind it takes three bytes.
    let input = "\u{e9}t\u{e9}\nn\u{e9}e";
    let k = 5;
    assert_eq!(input.as_bytes()[k], b'\n');
    assert_eq!(
        Span::new(0, k + 1 + 3).into_zero_based_lsp_range(input),
        Ok(range(0, 0, 1, 2))
    );
    assert_eq!(
        Span::new(k, k + 1).into_zero_based_lsp_range(input),
        Ok(range(0, 3, 1, 0))
    );
}

#[test]
fn an_offset_inside_a_character_lies_in_that_character() {
    let input = "a\u{1f331}b";
    assert_eq!(
        Span::new(2, 4).into_zero_based_lsp_range(input),
        Ok(range(0, 1, 0, 1))
    );
    assert_eq!(
        Span::new(1, 5).into_zero_based_lsp_range(input),
        Ok(range(0, 1, 0, 2))
    );
}

#[test]
fn carriage_return_and_line_feed_end_one_line() {
    let input = "a\r\nb";
    assert_eq!(
        Span::new(1, 2).into_zero_based_lsp_range(input),
        Ok(range(0, 1, 0, 2))
    );
    assert_eq!(
        Span::new(3, 4).into_zero_based_lsp_range(input),
        Ok(range(1, 0, 1, 1))
    );
    let lone = "a\rb\r\r\nc";
    assert_eq!(
        Span::new(2, 4).into_zero_based_lsp_range(lone),
        Ok(range(1, 0, 2, 0))
    );
    assert_eq!(
        Span::new(5, 6).into_zero_based_lsp_range(lone),
        Ok(range(2, 1, 3, 0))
    );
}

#[test]
fn every_line_break_of_unicode_ends_a_line() {
    let input = "a\u{b}b\u{c}c\u{85}d\u{2028}e\u{2029}f";
    // a VT b FF c NEL(2) d LS(3) e PS(3) f
    assert_eq!(input.len(), 16);
    assert_eq!(
        Span::new(2, 4).into_zero_based_lsp_range(input),
        Ok(range(1, 0, 2, 0))
    );
    assert_eq!(
        Span::new(5, 7).into_zero_based_lsp_range(input),
        Ok(range(2, 1, 3, 0))
    );
    assert_eq!(
        Span::new(8, 11).into_zero_based_lsp_range(input),
        Ok(range(3, 1, 4, 0))
    );
    assert_eq!(
        Span::new(12, 16).into_zero_based_lsp_range(input),
        Ok(range(4, 1, 5, 1))
    );
}

#[test]
fn one_based_range_names_first_and_last_character() {
    let input = "ab\ncd";
    assert_eq!(Span::new(3, 5).into_lsp_range(input), Ok(range(2, 1, 2, 2)));
    assert_eq!(Span::new(0, 0).into_lsp_range(input), Ok(range(1, 1, 1, 0)));
}

#[test]
fn char_position_counts_from_one() {
    let input = "h\u{e9}llo w\u{f6}rld";
    assert_eq!(Span::new(0, 6).char_position(input), (1, 5));
    assert_eq!(Span::new(7, 13).char_position(input), (7, 5));
    assert_eq!(Span::new(3, 3).char_position(input), (3, 0));
    assert_eq!(Span { start: 6, end: 2 }.char_position(input), (6, 0));
    assert_eq!(Span::new(0, 99).char_position(input), (1, 11));
}

#[test]
fn to_char_offset_gives_the_extent_in_characters() {
    let input = "h\u{e9}llo w\u{f6}rld";
    assert_eq!(Span::new(0, 6).to_char_offset(input), Span { start: 0, end: 5 });
    assert_eq!(Span::new(7, 13).to_char_offset(input), Span { start: 0, end: 5 });
    assert_eq!(Span { start: 6, end: 2 }.to_char_offset(input), Span { start: 0, end: 0 });
}

#[test]
fn span_is_written_with_both_ends() {
    assert_eq!(Span::new(0, 16).to_text(), "[ span: 0..16 ]");
    assert_eq!(Span::new(120, 4005).to_text(), "[ span: 120..4005 ]");
    assert_eq!(format!("{:?}", Span::new(1, 2)), "Span { start: 1, end: 2 }");
}

fn plain_position(text: &str, b: usize) -> Position {
    let chars: Vec<char> = text.chars().collect();
    let ends_line = |i: usize| {
        let c = chars[i];
        let breaks = matches!(c, '\n' | '\u{b}' | '\u{c}' | '\r' | '\u{85}' | '\u{2028}' | '\u{2029}');
        breaks && !(c == '\r' && i + 1 < chars.len() && chars[i + 1] == '\n')
    };
    let mut at = chars.len();
    let mut bytes = 0;
    for (i, c) in chars.iter().enumerate() {
        if b < bytes + c.len_utf8() {
            at = i;
            break;
        }
        bytes += c.len_utf8();
    }
    let line = (0..at).filter(|i| ends_line(*i)).count();
    let mut first = 0;
    while first < chars.len() && (0..first).filter(|i| ends_line(*i)).count() < line {
        first += 1;
    }
    Position { line: line as u32, character: (at - first) as u32 }
}

#[test]
fn positions_agree_with_a_plain_count_at_every_offset() {
    let line = "h\u{e9}llo w\u{f6}rld\r\nline two\u{2028}x\ry\u{85}z\n\n\u{1f331} end\u{b}\u{c}";
    let long: String = std::iter::repeat(line).take(9).collect();
    for text in ["", "a", "\n", "\r\n", "\r", "a\r", line, long.as_str()] {
        for start in 0..=text.len() {
            let end = text.len() - (start % 3).min(text.len() - start);
            let end = end.max(start);
            assert_eq!(
                Span::new(start, end).into_zero_based_lsp_range(text),
                Ok(Range { start: plain_position(text, start), end: plain_position(text, end) })
            );
        }
    }
}
