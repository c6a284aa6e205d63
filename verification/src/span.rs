//! Byte ranges of the source text, and where they lie for an editor: in
//! characters, lines and columns.

use vstd::prelude::*;
use vstd::string::StringExecFns;
use ropey::str_utils::{byte_to_char_idx, byte_to_line_idx, line_to_char_idx};
use crate::error::NeoError;
use crate::text::{
    byte_len, byte_offset, decimal, decimal_chars, lemma_utf8_len_concat, utf8_len, utf8_width,
};

verus! {

/// Half-open range `[start, end)` of byte offsets into the source text.
#[derive(PartialEq, Eq, Clone, Copy, Hash, Debug, Structural)]
pub struct Span {
    /// Offset of the first byte.
    pub start: usize,
    /// Offset just behind the last byte.
    pub end: usize,
}

impl Default for Span {
    /// The unset span, `1..1`: no scan ever gives it, and it is not the
    /// empty span at the start of the text.
    fn default() -> (s: Span)
        ensures
            s == (Span { start: 1, end: 1 }),
    {
        Span { start: 1, end: 1 }
    }
}

/// A point of a text document: a line and a character offset within it.
#[derive(PartialEq, Eq, Clone, Copy, Hash, Debug, Structural)]
pub struct Position {
    pub line: u32,
    pub character: u32,
}

/// The stretch of a text document between two positions.
#[derive(PartialEq, Eq, Clone, Copy, Hash, Debug, Structural)]
pub struct Range {
    pub start: Position,
    pub end: Position,
}

/// Values that cover a stretch of bytes.
pub trait SpanOps {
    /// Number of bytes covered.
    spec fn extent(&self) -> nat;

    /// The span from the first byte to the last.
    fn span(&self) -> (s: Span)
        ensures
            s.start == 0,
            s.end == self.extent(),
    ;
}

impl SpanOps for str {
    open spec fn extent(&self) -> nat {
        utf8_len(self@)
    }

    fn span(&self) -> (s: Span) {
        Span { start: 0, end: byte_len(self) }
    }
}

/// Index of the character that holds the byte at offset `b`; the number of
/// characters when `b` lies at or behind the end.
pub open spec fn char_at_byte(chars: Seq<char>, b: int) -> nat
    decreases chars.len(),
{
    if chars.len() == 0 || b < utf8_width(chars[0]) {
        0
    } else {
        1 + char_at_byte(chars.drop_first(), b - utf8_width(chars[0]))
    }
}

/// The characters that break a line.
pub open spec fn is_line_break(c: char) -> bool {
    c == '\n' || c == '\u{0B}' || c == '\u{0C}' || c == '\r' || c == '\u{85}' || c == '\u{2028}'
        || c == '\u{2029}'
}

/// Whether a line ends with the character of index `i`. A carriage return
/// directly before a line feed does not end the line: the line feed does.
pub open spec fn ends_line(chars: Seq<char>, i: int) -> bool {
    is_line_break(chars[i]) && !(chars[i] == '\r' && i + 1 < chars.len() && chars[i + 1] == '\n')
}

/// Number of lines that end among the first `ci` characters.
pub open spec fn lines_before(chars: Seq<char>, ci: int) -> nat
    decreases ci,
{
    if ci <= 0 {
        0
    } else {
        lines_before(chars, ci - 1) + if ends_line(chars, ci - 1) {
            1nat
        } else {
            0nat
        }
    }
}

/// First index at or behind `ci` before which `line` lines have ended; the
/// number of characters when there is none.
pub open spec fn line_start_from(chars: Seq<char>, line: nat, ci: int) -> int
    decreases chars.len() - ci,
{
    if ci >= chars.len() || lines_before(chars, ci) >= line {
        ci
    } else {
        line_start_from(chars, line, ci + 1)
    }
}

/// Index of the first character of the line numbered `line`, counted from
/// zero; the number of characters when the text has fewer lines.
pub open spec fn line_start(chars: Seq<char>, line: nat) -> int {
    line_start_from(chars, line, 0)
}

/// Line of the byte at offset `b`, counted from zero.
pub open spec fn line_of(chars: Seq<char>, b: int) -> nat {
    lines_before(chars, char_at_byte(chars, b) as int)
}

/// `byte_to_char_idx` gives the index of the character that holds the byte,
/// and the number of characters for an offset at or behind the end.
pub assume_specification[ byte_to_char_idx ](text: &str, byte_idx: usize) -> (r: usize)
    ensures
        r == char_at_byte(text@, byte_idx as int),
;

/// `byte_to_line_idx` counts the line breaks that lie wholly before the
/// character that holds the byte, a carriage return with its line feed
/// counting once.
pub assume_specification[ byte_to_line_idx ](text: &str, byte_idx: usize) -> (r: usize)
    ensures
        r == line_of(text@, byte_idx as int),
;

/// `line_to_char_idx` gives the index of the first character of a line, and
/// the number of characters for a line that the text does not have.
pub assume_specification[ line_to_char_idx ](text: &str, line_idx: usize) -> (r: usize)
    ensures
        r == line_start(text@, line_idx as nat),
;

/// Where the byte at offset `b` lies for an editor that counts lines and
/// characters from zero. Each number is cut to 32 bits.
pub open spec fn position_of(chars: Seq<char>, b: int) -> Position {
    let line = line_of(chars, b);
    let first = line_start(chars, line) as u32;
    let at = char_at_byte(chars, b) as u32;
    Position {
        line: line as u32,
        character: if at >= first {
            (at - first) as u32
        } else {
            0
        },
    }
}

/// One more than `n`, cut to 32 bits.
pub open spec fn succ32(n: u32) -> u32 {
    if n == u32::MAX {
        0
    } else {
        (n + 1) as u32
    }
}

fn succ(n: u32) -> (r: u32)
    ensures
        r == succ32(n),
{
    if n == u32::MAX {
        0
    } else {
        n + 1
    }
}

/// A range counted from zero, as a reader writes it who counts from one:
/// the start names the first character covered, the end the last one.
pub open spec fn one_based(range: Range) -> Range {
    Range {
        start: Position {
            line: succ32(range.start.line),
            character: succ32(range.start.character),
        },
        end: Position { line: succ32(range.end.line), character: range.end.character },
    }
}

impl Span {
    /// A span is valid when it does not end before it starts.
    pub open spec fn is_valid(self) -> bool {
        self.start <= self.end
    }

    /// Whether the span lies within a text of `len` bytes.
    pub open spec fn within(self, len: nat) -> bool {
        self.start <= len && self.end <= len
    }

    /// The span from `start` up to `end`.
    pub fn new(start: usize, end: usize) -> (s: Span)
        requires
            start <= end,
        ensures
            s.start == start,
            s.end == end,
            s.is_valid(),
    {
        Span { start, end }
    }

    /// The extent of the span counted in characters, as a span that starts
    /// at zero.
    pub fn to_char_offset(&self, text: &str) -> (s: Span)
        ensures
            s.start == 0,
            s.end == if char_at_byte(text@, self.end as int) >= char_at_byte(
                text@,
                self.start as int,
            ) {
                char_at_byte(text@, self.end as int) - char_at_byte(text@, self.start as int)
            } else {
                0
            },
    {
        let s = byte_to_char_idx(text, self.start);
        let e = byte_to_char_idx(text, self.end);
        Span { start: 0, end: if e >= s { e - s } else { 0 } }
    }

    /// Where the span lies in characters, for a reader who counts from one:
    /// the number of the first character covered, and how many characters
    /// are covered.
    pub fn char_position(&self, text: &str) -> (r: (usize, usize))
        ensures
            r.0 == if char_at_byte(text@, self.start as int) < usize::MAX {
                char_at_byte(text@, self.start as int) + 1
            } else {
                usize::MAX as nat
            },
            r.1 == if char_at_byte(text@, self.end as int) >= char_at_byte(
                text@,
                self.start as int,
            ) {
                char_at_byte(text@, self.end as int) - char_at_byte(text@, self.start as int)
            } else {
                0
            },
    {
        let s = byte_to_char_idx(text, self.start);
        let e = byte_to_char_idx(text, self.end);
        (
            if s < usize::MAX {
                s + 1
            } else {
                s
            },
            if e >= s {
                e - s
            } else {
                0
            },
        )
    }

    /// The positions of the two ends of the span in `text`, for an editor
    /// that counts lines and characters from zero. It fails exactly when the
    /// span reaches behind the end of the text.
    pub fn into_zero_based_lsp_range(self, text: &str) -> (r: Result<Range, NeoError>)
        ensures
            !self.within(utf8_len(text@)) ==> r == Err::<Range, NeoError>(NeoError::UnexpectedEOF),
            self.within(utf8_len(text@)) ==> r == Ok::<Range, NeoError>(
                Range {
                    start: position_of(text@, self.start as int),
                    end: position_of(text@, self.end as int),
                },
            ),
    {
        let len = byte_len(text);
        if self.start > len || self.end > len {
            return Err(NeoError::UnexpectedEOF);
        }
        let line_start = byte_to_line_idx(text, self.start);
        let line_end = byte_to_line_idx(text, self.end);
        let char_start_offset = #[verifier::truncate] (byte_to_char_idx(text, self.start) as u32);
        let char_end_offset = #[verifier::truncate] (byte_to_char_idx(text, self.end) as u32);
        let line_start_first_idx = #[verifier::truncate] (line_to_char_idx(text, line_start) as u32);
        let line_end_first_idx = #[verifier::truncate] (line_to_char_idx(text, line_end) as u32);
        let start_diff = char_start_offset.saturating_sub(line_start_first_idx);
        let end_diff = char_end_offset.saturating_sub(line_end_first_idx);
        Ok(
            Range {
                start: Position { line: #[verifier::truncate] (line_start as u32), character: start_diff },
                end: Position { line: #[verifier::truncate] (line_end as u32), character: end_diff },
            },
        )
    }

    /// The positions of the two ends of the span in `text`, for a reader
    /// who counts lines and characters from one. It fails exactly when the
    /// span reaches behind the end of the text.
    pub fn into_lsp_range(self, text: &str) -> (r: Result<Range, NeoError>)
        ensures
            !self.within(utf8_len(text@)) ==> r == Err::<Range, NeoError>(NeoError::UnexpectedEOF),
            self.within(utf8_len(text@)) ==> r == Ok::<Range, NeoError>(
                one_based(
                    Range {
                        start: position_of(text@, self.start as int),
                        end: position_of(text@, self.end as int),
                    },
                ),
            ),
    {
        match self.into_zero_based_lsp_range(text) {
            Ok(range) => Ok(
                Range {
                    start: Position {
                        line: succ(range.start.line),
                        character: succ(range.start.character),
                    },
                    end: Position { line: succ(range.end.line), character: range.end.character },
                },
            ),
            Err(e) => Err(e),
        }
    }

    /// How the span is written: `[ span: start..end ]`.
    pub open spec fn rendered(self) -> Seq<char> {
        "[ span: "@ + decimal_chars(self.start as nat) + ".."@ + decimal_chars(self.end as nat)
            + " ]"@
    }

    /// Writes the span.
    pub fn to_text(&self) -> (s: String)
        ensures
            s@ == self.rendered(),
    {
        let mut s = String::from_str("[ span: ");
        let start = decimal(self.start);
        s.append(start.as_str());
        s.append("..");
        let end = decimal(self.end);
        s.append(end.as_str());
        s.append(" ]");
        s
    }
}

/// The character of index `ci` starts at a byte that lies in that
/// character; the byte behind the last character lies in none.
pub proof fn lemma_char_at_offset(chars: Seq<char>, ci: int)
    requires
        0 <= ci <= chars.len(),
    ensures
        char_at_byte(chars, byte_offset(chars, ci) as int) == ci,
    decreases chars.len(),
{
    if ci == 0 {
        assert(chars.take(0) =~= Seq::<char>::empty());
    } else {
        let rest = chars.drop_first();
        assert(chars.take(ci).drop_first() =~= rest.take(ci - 1));
        lemma_char_at_offset(rest, ci - 1);
    }
}

/// No line ends in a text without line breaks.
pub proof fn lemma_no_breaks(chars: Seq<char>, ci: int)
    requires
        0 <= ci <= chars.len(),
        forall|k: int| 0 <= k < ci ==> !is_line_break(#[trigger] chars[k]),
    ensures
        lines_before(chars, ci) == 0,
    decreases ci,
{
    if ci > 0 {
        lemma_no_breaks(chars, ci - 1);
    }
}

/// In a text of one line, the start of the text is at line zero, character
/// zero, and its end at line zero behind its last character.
pub proof fn lemma_single_line(chars: Seq<char>)
    requires
        forall|k: int| 0 <= k < chars.len() ==> !is_line_break(#[trigger] chars[k]),
        chars.len() <= u32::MAX,
    ensures
        position_of(chars, 0) == (Position { line: 0, character: 0 }),
        position_of(chars, utf8_len(chars) as int) == (Position {
            line: 0,
            character: chars.len() as u32,
        }),
{
    assert(chars.take(chars.len() as int) =~= chars);
    lemma_char_at_offset(chars, chars.len() as int);
    lemma_no_breaks(chars, chars.len() as int);
    lemma_no_breaks(chars, 0);
}

/// A text of one line in which every character takes one byte: the end of
/// the text is at the character numbered by the length in bytes.
pub proof fn lemma_single_line_ascii(chars: Seq<char>)
    requires
        forall|k: int| 0 <= k < chars.len() ==> !is_line_break(#[trigger] chars[k]),
        forall|k: int| 0 <= k < chars.len() ==> utf8_width(#[trigger] chars[k]) == 1,
        chars.len() <= u32::MAX,
    ensures
        position_of(chars, utf8_len(chars) as int) == (Position {
            line: 0,
            character: utf8_len(chars) as u32,
        }),
{
    lemma_single_line(chars);
    lemma_ascii_len(chars);
}

/// A text in which every character takes one byte is as long in bytes as
/// in characters.
pub proof fn lemma_ascii_len(chars: Seq<char>)
    requires
        forall|k: int| 0 <= k < chars.len() ==> utf8_width(#[trigger] chars[k]) == 1,
    ensures
        utf8_len(chars) == chars.len(),
    decreases chars.len(),
{
    if chars.len() > 0 {
        assert forall|k: int| 0 <= k < chars.drop_first().len() implies utf8_width(
            #[trigger] chars.drop_first()[k],
        ) == 1 by {
            assert(chars.drop_first()[k] == chars[k + 1]);
        }
        lemma_ascii_len(chars.drop_first());
    }
}

/// In a text of two lines, split by a line feed, the character of index `j`
/// of the second line lies at line one, character `j`, however many bytes
/// the characters before it take.
pub proof fn lemma_second_line(first: Seq<char>, second: Seq<char>, j: int)
    requires
        forall|k: int| 0 <= k < first.len() ==> !is_line_break(#[trigger] first[k]),
        forall|k: int| 0 <= k < second.len() ==> !is_line_break(#[trigger] second[k]),
        0 <= j <= second.len(),
        first.len() + 1 + second.len() <= u32::MAX,
    ensures
        position_of(
            first + seq!['\n'] + second,
            (utf8_len(first) + 1 + utf8_len(second.take(j))) as int,
        ) == (Position { line: 1, character: j as u32 }),
{
    let chars = first + seq!['\n'] + second;
    let split = first.len() as int;
    let ci = split + 1 + j;
    assert(chars.take(ci) =~= first + seq!['\n'] + second.take(j));
    lemma_utf8_len_concat(first + seq!['\n'], second.take(j));
    lemma_utf8_len_concat(first, seq!['\n']);
    assert(utf8_len(seq!['\n']) == 1) by {
        assert(seq!['\n'].drop_first() =~= Seq::<char>::empty());
        reveal_with_fuel(utf8_len, 2);
    }
    lemma_char_at_offset(chars, ci);
    lemma_lines_of_two(first, second, ci);
    lemma_line_start_second(first, second, 0);
}

/// How many lines end before each character of a text of two lines.
proof fn lemma_lines_of_two(first: Seq<char>, second: Seq<char>, ci: int)
    requires
        forall|k: int| 0 <= k < first.len() ==> !is_line_break(#[trigger] first[k]),
        forall|k: int| 0 <= k < second.len() ==> !is_line_break(#[trigger] second[k]),
        0 <= ci <= first.len() + 1 + second.len(),
    ensures
        lines_before(first + seq!['\n'] + second, ci) == if ci <= first.len() {
            0nat
        } else {
            1nat
        },
    decreases ci,
{
    let chars = first + seq!['\n'] + second;
    if ci > 0 {
        lemma_lines_of_two(first, second, ci - 1);
        if ci - 1 < first.len() {
            assert(chars[ci - 1] == first[ci - 1]);
        } else if ci - 1 > first.len() {
            assert(chars[ci - 1] == second[ci - 1 - first.len() - 1]);
        }
    }
}

/// The second line of a text of two lines starts behind the line feed.
proof fn lemma_line_start_second(first: Seq<char>, second: Seq<char>, ci: int)
    requires
        forall|k: int| 0 <= k < first.len() ==> !is_line_break(#[trigger] first[k]),
        forall|k: int| 0 <= k < second.len() ==> !is_line_break(#[trigger] second[k]),
        0 <= ci <= first.len() + 1,
    ensures
        line_start_from(first + seq!['\n'] + second, 1, ci) == first.len() + 1,
    decreases first.len() + 1 - ci,
{
    lemma_lines_of_two(first, second, ci);
    if ci <= first.len() {
        lemma_line_start_second(first, second, ci + 1);
    }
}

} // verus!
