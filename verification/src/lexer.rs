//! The lexer: one pass over the source text that cuts it into tokens and
//! drops nothing.

use vstd::prelude::*;
use vstd::string::StringExecFns;
use ropey::Rope;
use crate::kind::SyntaxKind;
use crate::rope::{rope_chars, rope_substring};
use crate::span::Span;
use crate::text::{byte_offset, debug_form, debug_quoted, lemma_byte_offset_step, utf8_len};
use crate::NeoChar;

verus! {

/// A lexical unit: its kind, the text it was cut from the source with, and
/// the bytes it covers.
#[derive(Debug, PartialEq, Eq, Hash)]
pub struct Token {
    pub kind: SyntaxKind,
    pub text: String,
    pub span: Span,
}

/// A token with its text as a sequence of characters.
pub struct TokenView {
    pub kind: SyntaxKind,
    pub text: Seq<char>,
    pub span: Span,
}

impl View for Token {
    type V = TokenView;

    open spec fn view(&self) -> TokenView {
        TokenView { kind: self.kind, text: self.text@, span: self.span }
    }
}

impl Clone for Token {
    fn clone(&self) -> (t: Token)
        ensures
            t == *self,
    {
        Token { kind: self.kind, text: self.text.clone(), span: self.span }
    }
}

impl Token {
    /// How the token is written: its kind, its text in quotes, its span.
    pub open spec fn rendered(self) -> Seq<char> {
        self.kind.label() + " "@ + debug_form(self.text@) + " "@ + self.span.rendered()
    }

    /// Writes the token.
    pub fn to_text(&self) -> (s: String)
        ensures
            s@ == self.rendered(),
    {
        let mut s = String::from_str(self.kind.name());
        s.append(" ");
        let quoted = debug_quoted(self.text.as_str());
        s.append(quoted.as_str());
        s.append(" ");
        let span = self.span.to_text();
        s.append(span.as_str());
        s
    }
}

/// The tokens of a vector, each by its view.
pub open spec fn token_views(tokens: Seq<Token>) -> Seq<TokenView> {
    tokens.map_values(|t: Token| t@)
}

/// Spaces and tabs.
pub open spec fn is_blank(c: char) -> bool {
    c == ' ' || c == '\t'
}

/// The kind of the token that a delimiter character makes by itself.
pub open spec fn delimiter_kind(c: char) -> Option<SyntaxKind> {
    if c == '*' {
        Some(SyntaxKind::Astrisk)
    } else if c == '@' {
        Some(SyntaxKind::At)
    } else if c == '-' {
        Some(SyntaxKind::Hyphen)
    } else if c == '~' {
        Some(SyntaxKind::Tilda)
    } else if c == '/' {
        Some(SyntaxKind::Slash)
    } else if c == '_' {
        Some(SyntaxKind::Underscore)
    } else {
        None
    }
}

/// The characters that end a run of text: the delimiters, the line feed,
/// the space and the tab.
pub open spec fn is_special(c: char) -> bool {
    delimiter_kind(c) is Some || c == '\n' || is_blank(c)
}

/// Where the run of spaces and tabs that holds position `i` ends.
pub open spec fn blank_run_end(chars: Seq<char>, i: int) -> int
    decreases chars.len() - i,
{
    if 0 <= i < chars.len() && is_blank(chars[i]) {
        blank_run_end(chars, i + 1)
    } else {
        i
    }
}

/// Where the run of ordinary characters that holds position `i` ends.
pub open spec fn text_run_end(chars: Seq<char>, i: int) -> int
    decreases chars.len() - i,
{
    if 0 <= i < chars.len() && !is_special(chars[i]) {
        text_run_end(chars, i + 1)
    } else {
        i
    }
}

/// Where the token that starts at position `i` ends.
pub open spec fn token_end(chars: Seq<char>, i: int) -> int {
    if is_blank(chars[i]) {
        blank_run_end(chars, i + 1)
    } else if is_special(chars[i]) {
        i + 1
    } else {
        text_run_end(chars, i + 1)
    }
}

/// The kind of the token that starts at position `i`. A run of spaces and
/// tabs is indentation where it opens a line.
pub open spec fn token_kind(chars: Seq<char>, i: int, line_start: bool) -> SyntaxKind {
    match delimiter_kind(chars[i]) {
        Some(kind) => kind,
        None => if chars[i] == '\n' {
            SyntaxKind::NewLine
        } else if is_blank(chars[i]) {
            if line_start {
                SyntaxKind::IndentWhiteSpace
            } else {
                SyntaxKind::WhiteSpace
            }
        } else {
            SyntaxKind::Text
        },
    }
}

/// The token that covers the characters from `i` up to `j`.
pub open spec fn token_over(chars: Seq<char>, kind: SyntaxKind, i: int, j: int) -> TokenView {
    TokenView {
        kind,
        text: chars.subrange(i, j),
        span: Span { start: byte_offset(chars, i) as usize, end: byte_offset(chars, j) as usize },
    }
}

/// The token that starts at position `i`.
pub open spec fn token_at(chars: Seq<char>, i: int, line_start: bool) -> TokenView {
    token_over(chars, token_kind(chars, i, line_start), i, token_end(chars, i))
}

/// The token that closes the stream: no text, at the end of the source.
pub open spec fn eof_token(chars: Seq<char>) -> TokenView {
    token_over(chars, SyntaxKind::Eof, chars.len() as int, chars.len() as int)
}

/// Every token ends behind its first character and within the text.
pub proof fn lemma_token_end_bounds(chars: Seq<char>, i: int)
    requires
        0 <= i < chars.len(),
    ensures
        i < token_end(chars, i) <= chars.len(),
{
    lemma_run_end_bounds(chars, i + 1);
}

/// A run ends at or behind the position it is asked for, within the text.
pub proof fn lemma_run_end_bounds(chars: Seq<char>, i: int)
    requires
        0 <= i <= chars.len(),
    ensures
        i <= blank_run_end(chars, i) <= chars.len(),
        i <= text_run_end(chars, i) <= chars.len(),
    decreases chars.len() - i,
{
    if i < chars.len() {
        lemma_run_end_bounds(chars, i + 1);
    }
}

/// The tokens of the text from position `i` on, the closing token included.
pub open spec fn lex_from(chars: Seq<char>, i: int, line_start: bool) -> Seq<TokenView>
    decreases chars.len() - i,
{
    if 0 <= i < chars.len() {
        proof {
            lemma_token_end_bounds(chars, i);
        }
        seq![token_at(chars, i, line_start)] + lex_from(
            chars,
            token_end(chars, i),
            token_kind(chars, i, line_start) == SyntaxKind::NewLine,
        )
    } else {
        seq![eof_token(chars)]
    }
}

/// Whether a token cut behind the tokens from position `i` on would open a
/// line: whether the last of them is a line feed, or, where there is none,
/// what held before.
pub open spec fn opens_line_after(chars: Seq<char>, i: int, line_start: bool) -> bool
    decreases chars.len() - i,
{
    if 0 <= i < chars.len() {
        proof {
            lemma_token_end_bounds(chars, i);
        }
        opens_line_after(
            chars,
            token_end(chars, i),
            token_kind(chars, i, line_start) == SyntaxKind::NewLine,
        )
    } else {
        line_start
    }
}

/// The tokens of a whole text.
pub open spec fn lex_spec(chars: Seq<char>) -> Seq<TokenView> {
    lex_from(chars, 0, true)
}

/// The texts of the tokens from `i` up to `j`, joined.
pub open spec fn joined_text(tokens: Seq<TokenView>, i: int, j: int) -> Seq<char>
    decreases j - i,
{
    if j <= i {
        Seq::empty()
    } else {
        joined_text(tokens, i, j - 1) + tokens[j - 1].text
    }
}

/// Number of asterisks among the tokens from `i` up to `j`.
pub open spec fn stars(tokens: Seq<TokenView>, i: int, j: int) -> nat
    decreases j - i,
{
    if j <= i {
        0
    } else {
        stars(tokens, i, j - 1) + if tokens[j - 1].kind == SyntaxKind::Astrisk {
            1nat
        } else {
            0nat
        }
    }
}

/// Joined texts split at any index in between.
pub proof fn lemma_joined_split(tokens: Seq<TokenView>, i: int, k: int, j: int)
    requires
        i <= k <= j,
    ensures
        joined_text(tokens, i, j) == joined_text(tokens, i, k) + joined_text(tokens, k, j),
    decreases j - k,
{
    if k < j {
        lemma_joined_split(tokens, i, k, j - 1);
        assert(joined_text(tokens, i, j) =~= joined_text(tokens, i, k) + joined_text(tokens, k, j));
    } else {
        assert(joined_text(tokens, i, j) =~= joined_text(tokens, i, k) + joined_text(tokens, k, j));
    }
}

/// Joined texts depend on the tokens joined alone, not on where they stand.
pub proof fn lemma_joined_same(a: Seq<TokenView>, i: int, b: Seq<TokenView>, k: int, n: int)
    requires
        0 <= n,
        forall|d: int| 0 <= d < n ==> (#[trigger] a[i + d]).text == b[k + d].text,
    ensures
        joined_text(a, i, i + n) == joined_text(b, k, k + n),
    decreases n,
{
    if n > 0 {
        lemma_joined_same(a, i, b, k, n - 1);
        assert(a[i + (n - 1)].text == b[k + (n - 1)].text);
    }
}

/// What holds of every token that the lexer cuts from a text: its kind is
/// none of the constructs, a delimiter is its one character, and a run of
/// text holds no character that would end it.
pub open spec fn lexical(t: TokenView) -> bool {
    &&& !t.kind.is_structural()
    &&& t.kind.is_delimiter() ==> t.text.len() == 1 && delimiter_kind(t.text[0]) == Some(t.kind)
    &&& t.kind == SyntaxKind::Text ==> t.text.len() > 0 && forall|k: int|
        0 <= k < t.text.len() ==> !is_special(#[trigger] t.text[k])
    &&& t.kind == SyntaxKind::Eof ==> t.text.len() == 0
}

/// The characters of a run of text, up to where it ends, are ordinary.
pub proof fn lemma_text_run(chars: Seq<char>, i: int, k: int)
    requires
        0 <= i <= k < text_run_end(chars, i),
        i <= chars.len(),
    ensures
        !is_special(chars[k]),
    decreases chars.len() - i,
{
    if i < chars.len() && !is_special(chars[i]) {
        if k > i {
            lemma_text_run(chars, i + 1, k);
        }
    }
}

/// A token cut from a text covers the bytes from where its first character
/// starts up to where its last one ends.
pub proof fn lemma_token_at_span(chars: Seq<char>, i: int, line_start: bool)
    requires
        0 <= i < chars.len(),
        utf8_len(chars) <= usize::MAX,
    ensures
        token_at(chars, i, line_start).span.start == byte_offset(chars, i),
        token_at(chars, i, line_start).span.end == byte_offset(chars, token_end(chars, i)),
        byte_offset(chars, i) < byte_offset(chars, token_end(chars, i)) <= utf8_len(chars),
{
    let n = chars.len() as int;
    let e = token_end(chars, i);
    lemma_token_end_bounds(chars, i);
    lemma_byte_offset_step(chars, i, e);
    lemma_byte_offset_step(chars, e, n);
    assert(chars.take(n) =~= chars);
}

/// A token cut from a text is as the lexer cuts it, and does not close the
/// stream.
pub proof fn lemma_token_at_lexical(chars: Seq<char>, i: int, line_start: bool)
    requires
        0 <= i < chars.len(),
    ensures
        lexical(token_at(chars, i, line_start)),
        token_at(chars, i, line_start).kind != SyntaxKind::Eof,
{
    let first = token_at(chars, i, line_start);
    lemma_token_end_bounds(chars, i);
    if first.kind == SyntaxKind::Text {
        assert forall|k: int| 0 <= k < first.text.len() implies !is_special(
            #[trigger] first.text[k],
        ) by {
            if k > 0 {
                lemma_text_run(chars, i + 1, i + k);
            }
        }
    }
}

/// How the tokens from position `i` on are made: the token at `i`, then the
/// tokens from where it ends.
pub proof fn lemma_lex_unfold(chars: Seq<char>, i: int, line_start: bool)
    requires
        0 <= i < chars.len(),
    ensures
        ({
            let tokens = lex_from(chars, i, line_start);
            let rest = lex_from(
                chars,
                token_end(chars, i),
                token_kind(chars, i, line_start) == SyntaxKind::NewLine,
            );
            &&& tokens.len() == rest.len() + 1
            &&& tokens[0] == token_at(chars, i, line_start)
            &&& forall|k: int| 1 <= k < tokens.len() ==> #[trigger] tokens[k] == rest[k - 1]
        }),
{
    lemma_token_end_bounds(chars, i);
}

/// The tokens of a text from position `i` on: the last one closes the
/// stream and no other does, and each is as the lexer cuts it.
pub proof fn lemma_lex_kinds(chars: Seq<char>, i: int, line_start: bool)
    requires
        0 <= i <= chars.len(),
    ensures
        ({
            let tokens = lex_from(chars, i, line_start);
            &&& tokens.len() >= 1
            &&& tokens.last() == eof_token(chars)
            &&& forall|k: int|
                0 <= k < tokens.len() - 1 ==> (#[trigger] tokens[k]).kind != SyntaxKind::Eof
            &&& forall|k: int| 0 <= k < tokens.len() ==> lexical(#[trigger] tokens[k])
        }),
    decreases chars.len() - i,
{
    let tokens = lex_from(chars, i, line_start);
    if i < chars.len() {
        lemma_token_end_bounds(chars, i);
        lemma_lex_unfold(chars, i, line_start);
        lemma_token_at_lexical(chars, i, line_start);
        lemma_lex_kinds(
            chars,
            token_end(chars, i),
            token_kind(chars, i, line_start) == SyntaxKind::NewLine,
        );
    } else {
        assert(chars.take(chars.len() as int) =~= chars);
    }
}

/// Whether the token of index `k + 1` starts at the byte where the token of
/// index `k` ends.
pub open spec fn adjoins(tokens: Seq<TokenView>, k: int) -> bool {
    tokens[k].span.end == tokens[k + 1].span.start
}

/// The tokens of a text from position `i` on start at the byte offset of
/// `i`, each starts where the one before ends, none ends before it starts,
/// and the last one stands at the end of the text.
pub proof fn lemma_lex_spans(chars: Seq<char>, i: int, line_start: bool)
    requires
        0 <= i <= chars.len(),
        utf8_len(chars) <= usize::MAX,
    ensures
        ({
            let tokens = lex_from(chars, i, line_start);
            &&& tokens[0].span.start == byte_offset(chars, i)
            &&& tokens.last().span.start == utf8_len(chars)
            &&& forall|k: int| 0 <= k < tokens.len() - 1 ==> #[trigger] adjoins(tokens, k)
            &&& forall|k: int| 0 <= k < tokens.len() ==> (#[trigger] tokens[k]).span.is_valid()
        }),
    decreases chars.len() - i,
{
    let tokens = lex_from(chars, i, line_start);
    if i < chars.len() {
        lemma_token_end_bounds(chars, i);
        lemma_lex_unfold(chars, i, line_start);
        lemma_token_at_span(chars, i, line_start);
        let rest = lex_from(
            chars,
            token_end(chars, i),
            token_kind(chars, i, line_start) == SyntaxKind::NewLine,
        );
        assert(tokens[0] == token_at(chars, i, line_start));
        lemma_lex_spans(
            chars,
            token_end(chars, i),
            token_kind(chars, i, line_start) == SyntaxKind::NewLine,
        );
        assert(tokens.last() == rest.last());
        assert forall|k: int| 0 <= k < tokens.len() - 1 implies #[trigger] adjoins(tokens, k) by {
            assert(tokens[k + 1] == rest[k]);
            if k > 0 {
                assert(tokens[k] == rest[k - 1]);
                assert(adjoins(rest, k - 1));
            }
        }
        assert forall|k: int| 0 <= k < tokens.len() implies (#[trigger] tokens[k]).span.is_valid() by {
            if k > 0 {
                assert(tokens[k] == rest[k - 1]);
            }
        }
    } else {
        assert(chars.take(chars.len() as int) =~= chars);
        assert(chars.take(i) =~= chars);
    }
}

/// Where each token starts at the end of the one before and none ends
/// before it starts, a later token does not start before an earlier one.
pub proof fn lemma_spans_ordered(tokens: Seq<TokenView>, i: int, j: int)
    requires
        0 <= i <= j < tokens.len(),
        forall|k: int| 0 <= k < tokens.len() - 1 ==> #[trigger] adjoins(tokens, k),
        forall|k: int| 0 <= k < tokens.len() ==> (#[trigger] tokens[k]).span.is_valid(),
    ensures
        tokens[i].span.start <= tokens[j].span.start,
        tokens[i].span.start <= tokens[j].span.end,
    decreases j - i,
{
    assert(tokens[j].span.is_valid());
    if i < j {
        lemma_spans_ordered(tokens, i, j - 1);
        assert(adjoins(tokens, j - 1));
        assert(tokens[j - 1].span.is_valid());
    }
}

/// The texts of the tokens from position `i` on, joined, are the text from
/// `i` on: the lexer drops nothing.
pub proof fn lemma_lex_texts(chars: Seq<char>, i: int, line_start: bool)
    requires
        0 <= i <= chars.len(),
    ensures
        ({
            let tokens = lex_from(chars, i, line_start);
            joined_text(tokens, 0, tokens.len() as int) == chars.subrange(i, chars.len() as int)
        }),
    decreases chars.len() - i,
{
    let tokens = lex_from(chars, i, line_start);
    let n = chars.len() as int;
    if i < chars.len() {
        lemma_token_end_bounds(chars, i);
        lemma_lex_unfold(chars, i, line_start);
        let e = token_end(chars, i);
        let rest = lex_from(chars, e, token_kind(chars, i, line_start) == SyntaxKind::NewLine);
        lemma_lex_texts(chars, e, token_kind(chars, i, line_start) == SyntaxKind::NewLine);
        lemma_joined_split(tokens, 0, 1, tokens.len() as int);
        assert(joined_text(tokens, 0, 1) =~= tokens[0].text) by {
            assert(joined_text(tokens, 0, 0) =~= Seq::<char>::empty());
        }
        assert forall|d: int| 0 <= d < rest.len() implies (#[trigger] tokens[1 + d]).text
            == rest[0 + d].text by {}
        lemma_joined_same(tokens, 1, rest, 0, rest.len() as int);
        assert(chars.subrange(i, e) + chars.subrange(e, n) =~= chars.subrange(i, n));
    } else {
        assert(tokens =~= seq![eof_token(chars)]);
        assert(joined_text(tokens, 0, 1) =~= Seq::<char>::empty()) by {
            assert(joined_text(tokens, 0, 0) =~= Seq::<char>::empty());
        }
        assert(chars.subrange(i, n) =~= Seq::<char>::empty());
    }
}

/// Whether two tokens are the same apart from their spans.
pub open spec fn same_token(a: TokenView, b: TokenView) -> bool {
    a.kind == b.kind && a.text == b.text
}

/// A run of blanks or of text is found from its first position on alone:
/// behind any prefix it ends where it ends without the prefix.
pub proof fn lemma_run_end_shift(p: Seq<char>, t: Seq<char>, i: int)
    requires
        0 <= i <= t.len(),
    ensures
        blank_run_end(p + t, p.len() + i) == p.len() + blank_run_end(t, i),
        text_run_end(p + t, p.len() + i) == p.len() + text_run_end(t, i),
    decreases t.len() - i,
{
    if i < t.len() {
        assert((p + t)[p.len() + i] == t[i]);
        lemma_run_end_shift(p, t, i + 1);
    }
}

/// A token is cut from its first position on alone: behind any prefix it
/// has the same kind and text and ends as far from its start.
pub proof fn lemma_token_shift(p: Seq<char>, t: Seq<char>, i: int, line_start: bool)
    requires
        0 <= i < t.len(),
    ensures
        token_end(p + t, p.len() + i) == p.len() + token_end(t, i),
        token_kind(p + t, p.len() + i, line_start) == token_kind(t, i, line_start),
        same_token(token_at(p + t, p.len() + i, line_start), token_at(t, i, line_start)),
{
    assert((p + t)[p.len() + i] == t[i]);
    lemma_run_end_shift(p, t, i + 1);
    lemma_token_end_bounds(t, i);
    assert((p + t).subrange(p.len() + i, p.len() + token_end(t, i)) =~= t.subrange(
        i,
        token_end(t, i),
    ));
}

/// The tokens of a text behind a prefix, from a position of the text on,
/// are the tokens of the text alone apart from their spans.
pub proof fn lemma_lex_shift(p: Seq<char>, t: Seq<char>, i: int, line_start: bool)
    requires
        0 <= i <= t.len(),
    ensures
        ({
            let behind = lex_from(p + t, p.len() + i, line_start);
            let alone = lex_from(t, i, line_start);
            &&& behind.len() == alone.len()
            &&& forall|d: int| 0 <= d < alone.len() ==> same_token(#[trigger] behind[d], alone[d])
        }),
    decreases t.len() - i,
{
    let behind = lex_from(p + t, p.len() + i, line_start);
    let alone = lex_from(t, i, line_start);
    if i < t.len() {
        lemma_token_shift(p, t, i, line_start);
        lemma_token_end_bounds(t, i);
        lemma_lex_unfold(p + t, p.len() + i, line_start);
        lemma_lex_unfold(t, i, line_start);
        let next = token_kind(t, i, line_start) == SyntaxKind::NewLine;
        lemma_lex_shift(p, t, token_end(t, i), next);
        let behind_rest = lex_from(p + t, p.len() + token_end(t, i), next);
        let alone_rest = lex_from(t, token_end(t, i), next);
        assert forall|d: int| 0 <= d < alone.len() implies same_token(
            #[trigger] behind[d],
            alone[d],
        ) by {
            if d > 0 {
                assert(behind[d] == behind_rest[d - 1]);
                assert(alone[d] == alone_rest[d - 1]);
            }
        }
    } else {
        assert((p + t).subrange((p + t).len() as int, (p + t).len() as int) =~= t.subrange(
            t.len() as int,
            t.len() as int,
        ));
    }
}

/// Whether a text is empty or ends in a line feed, so that what follows it
/// opens a line.
pub open spec fn closes_line(p: Seq<char>) -> bool {
    p.len() == 0 || p.last() == '\n'
}

/// Before the line feed that ends a prefix, runs end as they end in the
/// prefix alone.
pub proof fn lemma_run_end_prefix(p: Seq<char>, t: Seq<char>, i: int)
    requires
        0 <= i < p.len(),
        p.last() == '\n',
    ensures
        blank_run_end(p + t, i) == blank_run_end(p, i),
        text_run_end(p + t, i) == text_run_end(p, i),
        blank_run_end(p, i) < p.len(),
        text_run_end(p, i) < p.len(),
    decreases p.len() - i,
{
    assert((p + t)[i] == p[i]);
    if i < p.len() - 1 {
        lemma_run_end_prefix(p, t, i + 1);
    }
}

/// Within a prefix that ends in a line feed, tokens are cut as in the
/// prefix alone, and only the line feed ends at the end of the prefix.
pub proof fn lemma_token_prefix(p: Seq<char>, t: Seq<char>, i: int, line_start: bool)
    requires
        0 <= i < p.len(),
        p.last() == '\n',
    ensures
        token_end(p + t, i) == token_end(p, i),
        token_end(p, i) <= p.len(),
        token_at(p + t, i, line_start) == token_at(p, i, line_start),
        token_kind(p + t, i, line_start) == token_kind(p, i, line_start),
        token_end(p, i) == p.len() ==> token_kind(p, i, line_start) == SyntaxKind::NewLine,
{
    assert((p + t)[i] == p[i]);
    if i < p.len() - 1 {
        lemma_run_end_prefix(p, t, i + 1);
    }
    lemma_token_end_bounds(p, i);
    let e = token_end(p, i);
    assert((p + t).subrange(i, e) =~= p.subrange(i, e));
    assert((p + t).take(i) =~= p.take(i));
    assert((p + t).take(e) =~= p.take(e));
}

/// The tokens of a text behind a prefix that closes a line: the tokens of
/// the prefix without its closing token, then the tokens from the start of
/// the text on, which opens a line.
pub proof fn lemma_lex_prefix(p: Seq<char>, t: Seq<char>, i: int, line_start: bool)
    requires
        0 <= i <= p.len(),
        closes_line(p),
        i == p.len() ==> line_start,
    ensures
        ({
            let whole = lex_from(p + t, i, line_start);
            let head = lex_from(p, i, line_start);
            let tail = lex_from(p + t, p.len() as int, true);
            &&& head.len() >= 1
            &&& whole.len() == head.len() - 1 + tail.len()
            &&& forall|d: int| 0 <= d < head.len() - 1 ==> #[trigger] whole[d] == head[d]
            &&& forall|d: int| 0 <= d < tail.len() ==> whole[head.len() - 1 + d] == #[trigger] tail[d]
            &&& i < p.len() ==> head.len() >= 2 && head[head.len() - 2].kind == SyntaxKind::NewLine
        }),
    decreases p.len() - i,
{
    let whole = lex_from(p + t, i, line_start);
    let head = lex_from(p, i, line_start);
    let tail = lex_from(p + t, p.len() as int, true);
    if i < p.len() {
        lemma_token_prefix(p, t, i, line_start);
        lemma_token_end_bounds(p, i);
        lemma_lex_unfold(p + t, i, line_start);
        lemma_lex_unfold(p, i, line_start);
        let e = token_end(p, i);
        let next = token_kind(p, i, line_start) == SyntaxKind::NewLine;
        lemma_lex_prefix(p, t, e, next);
        let whole_rest = lex_from(p + t, e, next);
        let head_rest = lex_from(p, e, next);
        assert forall|d: int| 0 <= d < head.len() - 1 implies #[trigger] whole[d] == head[d] by {
            if d > 0 {
                assert(whole[d] == whole_rest[d - 1]);
                assert(head[d] == head_rest[d - 1]);
            }
        }
        assert forall|d: int| 0 <= d < tail.len() implies whole[head.len() - 1 + d]
            == #[trigger] tail[d] by {
            assert(whole[head.len() - 1 + d] == whole_rest[head.len() - 2 + d]);
            assert(whole_rest[head_rest.len() - 1 + d] == tail[d]);
        }
        if e < p.len() {
            assert(head[head.len() - 2] == head_rest[head_rest.len() - 2]);
        } else {
            assert(head_rest.len() == 1);
            assert(head[0] == token_at(p, i, line_start));
        }
    } else {
        assert(i == p.len());
    }
}

/// A lexer over a rope of source text.
pub struct Lexer {
    source: Rope,
    start: usize,
    current: usize,
    line_start: bool,
}

impl Lexer {
    #[verifier::type_invariant]
    spec fn well_formed(self) -> bool {
        self.start <= self.current <= rope_chars(self.source).len()
    }

    /// The source text.
    pub closed spec fn text(self) -> Seq<char> {
        rope_chars(self.source)
    }

    /// Index of the character at which the next token starts.
    pub closed spec fn cursor(self) -> int {
        self.current as int
    }

    /// Whether the next token opens a line.
    pub closed spec fn at_line_start(self) -> bool {
        self.line_start
    }

    /// A lexer at the start of `source`.
    pub fn new(source: Rope) -> (l: Lexer)
        ensures
            l.text() == rope_chars(source),
            l.cursor() == 0,
            l.at_line_start(),
    {
        Lexer { source, start: 0, current: 0, line_start: true }
    }

    fn is_at_end(&self) -> (r: bool)
        ensures
            r == (self.current >= rope_chars(self.source).len()),
            rope_chars(self.source).len() <= usize::MAX,
    {
        self.current >= self.source.len_chars()
    }

    /// The character under the cursor.
    fn peek(&self) -> (r: Option<char>)
        ensures
            r == if self.current < rope_chars(self.source).len() {
                Some(rope_chars(self.source)[self.current as int])
            } else {
                None
            },
    {
        if self.is_at_end() {
            None
        } else {
            Some(self.source.char(self.current))
        }
    }

    /// Reads the character under the cursor and steps over it.
    fn advance(&mut self) -> (r: Option<char>)
        ensures
            final(self).source == old(self).source,
            final(self).start == old(self).start,
            final(self).line_start == old(self).line_start,
            r == old(self).peek_spec(),
            final(self).current == if r is Some {
                old(self).current + 1
            } else {
                old(self).current as int
            },
    {
        proof {
            use_type_invariant(&*self);
        }
        if self.is_at_end() {
            None
        } else {
            let c = self.source.char(self.current);
            self.current = self.current + 1;
            Some(c)
        }
    }

    spec fn peek_spec(self) -> Option<char> {
        if self.current < rope_chars(self.source).len() {
            Some(rope_chars(self.source)[self.current as int])
        } else {
            None
        }
    }

    /// The token of `kind` over the characters read since the last token.
    fn make_token(&self, kind: SyntaxKind) -> (t: Token)
        ensures
            t@ == token_over(
                rope_chars(self.source),
                kind,
                self.start as int,
                self.current as int,
            ),
    {
        proof {
            use_type_invariant(self);
        }
        let start = self.source.char_to_byte(self.start);
        let end = self.source.char_to_byte(self.current);
        Token {
            kind,
            text: rope_substring(&self.source, self.start, self.current),
            span: Span { start, end },
        }
    }

    /// Cuts the next token from the source and moves the cursor behind it.
    /// At the end of the source the token is the closing one, and the cursor
    /// stays.
    pub fn scan(&mut self) -> (t: Token)
        ensures
            final(self).text() == old(self).text(),
            old(self).cursor() < old(self).text().len() ==> {
                &&& t@ == token_at(old(self).text(), old(self).cursor(), old(self).at_line_start())
                &&& final(self).cursor() == token_end(old(self).text(), old(self).cursor())
                &&& final(self).at_line_start() == (t.kind == SyntaxKind::NewLine)
            },
            old(self).cursor() >= old(self).text().len() ==> {
                &&& t@ == eof_token(old(self).text())
                &&& final(self).cursor() == old(self).cursor()
                &&& final(self).at_line_start() == old(self).at_line_start()
            },
    {
        proof {
            use_type_invariant(&*self);
        }
        self.start = self.current;
        let ghost chars = rope_chars(self.source);
        let ghost first = self.current as int;
        let ghost opens = self.line_start;
        match self.advance() {
            None => self.make_token(SyntaxKind::Eof),
            Some(c) => {
                let kind = match c {
                    '*' => SyntaxKind::Astrisk,
                    '@' => SyntaxKind::At,
                    '-' => SyntaxKind::Hyphen,
                    '~' => SyntaxKind::Tilda,
                    '/' => SyntaxKind::Slash,
                    '_' => SyntaxKind::Underscore,
                    '\n' => SyntaxKind::NewLine,
                    ' ' | '\t' => {
                        loop
                            invariant
                                rope_chars(self.source) == chars,
                                self.line_start == opens,
                                self.start == first,
                                first < self.current <= chars.len(),
                                blank_run_end(chars, self.current as int) == blank_run_end(
                                    chars,
                                    first + 1,
                                ),
                            ensures
                                self.current == blank_run_end(chars, first + 1),
                            decreases chars.len() - self.current,
                        {
                            match self.peek() {
                                Some(ch) => {
                                    if ch == ' ' || ch == '\t' {
                                        self.advance();
                                    } else {
                                        break ;
                                    }
                                },
                                None => {
                                    break ;
                                },
                            }
                        }
                        if self.line_start {
                            SyntaxKind::IndentWhiteSpace
                        } else {
                            SyntaxKind::WhiteSpace
                        }
                    },
                    _ => {
                        loop
                            invariant
                                rope_chars(self.source) == chars,
                                self.line_start == opens,
                                self.start == first,
                                first < self.current <= chars.len(),
                                text_run_end(chars, self.current as int) == text_run_end(
                                    chars,
                                    first + 1,
                                ),
                            ensures
                                self.current == text_run_end(chars, first + 1),
                            decreases chars.len() - self.current,
                        {
                            match self.peek() {
                                Some(ch) => {
                                    if ch.is_special_char() {
                                        break ;
                                    }
                                    self.advance();
                                },
                                None => {
                                    break ;
                                },
                            }
                        }
                        SyntaxKind::Text
                    },
                };
                self.line_start = matches!(kind, SyntaxKind::NewLine);
                self.make_token(kind)
            },
        }
    }

    /// Cuts the rest of the source into tokens, the closing token included.
    pub fn lex(&mut self) -> (tokens: Vec<Token>)
        ensures
            final(self).text() == old(self).text(),
            token_views(tokens@) == lex_from(
                old(self).text(),
                old(self).cursor(),
                old(self).at_line_start(),
            ),
            final(self).cursor() == old(self).text().len(),
            final(self).at_line_start() == opens_line_after(
                old(self).text(),
                old(self).cursor(),
                old(self).at_line_start(),
            ),
    {
        proof {
            use_type_invariant(&*self);
        }
        let ghost chars = rope_chars(self.source);
        let ghost from = self.current as int;
        let ghost opens = self.line_start;
        let mut tokens: Vec<Token> = Vec::new();
        loop
            invariant_except_break
                token_views(tokens@) + lex_from(chars, self.current as int, self.line_start)
                    =~= lex_from(chars, from, opens),
            invariant
                opens_line_after(chars, self.current as int, self.line_start) == opens_line_after(
                    chars,
                    from,
                    opens,
                ),
                rope_chars(self.source) == chars,
                self.current <= chars.len(),
            ensures
                rope_chars(self.source) == chars,
                self.current == chars.len(),
                self.line_start == opens_line_after(chars, from, opens),
                token_views(tokens@) =~= lex_from(chars, from, opens),
            decreases chars.len() - self.current,
        {
            let ghost before = token_views(tokens@);
            let ghost at = self.current as int;
            let at_end = self.is_at_end();
            proof {
                if !at_end {
                    lemma_token_end_bounds(chars, at);
                }
            }
            let token = self.scan();
            tokens.push(token);
            proof {
                assert(token_views(tokens@) =~= before.push(token@));
            }
            if at_end {
                break ;
            }
        }
        tokens
    }
}

} // verus!
