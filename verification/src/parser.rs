//! The parser: it walks the tokens once and gives a flat run of nodes, one
//! for each token that stands alone and one for each construct it finds.
//! Input that fits no rule becomes an error node at its place.

use vstd::prelude::*;
use vstd::string::StringExecFns;
use ecow::EcoString;
use crate::eco::{eco_chars, eco_items, hints_push};
use crate::kind::SyntaxKind;
use crate::lexer::{adjoins, is_blank, joined_text, lemma_spans_ordered, lemma_joined_same, lemma_joined_split, lexical, same_token, stars, token_views, Token, TokenView};
use crate::node::{all_spanless_eq, full_text_of, lemma_all_spanless_eq, lemma_full_text_concat, lemma_full_text_one, lemma_full_text_push, SyntaxError, Tree};
use crate::span::Span;
use crate::text::{debug_form, debug_quoted, decimal, decimal_chars, ends_with_char, labelled};

verus! {

/// What a node of the parser is, apart from how it is stored.
pub enum NodeView {
    /// A token passed through, or a construct that was recognized. `level`
    /// is the depth of a heading and zero for anything else.
    Syntax { kind: SyntaxKind, text: Seq<char>, span: Span, level: nat },
    /// Input that fits no rule: the text it covers, what went wrong, and
    /// advice for the user.
    Error {
        kind: SyntaxKind,
        text: Seq<char>,
        error: Option<Seq<char>>,
        hint: Option<Seq<char>>,
        span: Span,
    },
}

impl NodeView {
    pub open spec fn kind(self) -> SyntaxKind {
        match self {
            NodeView::Syntax { kind, .. } => kind,
            NodeView::Error { kind, .. } => kind,
        }
    }

    pub open spec fn text(self) -> Seq<char> {
        match self {
            NodeView::Syntax { text, .. } => text,
            NodeView::Error { text, .. } => text,
        }
    }

    pub open spec fn span(self) -> Span {
        match self {
            NodeView::Syntax { span, .. } => span,
            NodeView::Error { span, .. } => span,
        }
    }

    pub open spec fn level(self) -> nat {
        match self {
            NodeView::Syntax { level, .. } => level,
            NodeView::Error { .. } => 0,
        }
    }

    pub open spec fn errors(self) -> Option<Seq<char>> {
        match self {
            NodeView::Syntax { .. } => None,
            NodeView::Error { error, .. } => error,
        }
    }
}

/// The construct that a pair of delimiters of kind `open` makes.
pub open spec fn paired_kind(open: SyntaxKind) -> Option<SyntaxKind> {
    match open {
        SyntaxKind::Astrisk => Some(SyntaxKind::Bold),
        SyntaxKind::Slash => Some(SyntaxKind::Italic),
        SyntaxKind::Underscore => Some(SyntaxKind::UnderLined),
        SyntaxKind::Tilda => Some(SyntaxKind::ListItem),
        SyntaxKind::Hyphen => Some(SyntaxKind::StrikeThrough),
        _ => None,
    }
}

/// What is said of a construct that was opened and not closed.
pub open spec fn incomplete_message(open: SyntaxKind) -> Seq<char> {
    match open {
        SyntaxKind::Astrisk => "incomplete bold text"@,
        SyntaxKind::Slash => "incomplete italic text"@,
        SyntaxKind::Underscore => "incomplete underlined text"@,
        SyntaxKind::Tilda => "incomplete list text"@,
        SyntaxKind::Hyphen => "incomplete strikethrough text"@,
        _ => ""@,
    }
}

/// The advice that names the pair a construct is written with.
pub open spec fn pairing_hint(open: SyntaxKind) -> Seq<char> {
    match open {
        SyntaxKind::Astrisk => "text must be wrapped in asterisk pairs like *text*"@,
        SyntaxKind::Slash => "text must be wrapped in slash pairs like /text/"@,
        SyntaxKind::Underscore => "text must be wrapped in underscore pairs like _text_"@,
        SyntaxKind::Tilda => "text must be wrapped in tilde pairs like ~text~"@,
        SyntaxKind::Hyphen => "text must be wrapped in hyphen pairs like -text-"@,
        _ => ""@,
    }
}

/// What is said of text that ends in a space or a tab before the closing
/// delimiter.
pub open spec fn trailing_message() -> Seq<char> {
    "trailing whitespace"@
}

/// What is said of a token that cannot stand in a heading.
pub open spec fn heading_message() -> Seq<char> {
    "unexpected token in heading"@
}

/// The advice given with a broken heading.
pub open spec fn heading_hint() -> Seq<char> {
    "a heading holds text, spaces and asterisks up to the end of its line"@
}

/// Whether the text ends in a space or a tab.
pub open spec fn ends_with_blank(text: Seq<char>) -> bool {
    text.len() > 0 && is_blank(text.last())
}

/// Whether the token of index `i` is the first of its line, indentation
/// aside.
pub open spec fn at_line_start(tokens: Seq<TokenView>, i: int) -> bool {
    i == 0 || tokens[i - 1].kind == SyntaxKind::NewLine || tokens[i - 1].kind
        == SyntaxKind::IndentWhiteSpace
}

/// The node for the delimiter at index `i`, and the index behind what the
/// node covers. A pair is the delimiter, one text token and the same
/// delimiter again, with no space or tab at the end of the text.
pub open spec fn delimited(tokens: Seq<TokenView>, i: int) -> (NodeView, int) {
    let open = tokens[i];
    if i + 1 < tokens.len() && tokens[i + 1].kind == SyntaxKind::Text {
        let inner = tokens[i + 1];
        if i + 2 < tokens.len() && tokens[i + 2].kind == open.kind {
            let close = tokens[i + 2];
            let span = Span { start: open.span.start, end: close.span.end };
            if ends_with_blank(inner.text) {
                (
                    NodeView::Error {
                        kind: SyntaxKind::Error,
                        text: open.text + inner.text + close.text,
                        error: Some(trailing_message()),
                        hint: Some(pairing_hint(open.kind)),
                        span,
                    },
                    i + 3,
                )
            } else {
                (
                    NodeView::Syntax {
                        kind: paired_kind(open.kind)->0,
                        text: inner.text,
                        span,
                        level: 0,
                    },
                    i + 3,
                )
            }
        } else {
            (
                NodeView::Error {
                    kind: SyntaxKind::Error,
                    text: open.text + inner.text,
                    error: Some(incomplete_message(open.kind)),
                    hint: Some(pairing_hint(open.kind)),
                    span: Span { start: open.span.start, end: inner.span.end },
                },
                i + 2,
            )
        }
    } else {
        (
            NodeView::Error {
                kind: SyntaxKind::Error,
                text: open.text,
                error: Some(incomplete_message(open.kind)),
                hint: Some(pairing_hint(open.kind)),
                span: open.span,
            },
            i + 1,
        )
    }
}

/// The kinds that a heading takes in behind its first asterisk.
pub open spec fn continues_heading(kind: SyntaxKind) -> bool {
    kind == SyntaxKind::WhiteSpace || kind == SyntaxKind::Text || kind == SyntaxKind::Astrisk
}

/// Where the run of tokens that a heading takes in, from index `j` on, ends.
pub open spec fn heading_end(tokens: Seq<TokenView>, j: int) -> int
    decreases tokens.len() - j,
{
    if 0 <= j < tokens.len() && continues_heading(tokens[j].kind) {
        heading_end(tokens, j + 1)
    } else {
        j
    }
}

/// Whether a heading may end before the token of index `j`: at the end of
/// its line or of the input.
pub open spec fn closes_heading(tokens: Seq<TokenView>, j: int) -> bool {
    j >= tokens.len() || tokens[j].kind == SyntaxKind::NewLine || tokens[j].kind
        == SyntaxKind::Eof
}

/// The node for the asterisk at index `i` that opens a line, and the index
/// behind what the node covers. The heading takes in the text, spaces and
/// asterisks that follow, and each asterisk adds one to its level. Any other
/// token before the end of the line breaks it off as an error.
pub open spec fn heading(tokens: Seq<TokenView>, i: int) -> (NodeView, int) {
    let j = heading_end(tokens, i + 1);
    let span = Span { start: tokens[i].span.start, end: tokens[j - 1].span.end };
    if closes_heading(tokens, j) {
        (
            NodeView::Syntax {
                kind: SyntaxKind::Heading,
                text: joined_text(tokens, i, j),
                span,
                level: stars(tokens, i, j),
            },
            j,
        )
    } else {
        (
            NodeView::Error {
                kind: SyntaxKind::Error,
                text: joined_text(tokens, i, j),
                error: Some(heading_message()),
                hint: Some(heading_hint()),
                span,
            },
            j,
        )
    }
}

/// The node that starts with the token of index `i`, and the index behind
/// what the node covers.
pub open spec fn step(tokens: Seq<TokenView>, i: int) -> (NodeView, int) {
    let token = tokens[i];
    if token.kind == SyntaxKind::Astrisk && at_line_start(tokens, i) {
        heading(tokens, i)
    } else if paired_kind(token.kind) is Some {
        delimited(tokens, i)
    } else {
        (NodeView::Syntax { kind: token.kind, text: token.text, span: token.span, level: 0 }, i + 1)
    }
}

/// A heading ends behind its first token and within the tokens.
pub proof fn lemma_heading_end_bounds(tokens: Seq<TokenView>, j: int)
    requires
        0 <= j <= tokens.len(),
    ensures
        j <= heading_end(tokens, j) <= tokens.len(),
    decreases tokens.len() - j,
{
    if j < tokens.len() {
        lemma_heading_end_bounds(tokens, j + 1);
    }
}

/// Every node covers at least one token and ends within the tokens.
pub proof fn lemma_step_bounds(tokens: Seq<TokenView>, i: int)
    requires
        0 <= i < tokens.len(),
    ensures
        i < step(tokens, i).1 <= tokens.len(),
{
    lemma_heading_end_bounds(tokens, i + 1);
}

/// The nodes of the tokens from index `i` up to the closing token.
pub open spec fn parse_from(tokens: Seq<TokenView>, i: int) -> Seq<NodeView>
    decreases tokens.len() - i,
{
    if 0 <= i < tokens.len() && tokens[i].kind != SyntaxKind::Eof {
        proof {
            lemma_step_bounds(tokens, i);
        }
        seq![step(tokens, i).0] + parse_from(tokens, step(tokens, i).1)
    } else {
        Seq::empty()
    }
}

/// The nodes of a whole run of tokens.
pub open spec fn parse_spec(tokens: Seq<TokenView>) -> Seq<NodeView> {
    parse_from(tokens, 0)
}

/// The index at which parsing from `i` stops: that of the closing token, or
/// the number of tokens where there is none.
pub open spec fn parse_end(tokens: Seq<TokenView>, i: int) -> int
    decreases tokens.len() - i,
{
    if 0 <= i < tokens.len() && tokens[i].kind != SyntaxKind::Eof {
        proof {
            lemma_step_bounds(tokens, i);
        }
        parse_end(tokens, step(tokens, i).1)
    } else {
        i
    }
}

/// The index of the first token of the node that parsing from `i` makes
/// last; `start` where it makes none.
pub open spec fn parse_start(tokens: Seq<TokenView>, i: int, start: int) -> int
    decreases tokens.len() - i,
{
    if 0 <= i < tokens.len() && tokens[i].kind != SyntaxKind::Eof {
        proof {
            lemma_step_bounds(tokens, i);
        }
        parse_start(tokens, step(tokens, i).1, i)
    } else {
        start
    }
}

/// The characters of a string that may be absent.
pub open spec fn option_chars(s: Option<String>) -> Option<Seq<char>> {
    match s {
        Some(s) => Some(s@),
        None => None,
    }
}

/// A token passed through, or a construct that was recognized.
#[derive(Debug, Clone, PartialEq, Eq, Hash)]
pub struct SyntaxNode {
    kind: SyntaxKind,
    text: EcoString,
    span: Span,
    level: usize,
}

impl View for SyntaxNode {
    type V = NodeView;

    closed spec fn view(&self) -> NodeView {
        NodeView::Syntax {
            kind: self.kind,
            text: eco_chars(self.text),
            span: self.span,
            level: self.level as nat,
        }
    }
}

impl SyntaxNode {
    /// A node of `kind` with `text`, of level zero.
    pub fn new(kind: SyntaxKind, text: EcoString, span: Span) -> (n: SyntaxNode)
        ensures
            n@ == (NodeView::Syntax { kind, text: eco_chars(text), span, level: 0 }),
    {
        SyntaxNode { kind, text, span, level: 0 }
    }

    /// A heading of the given level.
    pub fn heading(text: EcoString, span: Span, level: usize) -> (n: SyntaxNode)
        ensures
            n@ == (NodeView::Syntax {
                kind: SyntaxKind::Heading,
                text: eco_chars(text),
                span,
                level: level as nat,
            }),
    {
        SyntaxNode { kind: SyntaxKind::Heading, text, span, level }
    }
}

/// Input that fits no rule, with what went wrong and advice for the user.
#[derive(Debug, Clone, PartialEq, Eq, Hash)]
pub struct ErrorNode {
    kind: SyntaxKind,
    pub text: EcoString,
    error: Option<String>,
    hint: Option<String>,
    span: Span,
}

impl View for ErrorNode {
    type V = NodeView;

    closed spec fn view(&self) -> NodeView {
        NodeView::Error {
            kind: self.kind,
            text: eco_chars(self.text),
            error: option_chars(self.error),
            hint: option_chars(self.hint),
            span: self.span,
        }
    }
}

impl ErrorNode {
    pub fn new(
        kind: SyntaxKind,
        text: EcoString,
        error: Option<String>,
        hint: Option<String>,
        span: Span,
    ) -> (n: ErrorNode)
        ensures
            n@ == (NodeView::Error {
                kind,
                text: eco_chars(text),
                error: option_chars(error),
                hint: option_chars(hint),
                span,
            }),
    {
        ErrorNode { kind, text, error, hint, span }
    }
}

/// The two forms a node of the parser takes.
#[derive(Debug, Clone, PartialEq, Eq, Hash)]
pub enum Repr {
    ErrorNode(ErrorNode),
    SyntaxNode(SyntaxNode),
}

impl View for Repr {
    type V = NodeView;

    open spec fn view(&self) -> NodeView {
        match self {
            Repr::ErrorNode(err) => err@,
            Repr::SyntaxNode(syn) => syn@,
        }
    }
}

/// A node of the parser.
#[derive(Debug, Clone, PartialEq, Eq, Hash)]
pub struct Node(Repr);

impl View for Node {
    type V = NodeView;

    closed spec fn view(&self) -> NodeView {
        self.0@
    }
}

/// The nodes of a vector, each by its view.
pub open spec fn node_views(nodes: Seq<Node>) -> Seq<NodeView> {
    nodes.map_values(|n: Node| n@)
}

/// The node that a scan gives when no token is left.
pub open spec fn end_node() -> NodeView {
    NodeView::Syntax {
        kind: SyntaxKind::Eof,
        text: Seq::empty(),
        span: Span { start: 1, end: 1 },
        level: 0,
    }
}

/// A parser over a run of tokens.
#[derive(Debug, Clone, PartialEq, Eq, Hash)]
pub struct Parser {
    /// Index of the first token of the node scanned last.
    pub start: usize,
    /// Index of the token that the next node starts with.
    pub current: usize,
    pub tokens: Vec<Token>,
}

/// A string of the `ecow` crate with the characters of `s`.
fn eco(s: &str) -> (t: EcoString)
    ensures
        eco_chars(t) == s@,
{
    let mut t = EcoString::new();
    t.push_str(s);
    assert(eco_chars(t) =~= s@);
    t
}

fn incomplete_text(open: SyntaxKind) -> (r: &'static str)
    ensures
        r@ == incomplete_message(open),
{
    match open {
        SyntaxKind::Astrisk => "incomplete bold text",
        SyntaxKind::Slash => "incomplete italic text",
        SyntaxKind::Underscore => "incomplete underlined text",
        SyntaxKind::Tilda => "incomplete list text",
        SyntaxKind::Hyphen => "incomplete strikethrough text",
        _ => "",
    }
}

fn hint_text(open: SyntaxKind) -> (r: &'static str)
    ensures
        r@ == pairing_hint(open),
{
    match open {
        SyntaxKind::Astrisk => "text must be wrapped in asterisk pairs like *text*",
        SyntaxKind::Slash => "text must be wrapped in slash pairs like /text/",
        SyntaxKind::Underscore => "text must be wrapped in underscore pairs like _text_",
        SyntaxKind::Tilda => "text must be wrapped in tilde pairs like ~text~",
        SyntaxKind::Hyphen => "text must be wrapped in hyphen pairs like -text-",
        _ => "",
    }
}

/// The construct that a pair of delimiters of kind `open` makes.
fn pair_of(open: SyntaxKind) -> (r: Option<SyntaxKind>)
    ensures
        r == paired_kind(open),
{
    match open {
        SyntaxKind::Astrisk => Some(SyntaxKind::Bold),
        SyntaxKind::Slash => Some(SyntaxKind::Italic),
        SyntaxKind::Underscore => Some(SyntaxKind::UnderLined),
        SyntaxKind::Tilda => Some(SyntaxKind::ListItem),
        SyntaxKind::Hyphen => Some(SyntaxKind::StrikeThrough),
        _ => None,
    }
}

impl Parser {
    /// The tokens, each by its view.
    pub open spec fn views(self) -> Seq<TokenView> {
        token_views(self.tokens@)
    }

    /// A parser at the first of `tokens`.
    pub fn new(tokens: Vec<Token>) -> (p: Parser)
        ensures
            p.tokens == tokens,
            p.start == 0,
            p.current == 0,
    {
        Parser { current: 0, tokens, start: 0 }
    }

    fn is_at_end(&self) -> (r: bool)
        ensures
            r == (self.current >= self.tokens.len()),
    {
        self.current >= self.tokens.len()
    }

    /// The token under the cursor.
    fn peek(&self) -> (r: Option<&Token>)
        ensures
            self.current >= self.tokens.len() ==> r is None,
            self.current < self.tokens.len() ==> r == Some(&self.tokens[self.current as int]),
    {
        if self.is_at_end() {
            None
        } else {
            Some(&self.tokens[self.current])
        }
    }

    /// Reads the token under the cursor and steps over it.
    fn advance(&mut self) -> (r: Option<Token>)
        ensures
            final(self).tokens == old(self).tokens,
            final(self).start == old(self).start,
            old(self).current >= old(self).tokens.len() ==> r is None && final(self).current == old(
                self,
            ).current,
            old(self).current < old(self).tokens.len() ==> r == Some(
                old(self).tokens[old(self).current as int],
            ) && final(self).current == old(self).current + 1,
    {
        if self.is_at_end() {
            None
        } else {
            let token = self.tokens[self.current].clone();
            self.current = self.current + 1;
            Some(token)
        }
    }

    /// The token under the cursor, which stays where it is.
    pub fn next(&mut self) -> (r: Option<Token>)
        ensures
            *final(self) == *old(self),
            old(self).current >= old(self).tokens.len() ==> r is None,
            old(self).current < old(self).tokens.len() ==> r == Some(
                old(self).tokens[old(self).current as int],
            ),
    {
        if self.is_at_end() {
            None
        } else {
            Some(self.tokens[self.current].clone())
        }
    }

    /// Whether the token of index `at` is the first of its line,
    /// indentation aside.
    fn opens_line(&self, at: usize) -> (r: bool)
        requires
            at < self.tokens.len(),
        ensures
            r == at_line_start(self.views(), at as int),
    {
        if at == 0 {
            true
        } else {
            let before = self.tokens[at - 1].kind;
            before == SyntaxKind::NewLine || before == SyntaxKind::IndentWhiteSpace
        }
    }

    /// The node for the delimiter of kind `pat` at index `at`, which the
    /// cursor has just stepped over: the construct `made` where the pair is
    /// complete, an error node where it is not.
    fn delimeter_by(&mut self, at: usize, pat: SyntaxKind, made: SyntaxKind) -> (r: Repr)
        requires
            at < old(self).tokens.len(),
            old(self).current == at + 1,
            old(self).tokens[at as int].kind == pat,
            paired_kind(pat) == Some(made),
        ensures
            final(self).tokens == old(self).tokens,
            final(self).start == old(self).start,
            r@ == delimited(old(self).views(), at as int).0,
            final(self).current == delimited(old(self).views(), at as int).1,
    {
        let ghost views = self.views();
        let mut text = eco(self.tokens[at].text.as_str());
        let start = self.tokens[at].span.start;
        let mut end = self.tokens[at].span.end;
        let mut closed = false;
        let mut blank = false;
        let mut inner = EcoString::new();
        if let Some(next_token) = self.peek() {
            if next_token.kind == SyntaxKind::Text {
                let content = next_token.text.as_str();
                text.push_str(content);
                inner.push_str(content);
                blank = ends_with_char(content, ' ') || ends_with_char(content, '\t');
                end = next_token.span.end;
                self.advance();
                if let Some(closing_token) = self.peek() {
                    if closing_token.kind == pat {
                        text.push_str(closing_token.text.as_str());
                        end = closing_token.span.end;
                        closed = true;
                        self.advance();
                    }
                }
            }
        }
        let span = Span { start, end };
        if closed && !blank {
            assert(eco_chars(inner) =~= views[at + 1].text);
            Repr::SyntaxNode(SyntaxNode::new(made, inner, span))
        } else {
            let error = if closed {
                String::from_str("trailing whitespace")
            } else {
                String::from_str(incomplete_text(pat))
            };
            let hint = String::from_str(hint_text(pat));
            Repr::ErrorNode(ErrorNode::new(SyntaxKind::Error, text, Some(error), Some(hint), span))
        }
    }

    /// The node for the asterisk at index `at` that opens a line, which the
    /// cursor has just stepped over.
    fn heading(&mut self, at: usize) -> (r: Repr)
        requires
            at < old(self).tokens.len(),
            old(self).current == at + 1,
        ensures
            final(self).tokens == old(self).tokens,
            final(self).start == old(self).start,
            r@ == heading(old(self).views(), at as int).0,
            final(self).current == heading(old(self).views(), at as int).1,
    {
        let ghost views = self.views();
        let mut text = eco(self.tokens[at].text.as_str());
        let start = self.tokens[at].span.start;
        let mut end = self.tokens[at].span.end;
        let mut level: usize = if self.tokens[at].kind == SyntaxKind::Astrisk {
            1
        } else {
            0
        };
        assert(joined_text(views, at as int, at + 1) =~= views[at as int].text) by {
            assert(joined_text(views, at as int, at as int) =~= Seq::<char>::empty());
        }
        assert(stars(views, at as int, at + 1) == level) by {
            assert(stars(views, at as int, at as int) == 0);
        }
        let mut complete = true;
        loop
            invariant_except_break
                heading_end(views, self.current as int) == heading_end(views, at + 1),
            invariant
                self.tokens == old(self).tokens,
                self.start == old(self).start,
                views == token_views(self.tokens@),
                at < self.current <= self.tokens.len(),
                eco_chars(text) == joined_text(views, at as int, self.current as int),
                level == stars(views, at as int, self.current as int),
                level <= self.current - at,
                start == views[at as int].span.start,
                end == views[self.current - 1].span.end,
            ensures
                self.current == heading_end(views, at + 1),
                complete == closes_heading(views, self.current as int),
            decreases self.tokens.len() - self.current,
        {
            match self.peek() {
                None => {
                    complete = true;
                    break ;
                },
                Some(token) => {
                    let kind = token.kind;
                    if kind == SyntaxKind::WhiteSpace || kind == SyntaxKind::Text || kind
                        == SyntaxKind::Astrisk {
                        text.push_str(token.text.as_str());
                        end = token.span.end;
                        if kind == SyntaxKind::Astrisk {
                            level = level + 1;
                        }
                        self.advance();
                    } else {
                        complete = kind == SyntaxKind::NewLine || kind == SyntaxKind::Eof;
                        break ;
                    }
                },
            }
        }
        let span = Span { start, end };
        if complete {
            Repr::SyntaxNode(SyntaxNode::heading(text, span, level))
        } else {
            Repr::ErrorNode(
                ErrorNode::new(
                    SyntaxKind::Error,
                    text,
                    Some(String::from_str("unexpected token in heading")),
                    Some(
                        String::from_str(
                            "a heading holds text, spaces and asterisks up to the end of its line",
                        ),
                    ),
                    span,
                ),
            )
        }
    }

    /// Steps over the tokens of one node and gives the node. Where no token
    /// is left, the node is an end-of-input node without text at the unset
    /// span, and the cursor stays.
    pub fn scan(&mut self) -> (r: Repr)
        ensures
            final(self).tokens == old(self).tokens,
            final(self).start == old(self).current,
            old(self).current < old(self).tokens.len() ==> {
                &&& r@ == step(old(self).views(), old(self).current as int).0
                &&& final(self).current == step(old(self).views(), old(self).current as int).1
            },
            old(self).current >= old(self).tokens.len() ==> {
                &&& r@ == end_node()
                &&& final(self).current == old(self).current
            },
    {
        self.start = self.current;
        let at = self.current;
        match self.advance() {
            Some(token) => {
                match pair_of(token.kind) {
                    Some(made) => {
                        if token.kind == SyntaxKind::Astrisk && self.opens_line(at) {
                            self.heading(at)
                        } else {
                            self.delimeter_by(at, token.kind, made)
                        }
                    },
                    None => Repr::SyntaxNode(
                        SyntaxNode::new(token.kind, eco(token.text.as_str()), token.span),
                    ),
                }
            },
            None => Repr::SyntaxNode(
                SyntaxNode::new(SyntaxKind::Eof, EcoString::new(), Span::default()),
            ),
        }
    }

    /// The nodes of the tokens from the cursor up to the closing token,
    /// which gets no node.
    pub fn parse(&mut self) -> (nodes: Vec<Node>)
        ensures
            final(self).tokens == old(self).tokens,
            node_views(nodes@) == parse_from(old(self).views(), old(self).current as int),
            final(self).current == parse_end(old(self).views(), old(self).current as int),
            final(self).start == parse_start(
                old(self).views(),
                old(self).current as int,
                old(self).start as int,
            ),
    {
        let ghost views = self.views();
        let ghost from = self.current as int;
        let mut nodes: Vec<Node> = Vec::new();
        loop
            invariant_except_break
                node_views(nodes@) + parse_from(views, self.current as int) =~= parse_from(
                    views,
                    from,
                ),
                parse_end(views, self.current as int) == parse_end(views, from),
                parse_start(views, self.current as int, self.start as int) == parse_start(
                    views,
                    from,
                    old(self).start as int,
                ),
            invariant
                self.tokens == old(self).tokens,
                views == token_views(self.tokens@),
            ensures
                node_views(nodes@) =~= parse_from(views, from),
                self.current == parse_end(views, from),
                self.start == parse_start(views, from, old(self).start as int),
            decreases self.tokens.len() - self.current,
        {
            let ghost before = node_views(nodes@);
            match self.peek() {
                None => {
                    break ;
                },
                Some(token) => {
                    if token.kind == SyntaxKind::Eof {
                        break ;
                    }
                },
            }
            proof {
                lemma_step_bounds(views, self.current as int);
            }
            let node = Node(self.scan());
            nodes.push(node);
            proof {
                assert(node_views(nodes@) =~= before.push(node@));
            }
        }
        nodes
    }
}

/// The delimiter that a construct is written with: its kind and its
/// character.
pub open spec fn delimiter_of(made: SyntaxKind) -> Option<(SyntaxKind, char)> {
    match made {
        SyntaxKind::Bold => Some((SyntaxKind::Astrisk, '*')),
        SyntaxKind::Italic => Some((SyntaxKind::Slash, '/')),
        SyntaxKind::UnderLined => Some((SyntaxKind::Underscore, '_')),
        SyntaxKind::ListItem => Some((SyntaxKind::Tilda, '~')),
        SyntaxKind::StrikeThrough => Some((SyntaxKind::Hyphen, '-')),
        _ => None,
    }
}

/// The character that a construct is written with; a space for a kind that
/// is no such construct.
pub open spec fn delimiter_char(made: SyntaxKind) -> char {
    match delimiter_of(made) {
        Some((_, c)) => c,
        None => ' ',
    }
}

/// The spans of the opening delimiter, of the text and of the closing
/// delimiter within the span of a pair, each delimiter being one byte. A
/// span too short for two delimiters is given to all three.
pub open spec fn pair_spans(span: Span) -> (Span, Span, Span) {
    if span.end - span.start >= 2 {
        (
            Span { start: span.start, end: (span.start + 1) as usize },
            Span { start: (span.start + 1) as usize, end: (span.end - 1) as usize },
            Span { start: (span.end - 1) as usize, end: span.end },
        )
    } else {
        (span, span, span)
    }
}

/// The tree that a node of the parser resolves into. A pair becomes an
/// inner node over its opening delimiter, its text and its closing
/// delimiter; any other node becomes a leaf, and an error node an error
/// node.
pub open spec fn resolved(node: NodeView) -> Tree {
    match node {
        NodeView::Syntax { kind, text, span, level } => match delimiter_of(kind) {
            Some((mark, c)) => Tree::Inner {
                kind,
                span,
                children: seq![
                    Tree::Leaf { kind: mark, text: seq![c], span: pair_spans(span).0 },
                    Tree::Leaf { kind: SyntaxKind::Text, text, span: pair_spans(span).1 },
                    Tree::Leaf { kind: mark, text: seq![c], span: pair_spans(span).2 },
                ],
            },
            None => Tree::Leaf { kind, text, span },
        },
        NodeView::Error { kind, text, error, hint, span } => Tree::Error {
            text,
            span,
            message: match error {
                Some(m) => m,
                None => Seq::empty(),
            },
            hints: match hint {
                Some(h) => seq![h],
                None => Seq::empty(),
            },
        },
    }
}

/// The trees that a run of nodes resolves into.
pub open spec fn resolved_all(nodes: Seq<NodeView>) -> Seq<Tree> {
    nodes.map_values(|n: NodeView| resolved(n))
}

/// The delimiter that the construct `made` is written with.
fn mark_of(made: SyntaxKind) -> (r: Option<(SyntaxKind, &'static str)>)
    ensures
        match r {
            Some((mark, s)) => delimiter_of(made) == Some((mark, s@[0])) && s@.len() == 1,
            None => delimiter_of(made) is None,
        },
{
    proof {
        reveal_strlit("*");
        reveal_strlit("/");
        reveal_strlit("_");
        reveal_strlit("~");
        reveal_strlit("-");
    }
    match made {
        SyntaxKind::Bold => Some((SyntaxKind::Astrisk, "*")),
        SyntaxKind::Italic => Some((SyntaxKind::Slash, "/")),
        SyntaxKind::UnderLined => Some((SyntaxKind::Underscore, "_")),
        SyntaxKind::ListItem => Some((SyntaxKind::Tilda, "~")),
        SyntaxKind::StrikeThrough => Some((SyntaxKind::Hyphen, "-")),
        _ => None,
    }
}

fn split_pair(span: Span) -> (r: (Span, Span, Span))
    ensures
        r == pair_spans(span),
{
    if span.start <= span.end && span.end - span.start >= 2 {
        (
            Span { start: span.start, end: span.start + 1 },
            Span { start: span.start + 1, end: span.end - 1 },
            Span { start: span.end - 1, end: span.end },
        )
    } else {
        (span, span, span)
    }
}

impl SyntaxNode {
    fn resolve(&self) -> (r: crate::node::SyntaxNode)
        ensures
            r@ == resolved(self@),
    {
        match mark_of(self.kind) {
            Some((mark, s)) => {
                let (open, inner, close) = split_pair(self.span);
                let mut children: Vec<crate::node::SyntaxNode> = Vec::new();
                children.push(crate::node::SyntaxNode::leaf(mark, eco(s), open));
                children.push(
                    crate::node::SyntaxNode::leaf(SyntaxKind::Text, self.text.clone(), inner),
                );
                children.push(crate::node::SyntaxNode::leaf(mark, eco(s), close));
                assert(s@ =~= seq![s@[0]]);
                assert(crate::node::views(children@) =~= resolved(self@)->Inner_children);
                crate::node::SyntaxNode::inner(self.kind, children, self.span)
            },
            None => crate::node::SyntaxNode::leaf(self.kind, self.text.clone(), self.span),
        }
    }
}

impl ErrorNode {
    fn resolve(&self) -> (r: crate::node::SyntaxNode)
        ensures
            r@ == resolved(self@),
    {
        let message = match &self.error {
            Some(m) => eco(m.as_str()),
            None => EcoString::new(),
        };
        let mut error = SyntaxError::new(message);
        error.span = self.span;
        match &self.hint {
            Some(h) => {
                hints_push(&mut error.hints, eco(h.as_str()));
                assert(eco_items(error.hints) =~= seq![h@]);
            },
            None => {},
        }
        crate::node::SyntaxNode::error(error, self.text.clone())
    }
}

impl SyntaxNode {
    /// How the node is written: its kind, its text in quotes, its span.
    pub open spec fn rendered(node: NodeView) -> Seq<char> {
        node.kind().label() + ": "@ + debug_form(node.text()) + " "@ + node.span().rendered()
    }

    /// Writes the node.
    pub fn to_text(&self) -> (s: String)
        ensures
            s@ == Self::rendered(self@),
    {
        let quoted = debug_quoted(self.text.as_str());
        let span = self.span.to_text();
        labelled(self.kind.name(), quoted.as_str(), span.as_str())
    }
}

impl ErrorNode {
    /// Writes the text that the node covers.
    pub fn to_text(&self) -> (s: String)
        ensures
            s@ == self@.text(),
    {
        String::from_str(self.text.as_str())
    }
}

impl Repr {
    /// How the node is written: its kind, its text in quotes, and for an
    /// error node what went wrong.
    pub open spec fn rendered(node: NodeView) -> Seq<char> {
        node.kind().label() + ": "@ + debug_form(node.text()) + " "@ + match node.errors() {
            Some(m) => m,
            None => Seq::empty(),
        }
    }

    /// Writes the node.
    pub fn to_text(&self) -> (s: String)
        ensures
            s@ == Self::rendered(self@),
    {
        match self {
            Repr::SyntaxNode(syn) => {
                let quoted = debug_quoted(syn.text.as_str());
                let s = labelled(syn.kind.name(), quoted.as_str(), "");
                proof {
                    reveal_strlit("");
                }
                assert(s@ =~= Self::rendered(self@));
                s
            },
            Repr::ErrorNode(err) => {
                let quoted = debug_quoted(err.text.as_str());
                match &err.error {
                    Some(m) => labelled(err.kind.name(), quoted.as_str(), m.as_str()),
                    None => {
                        let s = labelled(err.kind.name(), quoted.as_str(), "");
                        proof {
                    reveal_strlit("");
                }
                assert(s@ =~= Self::rendered(self@));
                        s
                    },
                }
            },
        }
    }

    /// The kind of the node.
    pub fn kind(&self) -> (k: &SyntaxKind)
        ensures
            *k == self@.kind(),
    {
        match self {
            Repr::SyntaxNode(syn) => &syn.kind,
            Repr::ErrorNode(err) => &err.kind,
        }
    }

    /// The name of the form that the node has.
    pub fn type_is(&self) -> (r: &'static str)
        ensures
            r@ == if self@ is Syntax {
                "SyntaxNode"@
            } else {
                "ErrorNode"@
            },
    {
        match self {
            Repr::SyntaxNode(_) => "SyntaxNode",
            Repr::ErrorNode(_) => "ErrorNode",
        }
    }
}

impl Node {
    /// Writes the node as its form is written.
    pub fn to_text(&self) -> (s: String)
        ensures
            s@ == Repr::rendered(self@),
    {
        self.0.to_text()
    }

    /// The name of the form that the node has.
    pub fn type_is(&self) -> (r: &'static str)
        ensures
            r@ == if self@ is Syntax {
                "SyntaxNode"@
            } else {
                "ErrorNode"@
            },
    {
        self.0.type_is()
    }

    /// The text of the node: that of a token, the inside of a pair, all of
    /// a heading, or what an error node covers.
    pub fn text(&self) -> (r: String)
        ensures
            r@ == self@.text(),
    {
        match &self.0 {
            Repr::SyntaxNode(syn) => String::from_str(syn.text.as_str()),
            Repr::ErrorNode(err) => String::from_str(err.text.as_str()),
        }
    }

    /// The kind of the node.
    pub fn kind(&self) -> (k: SyntaxKind)
        ensures
            k == self@.kind(),
    {
        match &self.0 {
            Repr::SyntaxNode(syn) => syn.kind,
            Repr::ErrorNode(err) => err.kind,
        }
    }

    /// The bytes of the source that the node covers.
    pub fn span(&self) -> (s: Span)
        ensures
            s == self@.span(),
    {
        match &self.0 {
            Repr::SyntaxNode(syn) => syn.span,
            Repr::ErrorNode(err) => err.span,
        }
    }

    /// What went wrong, for an error node; nothing for any other node.
    pub fn errors(&self) -> (e: Option<String>)
        ensures
            option_chars(e) == self@.errors(),
    {
        match &self.0 {
            Repr::SyntaxNode(_) => None,
            Repr::ErrorNode(err) => match &err.error {
                Some(m) => Some(m.clone()),
                None => None,
            },
        }
    }

    /// The depth of a heading; zero for any other node.
    pub fn level(&self) -> (l: usize)
        ensures
            l == self@.level(),
    {
        match &self.0 {
            Repr::SyntaxNode(syn) => syn.level,
            Repr::ErrorNode(_) => 0,
        }
    }

    /// The tree node that this node resolves into.
    pub fn resolve(&self) -> (r: crate::node::SyntaxNode)
        ensures
            r@ == resolved(self@),
    {
        match &self.0 {
            Repr::SyntaxNode(syn) => syn.resolve(),
            Repr::ErrorNode(err) => err.resolve(),
        }
    }
}

/// Whether every token is as the lexer cuts it.
pub open spec fn all_lexical(tokens: Seq<TokenView>) -> bool {
    forall|k: int| 0 <= k < tokens.len() ==> lexical(#[trigger] tokens[k])
}

/// The text of a resolved pair: its delimiter, its text, its delimiter.
proof fn lemma_pair_text(kind: SyntaxKind, text: Seq<char>, span: Span)
    requires
        delimiter_of(kind) is Some,
    ensures
        resolved(NodeView::Syntax { kind, text, span, level: 0 }).full_text() == seq![
            delimiter_char(kind),
        ] + text + seq![delimiter_char(kind)],
{
    let tree = resolved(NodeView::Syntax { kind, text, span, level: 0 });
    let children = tree->Inner_children;
    lemma_full_text_one(children[0]);
    lemma_full_text_push(seq![children[0]], children[1]);
    lemma_full_text_push(seq![children[0], children[1]], children[2]);
    assert(seq![children[0]].push(children[1]) =~= seq![children[0], children[1]]);
    assert(seq![children[0], children[1]].push(children[2]) =~= children);
}

/// The tree of a node stands for the texts of the tokens that the node
/// covers, joined, where the tokens are as the lexer cuts them.
pub proof fn lemma_step_text(tokens: Seq<TokenView>, i: int)
    requires
        0 <= i < tokens.len(),
        all_lexical(tokens),
    ensures
        resolved(step(tokens, i).0).full_text() == joined_text(tokens, i, step(tokens, i).1),
{
    let token = tokens[i];
    assert(lexical(token));
    assert(joined_text(tokens, i, i + 1) =~= token.text) by {
        assert(joined_text(tokens, i, i) =~= Seq::<char>::empty());
    }
    if token.kind == SyntaxKind::Astrisk && at_line_start(tokens, i) {
    } else if paired_kind(token.kind) is Some {
        if i + 1 < tokens.len() && tokens[i + 1].kind == SyntaxKind::Text {
            assert(joined_text(tokens, i, i + 2) =~= token.text + tokens[i + 1].text);
            if i + 2 < tokens.len() && tokens[i + 2].kind == token.kind {
                assert(lexical(tokens[i + 2]));
                assert(joined_text(tokens, i, i + 3) =~= token.text + tokens[i + 1].text
                    + tokens[i + 2].text);
                if !ends_with_blank(tokens[i + 1].text) {
                    let made = paired_kind(token.kind)->0;
                    lemma_pair_text(
                        made,
                        tokens[i + 1].text,
                        Span { start: token.span.start, end: tokens[i + 2].span.end },
                    );
                    assert(token.text =~= seq![delimiter_char(made)]);
                    assert(tokens[i + 2].text =~= seq![delimiter_char(made)]);
                }
            }
        }
    } else {
    }
}

/// The trees of the nodes from the token of index `i` on stand for the
/// texts of the tokens up to the closing one, joined, where the tokens are
/// as the lexer cuts them: the parser drops nothing.
pub proof fn lemma_parse_text(tokens: Seq<TokenView>, i: int)
    requires
        0 <= i <= tokens.len(),
        all_lexical(tokens),
    ensures
        full_text_of(resolved_all(parse_from(tokens, i))) == joined_text(
            tokens,
            i,
            parse_end(tokens, i),
        ),
        i <= parse_end(tokens, i) <= tokens.len(),
    decreases tokens.len() - i,
{
    if i < tokens.len() && tokens[i].kind != SyntaxKind::Eof {
        lemma_step_bounds(tokens, i);
        let (node, next) = step(tokens, i);
        let rest = parse_from(tokens, next);
        lemma_parse_text(tokens, next);
        lemma_step_text(tokens, i);
        assert(resolved_all(parse_from(tokens, i)) =~= seq![resolved(node)] + resolved_all(rest));
        lemma_full_text_concat(seq![resolved(node)], resolved_all(rest));
        lemma_full_text_one(resolved(node));
        lemma_joined_split(tokens, i, next, parse_end(tokens, i));
    } else {
        assert(resolved_all(parse_from(tokens, i)) =~= Seq::<Tree>::empty());
    }
}

/// A heading stops at or before any token that it does not take in.
pub proof fn lemma_heading_end_stops(tokens: Seq<TokenView>, j: int, m: int)
    requires
        0 <= j <= m < tokens.len(),
        !continues_heading(tokens[m].kind),
    ensures
        heading_end(tokens, j) <= m,
    decreases m - j,
{
    if j < m && continues_heading(tokens[j].kind) {
        lemma_heading_end_stops(tokens, j + 1, m);
    }
}

/// Parsing stops at the first closing token.
pub proof fn lemma_parse_end(tokens: Seq<TokenView>, i: int, m: int)
    requires
        0 <= i <= m < tokens.len(),
        tokens[m].kind == SyntaxKind::Eof,
        forall|k: int| i <= k < m ==> (#[trigger] tokens[k]).kind != SyntaxKind::Eof,
    ensures
        parse_end(tokens, i) == m,
    decreases m - i,
{
    if i < m {
        lemma_step_bounds(tokens, i);
        lemma_heading_end_stops(tokens, i + 1, m);
        let next = step(tokens, i).1;
        assert(next <= m);
        lemma_parse_end(tokens, next, m);
    }
}

/// Whether two runs of tokens are the same apart from their spans.
pub open spec fn same_tokens(a: Seq<TokenView>, b: Seq<TokenView>) -> bool {
    &&& a.len() == b.len()
    &&& forall|k: int| 0 <= k < a.len() ==> same_token(#[trigger] a[k], b[k])
}

/// Whether the tokens of `a` from index `ia` on and the tokens of `b` from
/// index `ib` on are the same apart from their spans, and both open a line
/// or neither does.
pub open spec fn aligned(a: Seq<TokenView>, ia: int, b: Seq<TokenView>, ib: int) -> bool {
    &&& 0 <= ia <= a.len()
    &&& 0 <= ib <= b.len()
    &&& a.len() - ia == b.len() - ib
    &&& at_line_start(a, ia) == at_line_start(b, ib)
    &&& forall|x: int| ia <= x < a.len() ==> same_token(#[trigger] a[x], b[x - ia + ib])
}

/// Where a heading ends depends on the kinds of the tokens behind its start
/// alone.
pub proof fn lemma_heading_end_aligned(
    a: Seq<TokenView>,
    ia: int,
    b: Seq<TokenView>,
    ib: int,
    x: int,
)
    requires
        aligned(a, ia, b, ib),
        ia <= x <= a.len(),
    ensures
        heading_end(b, x - ia + ib) == heading_end(a, x) - ia + ib,
    decreases a.len() - x,
{
    if x < a.len() {
        assert(same_token(a[x], b[x - ia + ib]));
        if continues_heading(a[x].kind) {
            lemma_heading_end_aligned(a, ia, b, ib, x + 1);
        }
    }
}

/// The level of a heading depends on the kinds of its tokens alone.
pub proof fn lemma_stars_aligned(
    a: Seq<TokenView>,
    ia: int,
    b: Seq<TokenView>,
    ib: int,
    x: int,
    y: int,
)
    requires
        aligned(a, ia, b, ib),
        ia <= x <= y <= a.len(),
    ensures
        stars(a, x, y) == stars(b, x - ia + ib, y - ia + ib),
    decreases y - x,
{
    if x < y {
        lemma_stars_aligned(a, ia, b, ib, x, y - 1);
        assert(same_token(a[y - 1], b[y - 1 - ia + ib]));
    }
}

/// A node depends on the kinds and texts of the tokens from its first one
/// on, and on whether that one opens a line; on nothing else.
pub proof fn lemma_step_aligned(a: Seq<TokenView>, ia: int, b: Seq<TokenView>, ib: int, x: int)
    requires
        aligned(a, ia, b, ib),
        ia <= x < a.len(),
    ensures
        step(b, x - ia + ib).1 == step(a, x).1 - ia + ib,
        resolved(step(a, x).0).spanless_eq(resolved(step(b, x - ia + ib).0)),
        step(a, x).0.kind() == step(b, x - ia + ib).0.kind(),
        step(a, x).0.text() == step(b, x - ia + ib).0.text(),
        step(a, x).0.level() == step(b, x - ia + ib).0.level(),
        step(a, x).0.errors() == step(b, x - ia + ib).0.errors(),
{
    let y = x - ia + ib;
    assert(same_token(a[x], b[y]));
    if x > ia {
        assert(same_token(a[x - 1], b[x - 1 - ia + ib]));
    }
    assert(at_line_start(a, x) == at_line_start(b, y));
    if x + 1 < a.len() {
        assert(same_token(a[x + 1], b[x + 1 - ia + ib]));
    }
    if x + 2 < a.len() {
        assert(same_token(a[x + 2], b[x + 2 - ia + ib]));
    }
    lemma_heading_end_aligned(a, ia, b, ib, x + 1);
    lemma_heading_end_bounds(a, x + 1);
    let j = heading_end(a, x + 1);
    if j < a.len() {
        assert(same_token(a[j], b[j - ia + ib]));
    }
    lemma_stars_aligned(a, ia, b, ib, x, j);
    assert forall|d: int| 0 <= d < j - x implies (#[trigger] a[x + d]).text == b[y + d].text by {
        assert(same_token(a[x + d], b[x + d - ia + ib]));
    }
    lemma_joined_same(a, x, b, y, j - x);
    let u = resolved(step(a, x).0);
    let v = resolved(step(b, y).0);
    if u is Inner {
        lemma_all_spanless_eq(u->Inner_children, v->Inner_children);
    }
}

/// The parser reads kinds and texts alone: of two runs of tokens that are
/// the same apart from their spans it makes equally many nodes, equal
/// apart from spans place by place.
pub proof fn lemma_parse_aligned(a: Seq<TokenView>, ia: int, b: Seq<TokenView>, ib: int, x: int)
    requires
        aligned(a, ia, b, ib),
        ia <= x <= a.len(),
    ensures
        all_spanless_eq(
            resolved_all(parse_from(a, x)),
            resolved_all(parse_from(b, x - ia + ib)),
        ),
    decreases a.len() - x,
{
    let y = x - ia + ib;
    let u = resolved_all(parse_from(a, x));
    let v = resolved_all(parse_from(b, y));
    if x < a.len() {
        assert(same_token(a[x], b[y]));
    }
    if x < a.len() && a[x].kind != SyntaxKind::Eof {
        lemma_step_bounds(a, x);
        lemma_step_aligned(a, ia, b, ib, x);
        let next = step(a, x).1;
        lemma_parse_aligned(a, ia, b, ib, next);
        let ur = resolved_all(parse_from(a, next));
        let vr = resolved_all(parse_from(b, next - ia + ib));
        lemma_all_spanless_eq(ur, vr);
        assert(u =~= seq![resolved(step(a, x).0)] + ur);
        assert(v =~= seq![resolved(step(b, y).0)] + vr);
        lemma_all_spanless_eq(u, v);
    } else {
        assert(u =~= Seq::<Tree>::empty());
        assert(v =~= Seq::<Tree>::empty());
    }
}

/// Whether `h` is the start of `a` up to a line feed, closed by a closing
/// token of its own: all tokens of `h` but the last are the first tokens of
/// `a`, none of them closes the stream, and the last of them is a line
/// feed.
pub open spec fn heads(h: Seq<TokenView>, a: Seq<TokenView>) -> bool {
    &&& 1 <= h.len() <= a.len() + 1
    &&& h.last().kind == SyntaxKind::Eof
    &&& forall|d: int|
        0 <= d < h.len() - 1 ==> #[trigger] h[d] == a[d] && h[d].kind != SyntaxKind::Eof
    &&& h.len() > 1 ==> h[h.len() - 2].kind == SyntaxKind::NewLine
}

/// A heading stops at the line feed that ends the head, in the head as in
/// the whole.
pub proof fn lemma_heading_end_head(h: Seq<TokenView>, a: Seq<TokenView>, j: int)
    requires
        heads(h, a),
        0 <= j <= h.len() - 2,
    ensures
        heading_end(a, j) == heading_end(h, j),
        heading_end(h, j) <= h.len() - 2,
    decreases h.len() - j,
{
    assert(h[j] == a[j]);
    if j < h.len() - 2 && continues_heading(h[j].kind) {
        lemma_heading_end_head(h, a, j + 1);
    }
}

/// The level of a heading is counted over its own tokens.
pub proof fn lemma_stars_head(h: Seq<TokenView>, a: Seq<TokenView>, i: int, j: int)
    requires
        heads(h, a),
        0 <= i <= j <= h.len() - 1,
    ensures
        stars(a, i, j) == stars(h, i, j),
    decreases j - i,
{
    if i < j {
        lemma_stars_head(h, a, i, j - 1);
        assert(h[j - 1] == a[j - 1]);
    }
}

/// Within the head, each node is the node of the head alone, and ends
/// within the head.
pub proof fn lemma_step_head(h: Seq<TokenView>, a: Seq<TokenView>, i: int)
    requires
        heads(h, a),
        0 <= i < h.len() - 1,
    ensures
        step(a, i) == step(h, i),
        step(h, i).1 <= h.len() - 1,
{
    let k = h.len() - 1;
    assert(h[i] == a[i]);
    assert(h[k - 1] == a[k - 1]);
    if i > 0 {
        assert(h[i - 1] == a[i - 1]);
    }
    if i + 1 < k {
        assert(h[i + 1] == a[i + 1]);
        lemma_heading_end_head(h, a, i + 1);
        lemma_heading_end_bounds(h, i + 1);
        let j = heading_end(h, i + 1);
        assert(h[j] == a[j]);
        assert(h[j - 1] == a[j - 1]);
        lemma_stars_head(h, a, i, j);
        assert forall|d: int| 0 <= d < j - i implies (#[trigger] a[i + d]).text == h[i + d].text by {
            assert(h[i + d] == a[i + d]);
        }
        lemma_joined_same(a, i, h, i, j - i);
    }
    if i + 2 < k {
        assert(h[i + 2] == a[i + 2]);
    }
}

/// The nodes of the whole are the nodes of the head, then the nodes from
/// the end of the head on.
pub proof fn lemma_parse_head(h: Seq<TokenView>, a: Seq<TokenView>, i: int)
    requires
        heads(h, a),
        0 <= i <= h.len() - 1,
    ensures
        parse_from(a, i) == parse_from(h, i) + parse_from(a, h.len() - 1),
    decreases h.len() - i,
{
    let k = h.len() - 1;
    if i < k {
        assert(h[i] == a[i]);
        lemma_step_head(h, a, i);
        lemma_step_bounds(h, i);
        lemma_parse_head(h, a, step(h, i).1);
        assert(parse_from(a, i) =~= parse_from(h, i) + parse_from(a, k));
    } else {
        assert(parse_from(h, i) =~= Seq::<NodeView>::empty());
        assert(parse_from(a, i) =~= parse_from(h, i) + parse_from(a, k));
    }
}

/// A node covers the bytes from the start of its first token to the end
/// of its last one.
pub proof fn lemma_step_span(tokens: Seq<TokenView>, i: int)
    requires
        0 <= i < tokens.len(),
    ensures
        step(tokens, i).0.span() == (Span {
            start: tokens[i].span.start,
            end: tokens[step(tokens, i).1 - 1].span.end,
        }),
{
}

/// Whether the node of index `j + 1` starts at the byte where the node of
/// index `j` ends.
pub open spec fn abuts(nodes: Seq<NodeView>, j: int) -> bool {
    nodes[j].span().end == nodes[j + 1].span().start
}

/// Where each token starts at the end of the one before, so does each
/// node: the nodes from the token of index `i` on cover, without gap or
/// overlap, the bytes from the start of that token to where parsing stops.
pub proof fn lemma_parse_spans(tokens: Seq<TokenView>, i: int)
    requires
        0 <= i <= tokens.len(),
        forall|k: int| 0 <= k < tokens.len() - 1 ==> #[trigger] adjoins(tokens, k),
    ensures
        ({
            let nodes = parse_from(tokens, i);
            &&& nodes.len() > 0 ==> nodes[0].span().start == tokens[i].span.start
            &&& nodes.len() > 0 ==> i < parse_end(tokens, i) && nodes.last().span().end
                == tokens[parse_end(tokens, i) - 1].span.end
            &&& nodes.len() == 0 ==> parse_end(tokens, i) == i
            &&& forall|j: int| 0 <= j < nodes.len() - 1 ==> #[trigger] abuts(nodes, j)
        }),
    decreases tokens.len() - i,
{
    let nodes = parse_from(tokens, i);
    if i < tokens.len() && tokens[i].kind != SyntaxKind::Eof {
        lemma_step_bounds(tokens, i);
        lemma_step_span(tokens, i);
        let next = step(tokens, i).1;
        let rest = parse_from(tokens, next);
        lemma_parse_spans(tokens, next);
        assert(nodes =~= seq![step(tokens, i).0] + rest);
        if rest.len() > 0 {
            assert(nodes.last() == rest.last());
            assert(adjoins(tokens, next - 1));
            assert(nodes[1] == rest[0]);
        }
        assert forall|j: int| 0 <= j < nodes.len() - 1 implies #[trigger] abuts(nodes, j) by {
            assert(nodes[j + 1] == rest[j]);
            if j > 0 {
                assert(nodes[j] == rest[j - 1]);
                assert(abuts(rest, j - 1));
            }
        }
    }
}

/// Where each token starts at the end of the one before and none ends
/// before it starts, no node ends before it starts.
pub proof fn lemma_parse_valid(tokens: Seq<TokenView>, i: int)
    requires
        0 <= i <= tokens.len(),
        forall|k: int| 0 <= k < tokens.len() - 1 ==> #[trigger] adjoins(tokens, k),
        forall|k: int| 0 <= k < tokens.len() ==> (#[trigger] tokens[k]).span.is_valid(),
    ensures
        forall|j: int|
            0 <= j < parse_from(tokens, i).len() ==> (#[trigger] parse_from(
                tokens,
                i,
            )[j]).span().is_valid(),
    decreases tokens.len() - i,
{
    let nodes = parse_from(tokens, i);
    if i < tokens.len() && tokens[i].kind != SyntaxKind::Eof {
        lemma_step_bounds(tokens, i);
        lemma_step_span(tokens, i);
        let next = step(tokens, i).1;
        let rest = parse_from(tokens, next);
        lemma_parse_valid(tokens, next);
        lemma_spans_ordered(tokens, i, next - 1);
        assert(nodes =~= seq![step(tokens, i).0] + rest);
        assert forall|j: int| 0 <= j < nodes.len() implies (#[trigger] nodes[j]).span().is_valid() by {
            if j > 0 {
                assert(nodes[j] == rest[j - 1]);
            }
        }
    }
}

/// A construct in bold type.
#[derive(Debug, Clone, PartialEq, Eq, Hash)]
pub struct Bold(pub SyntaxNode);

/// The text of a construct under way, with what is known of its failure.
#[derive(Debug, Clone, PartialEq, Eq, Hash)]
pub struct LeafNode {
    text: EcoString,
    span: Span,
    error: Option<String>,
    hints: Option<String>,
}

impl LeafNode {
    /// The characters of the text.
    pub closed spec fn chars(self) -> Seq<char> {
        eco_chars(self.text)
    }

    /// The bytes covered.
    pub closed spec fn covered(self) -> Span {
        self.span
    }

    /// What went wrong, if anything did.
    pub closed spec fn failure(self) -> Option<Seq<char>> {
        option_chars(self.error)
    }

    /// The advice for the user, if there is any.
    pub closed spec fn advice(self) -> Option<Seq<char>> {
        option_chars(self.hints)
    }

    pub fn new(text: EcoString, span: Span, error: Option<String>, hints: Option<String>) -> (n:
        LeafNode)
        ensures
            n.chars() == eco_chars(text),
            n.covered() == span,
            n.failure() == option_chars(error),
            n.advice() == option_chars(hints),
    {
        LeafNode { text, span, error, hints }
    }
}

/// A construct under way, by the kind of its delimiter.
#[derive(Debug, Clone, PartialEq, Eq, Hash)]
pub enum Expr {
    Bold(LeafNode),
    Italics(LeafNode),
    Error(LeafNode),
}

impl Expr {
    /// The text under way.
    pub open spec fn leaf(self) -> LeafNode {
        match self {
            Expr::Bold(leaf) => leaf,
            Expr::Italics(leaf) => leaf,
            Expr::Error(leaf) => leaf,
        }
    }

    /// What is said of a construct that was left open: one sentence that
    /// names the byte at which it starts.
    pub fn errors(&self) -> (r: Vec<String>)
        ensures
            r@.len() == 1,
            r@[0]@ == "Unclosed delimeter "@ + decimal_chars(self.leaf().covered().start as nat),
    {
        let start = match self {
            Expr::Bold(leaf_node) => leaf_node.span.start,
            Expr::Italics(leaf_node) => leaf_node.span.start,
            Expr::Error(leaf_node) => leaf_node.span.start,
        };
        let mut message = String::from_str("Unclosed delimeter ");
        let digits = decimal(start);
        message.append(digits.as_str());
        let mut r: Vec<String> = Vec::new();
        r.push(message);
        r
    }
}

} // verus!
