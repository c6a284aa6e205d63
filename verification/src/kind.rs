//! The closed set of tags that tokens and nodes carry.

use vstd::prelude::*;

verus! {

/// Tag of a token or of a node.
#[derive(Debug, PartialEq, Eq, Clone, Copy, Hash, Structural)]
pub enum SyntaxKind {
    /// `[`
    LeftSqBrackets,
    /// `]`
    RightSqBrackets,
    /// `(`
    LeftParen,
    /// `)`
    RightParen,
    /// `{`
    LeftCurlyBraces,
    /// `}`
    RightCurlyBraces,
    /// `/`
    Slash,
    /// `*`
    Astrisk,
    /// `~`
    Tilda,
    /// `-`
    Hyphen,
    /// `:`
    SemiColon,
    /// `#`
    HashTag,
    /// `=`
    Equal,
    /// `%`
    Percentage,
    /// A run of spaces and tabs inside a line.
    WhiteSpace,
    /// A line feed.
    NewLine,
    /// A run of ordinary characters.
    Text,
    /// End of input; closes every token stream.
    Eof,
    /// `_`
    Underscore,
    /// `@`
    At,
    /// A region that matched no rule.
    Error,
    /// Root of a document.
    Root,
    /// A run of spaces and tabs that opens a line.
    IndentWhiteSpace,
    /// `` ` ``
    CodeMarker,
    /// `^`
    SuperScriptMarker,
    /// `,`
    SubScriptMarker,
    /// A heading line.
    Heading,
    /// Text between a pair of `*`.
    Bold,
    /// Text between a pair of `/`.
    Italic,
    /// Text between a pair of `_`.
    UnderLined,
    /// Text between a pair of `-`.
    StrikeThrough,
    /// Text between a pair of `~`.
    ListItem,
}

impl SyntaxKind {
    /// The kinds of the single characters that open and close an inline span.
    pub open spec fn is_delimiter(self) -> bool {
        self == SyntaxKind::Astrisk || self == SyntaxKind::Slash || self == SyntaxKind::Underscore
            || self == SyntaxKind::Tilda || self == SyntaxKind::Hyphen || self == SyntaxKind::At
    }

    /// The kinds that carry layout only.
    pub open spec fn is_trivia(self) -> bool {
        self == SyntaxKind::WhiteSpace || self == SyntaxKind::IndentWhiteSpace || self
            == SyntaxKind::NewLine
    }

    /// The kinds that only the parser gives to a node.
    pub open spec fn is_structural(self) -> bool {
        self == SyntaxKind::Heading || self == SyntaxKind::Bold || self == SyntaxKind::Italic
            || self == SyntaxKind::UnderLined || self == SyntaxKind::StrikeThrough || self
            == SyntaxKind::ListItem
    }

    /// The upper-case label of each kind.
    pub open spec fn label(self) -> Seq<char> {
        match self {
            SyntaxKind::Slash => "SLASH"@,
            SyntaxKind::WhiteSpace => "WHITESPACE"@,
            SyntaxKind::NewLine => "NEWLINE"@,
            SyntaxKind::Text => "TEXT"@,
            SyntaxKind::Eof => "EOF"@,
            SyntaxKind::Astrisk => "ASTRISK"@,
            SyntaxKind::Underscore => "UNDERSCORE"@,
            SyntaxKind::Tilda => "TILDA"@,
            SyntaxKind::Hyphen => "HYPHEN"@,
            SyntaxKind::At => "AT"@,
            SyntaxKind::Error => "ERROR"@,
            SyntaxKind::Root => "ROOT"@,
            SyntaxKind::IndentWhiteSpace => "INDENTWHITESPACE"@,
            SyntaxKind::Heading => "HEADING"@,
            SyntaxKind::Bold => "BOLD"@,
            SyntaxKind::Italic => "ITALIC"@,
            SyntaxKind::UnderLined => "UNDERLINED"@,
            SyntaxKind::StrikeThrough => "STRIKETHROUGH"@,
            SyntaxKind::ListItem => "LISTITEM"@,
            SyntaxKind::LeftSqBrackets => "LEFTSQBRACKETS"@,
            SyntaxKind::RightSqBrackets => "RIGHTSQBRACKETS"@,
            SyntaxKind::LeftParen => "LEFTPAREN"@,
            SyntaxKind::RightParen => "RIGHTPAREN"@,
            SyntaxKind::LeftCurlyBraces => "LEFTCURLYBRACES"@,
            SyntaxKind::RightCurlyBraces => "RIGHTCURLYBRACES"@,
            SyntaxKind::SemiColon => "SEMICOLON"@,
            SyntaxKind::HashTag => "HASHTAG"@,
            SyntaxKind::Equal => "EQUAL"@,
            SyntaxKind::Percentage => "PERCENTAGE"@,
            SyntaxKind::CodeMarker => "CODEMARKER"@,
            SyntaxKind::SuperScriptMarker => "SUPERSCRIPTMARKER"@,
            SyntaxKind::SubScriptMarker => "SUBSCRIPTMARKER"@,
        }
    }

    /// Whether this kind opens a bracketed group.
    pub fn is_grouping(&self) -> (r: bool)
        ensures
            r == (*self == SyntaxKind::LeftCurlyBraces),
    {
        matches!(self, SyntaxKind::LeftCurlyBraces)
    }

    /// Whether this is the kind of an error node.
    pub fn is_error(&self) -> (r: bool)
        ensures
            r == (*self == SyntaxKind::Error),
    {
        matches!(self, SyntaxKind::Error)
    }

    /// The label under which this kind is printed.
    pub fn name(&self) -> (r: &'static str)
        ensures
            r@ == self.label(),
    {
        match self {
            SyntaxKind::Slash => "SLASH",
            SyntaxKind::WhiteSpace => "WHITESPACE",
            SyntaxKind::NewLine => "NEWLINE",
            SyntaxKind::Text => "TEXT",
            SyntaxKind::Eof => "EOF",
            SyntaxKind::Astrisk => "ASTRISK",
            SyntaxKind::Underscore => "UNDERSCORE",
            SyntaxKind::Tilda => "TILDA",
            SyntaxKind::Hyphen => "HYPHEN",
            SyntaxKind::At => "AT",
            SyntaxKind::Error => "ERROR",
            SyntaxKind::Root => "ROOT",
            SyntaxKind::IndentWhiteSpace => "INDENTWHITESPACE",
            SyntaxKind::Heading => "HEADING",
            SyntaxKind::Bold => "BOLD",
            SyntaxKind::Italic => "ITALIC",
            SyntaxKind::UnderLined => "UNDERLINED",
            SyntaxKind::StrikeThrough => "STRIKETHROUGH",
            SyntaxKind::ListItem => "LISTITEM",
            SyntaxKind::LeftSqBrackets => "LEFTSQBRACKETS",
            SyntaxKind::RightSqBrackets => "RIGHTSQBRACKETS",
            SyntaxKind::LeftParen => "LEFTPAREN",
            SyntaxKind::RightParen => "RIGHTPAREN",
            SyntaxKind::LeftCurlyBraces => "LEFTCURLYBRACES",
            SyntaxKind::RightCurlyBraces => "RIGHTCURLYBRACES",
            SyntaxKind::SemiColon => "SEMICOLON",
            SyntaxKind::HashTag => "HASHTAG",
            SyntaxKind::Equal => "EQUAL",
            SyntaxKind::Percentage => "PERCENTAGE",
            SyntaxKind::CodeMarker => "CODEMARKER",
            SyntaxKind::SuperScriptMarker => "SUPERSCRIPTMARKER",
            SyntaxKind::SubScriptMarker => "SUBSCRIPTMARKER",
        }
    }
}

} // verus!
