//! A lossless syntax layer for a small line-oriented markup dialect.
//!
//! Source text is cut into tokens by [`lexer::Lexer`], the tokens are grouped
//! into flat nodes by [`parser::Parser`], and the nodes resolve into the
//! shareable tree of [`node::SyntaxNode`]. Byte spans map to editor positions
//! in [`span`]. What holds of the whole chain is proved in [`laws`].

use vstd::prelude::*;
use ropey::Rope;
use crate::lexer::{is_special, lex_spec, token_views, Lexer, Token};
use crate::parser::{node_views, parse_spec, Node, Parser};

pub mod eco;
pub mod error;
pub mod kind;
pub mod laws;
pub mod lexer;
pub mod node;
pub mod parser;
pub mod rope;
pub mod span;
pub mod text;

verus! {

/// Characters that know whether the syntax gives them a meaning.
pub trait NeoChar {
    /// Whether the character ends a run of text.
    spec fn special(&self) -> bool;

    /// Whether the character ends a run of text: a delimiter, a line feed, a
    /// space or a tab.
    fn is_special_char(&self) -> (r: bool)
        ensures
            r == self.special(),
    ;
}

impl NeoChar for char {
    open spec fn special(&self) -> bool {
        is_special(*self)
    }

    fn is_special_char(&self) -> (r: bool) {
        matches!(*self, '*' | '@' | '-' | '~' | '/' | '_' | '\n' | ' ' | '\t')
    }
}

/// What a parser over tokens offers to the code that drives it.
pub trait ParseTools {
    fn peek(&self) -> &Token;

    fn advance(&mut self) -> Token;

    fn previous(&mut self) -> Token;

    fn is_at_end(&self) -> bool;
}

/// Cuts `source` into tokens, the closing token included.
pub fn lex(source: &str) -> (tokens: Vec<Token>)
    ensures
        token_views(tokens@) == lex_spec(source@),
{
    let mut lexer = Lexer::new(Rope::from_str(source));
    lexer.lex()
}

/// The nodes of `source`: its tokens, parsed up to the closing one.
pub fn parse(source: &str) -> (nodes: Vec<Node>)
    ensures
        node_views(nodes@) == parse_spec(lex_spec(source@)),
{
    let mut parser = Parser::new(lex(source));
    parser.parse()
}

} // verus!
