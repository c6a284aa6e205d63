//! What holds of lexing and parsing together: nothing of the source is
//! lost, and the nodes of a text do not depend on where the text stands.

use vstd::prelude::*;
use crate::kind::SyntaxKind;
use crate::lexer::{
    adjoins, closes_line, joined_text, lemma_lex_kinds, lemma_lex_prefix, lemma_lex_shift,
    lemma_lex_spans, lemma_lex_texts, lemma_lex_unfold, lex_from, lex_spec, same_token, TokenView,
};
use crate::node::{all_spanless_eq, full_text_of, lemma_all_spanless_eq};
use crate::text::utf8_len;
use crate::parser::{
    abuts, aligned, all_lexical, heads, lemma_parse_aligned, lemma_parse_end, lemma_parse_head,
    lemma_parse_spans, lemma_parse_text, lemma_parse_valid, parse_from,
    parse_spec, resolved_all, same_tokens, NodeView,
};

verus! {

/// The kinds of a run of tokens.
pub open spec fn kinds_of(tokens: Seq<TokenView>) -> Seq<SyntaxKind> {
    tokens.map_values(|t: TokenView| t.kind)
}

/// The texts of all tokens of a run, joined.
pub open spec fn texts_of(tokens: Seq<TokenView>) -> Seq<char> {
    joined_text(tokens, 0, tokens.len() as int)
}

/// The lexer drops nothing: the texts of the tokens of a text, joined in
/// order, are the text.
pub proof fn lemma_lex_lossless(chars: Seq<char>)
    ensures
        texts_of(lex_spec(chars)) == chars,
{
    lemma_lex_texts(chars, 0, true);
    assert(chars.subrange(0, chars.len() as int) =~= chars);
}

/// Lexing again what the tokens of a text spell gives the same tokens, and
/// so the same kinds in the same order.
pub proof fn lemma_relex(chars: Seq<char>)
    ensures
        lex_spec(texts_of(lex_spec(chars))) == lex_spec(chars),
        kinds_of(lex_spec(texts_of(lex_spec(chars)))) == kinds_of(lex_spec(chars)),
{
    lemma_lex_lossless(chars);
}

/// Parsing drops nothing: the trees that the nodes of a text resolve into
/// spell, in order, the text.
pub proof fn lemma_parse_lossless(chars: Seq<char>)
    ensures
        full_text_of(resolved_all(parse_spec(lex_spec(chars)))) == chars,
{
    let tokens = lex_spec(chars);
    let last = tokens.len() - 1;
    lemma_lex_kinds(chars, 0, true);
    lemma_lex_lossless(chars);
    assert(all_lexical(tokens));
    lemma_parse_text(tokens, 0);
    lemma_parse_end(tokens, 0, last);
    assert(joined_text(tokens, 0, last + 1) =~= joined_text(tokens, 0, last)) by {
        assert(tokens[last].text.len() == 0);
    }
}

/// The nodes of two runs of tokens that differ in their spans alone are
/// equally many and, resolved, equal apart from spans place by place.
pub proof fn lemma_spans_do_not_matter(a: Seq<TokenView>, b: Seq<TokenView>)
    requires
        same_tokens(a, b),
    ensures
        all_spanless_eq(resolved_all(parse_spec(a)), resolved_all(parse_spec(b))),
{
    lemma_parse_aligned(a, 0, b, 0, 0);
}

/// The index, among the tokens of `p + t`, of the first token of `t`, where
/// `p` closes a line: the number of tokens of `p` without its closing one.
pub open spec fn tokens_before(p: Seq<char>) -> int {
    lex_spec(p).len() - 1
}

/// The nodes of a text `t` that stands behind a prefix `p`.
pub open spec fn nodes_behind(p: Seq<char>, t: Seq<char>) -> Seq<NodeView> {
    parse_from(lex_spec(p + t), tokens_before(p))
}

/// Behind a prefix that closes a line, the tokens of a text are those of
/// the text alone apart from their spans, and the first of them opens a
/// line.
pub proof fn lemma_tokens_behind(p: Seq<char>, t: Seq<char>)
    requires
        closes_line(p),
    ensures
        aligned(lex_spec(p + t), tokens_before(p), lex_spec(t), 0),
{
    let whole = lex_spec(p + t);
    let head = lex_spec(p);
    let tail = lex_from(p + t, p.len() as int, true);
    let alone = lex_spec(t);
    let k = tokens_before(p);
    lemma_lex_prefix(p, t, 0, true);
    lemma_lex_shift(p, t, 0, true);
    assert forall|x: int| k <= x < whole.len() implies same_token(
        #[trigger] whole[x],
        alone[x - k + 0],
    ) by {
        let d = x - k;
        assert(whole[head.len() - 1 + d] == tail[d]);
        assert(same_token(tail[d], alone[d]));
    }
    if k > 0 {
        assert(whole[k - 1] == head[k - 1]);
    }
}

/// The nodes of a text do not depend on where the text stands: behind any
/// two prefixes that each close a line they are equally many and, resolved,
/// equal apart from spans place by place.
pub proof fn lemma_offset_does_not_matter(p: Seq<char>, q: Seq<char>, t: Seq<char>)
    requires
        closes_line(p),
        closes_line(q),
    ensures
        nodes_behind(p, t).len() == nodes_behind(q, t).len(),
        all_spanless_eq(
            resolved_all(nodes_behind(p, t)),
            resolved_all(nodes_behind(q, t)),
        ),
{
    let a = lex_spec(p + t);
    let b = lex_spec(q + t);
    let alone = lex_spec(t);
    let ka = tokens_before(p);
    let kb = tokens_before(q);
    lemma_tokens_behind(p, t);
    lemma_tokens_behind(q, t);
    assert forall|x: int| ka <= x < a.len() implies same_token(#[trigger] a[x], b[x - ka + kb]) by {
        assert(same_token(a[x], alone[x - ka + 0]));
        assert(same_token(b[x - ka + kb], alone[(x - ka + kb) - kb + 0]));
    }
    assert(aligned(a, ka, b, kb));
    lemma_parse_aligned(a, ka, b, kb, ka);
    lemma_all_spanless_eq(resolved_all(nodes_behind(p, t)), resolved_all(nodes_behind(q, t)));
}

/// The nodes of a text behind a prefix that closes a line are the nodes of
/// the prefix, then the nodes of the text as it stands behind the prefix.
pub proof fn lemma_nodes_behind(p: Seq<char>, t: Seq<char>)
    requires
        closes_line(p),
    ensures
        parse_spec(lex_spec(p + t)) == parse_spec(lex_spec(p)) + nodes_behind(p, t),
{
    let whole = lex_spec(p + t);
    let head = lex_spec(p);
    lemma_lex_prefix(p, t, 0, true);
    lemma_lex_kinds(p, 0, true);
    assert(heads(head, whole));
    lemma_parse_head(head, whole, 0);
}

/// The nodes of a text cover it exactly once: the first node starts at
/// byte zero, each node starts where the one before ends, none ends before
/// it starts, and the last one ends at the end of the text. A text without
/// nodes is empty.
pub proof fn lemma_parse_covers(chars: Seq<char>)
    requires
        utf8_len(chars) <= usize::MAX,
    ensures
        ({
            let nodes = parse_spec(lex_spec(chars));
            &&& nodes.len() > 0 ==> nodes[0].span().start == 0 && nodes.last().span().end
                == utf8_len(chars)
            &&& nodes.len() == 0 ==> chars.len() == 0
            &&& forall|j: int| 0 <= j < nodes.len() - 1 ==> #[trigger] abuts(nodes, j)
            &&& forall|j: int| 0 <= j < nodes.len() ==> (#[trigger] nodes[j]).span().is_valid()
        }),
{
    let tokens = lex_spec(chars);
    let last = tokens.len() - 1;
    lemma_lex_kinds(chars, 0, true);
    lemma_lex_spans(chars, 0, true);
    lemma_parse_end(tokens, 0, last);
    lemma_parse_spans(tokens, 0);
    lemma_parse_valid(tokens, 0);
    assert(chars.take(0) =~= Seq::<char>::empty());
    if last > 0 {
        assert(adjoins(tokens, last - 1));
    } else {
        assert(chars.len() == 0) by {
            if chars.len() > 0 {
                lemma_lex_unfold(chars, 0, true);
            }
        }
    }
}

} // verus!
