//! The grammar: a mathematical model of the parser.
//!
//! Every function here takes the token sequence and a cursor position and
//! returns the parsing outcome together with the cursor position after it,
//! exactly as the executable parser moves its cursor. The executable parser
//! in `parser` is proved to return precisely these outcomes.
use vstd::prelude::*;

use crate::ast::NodeView;
use crate::error::ParseErrorView;
use crate::token::TokenView;

verus! {

/// The token at cursor `i`, if the cursor is inside the sequence.
pub open spec fn tok_at(ts: Seq<TokenView>, i: int) -> Option<TokenView> {
    if 0 <= i < ts.len() {
        Some(ts[i])
    } else {
        None
    }
}

/// Whether parsing stops at cursor `i`: the cursor is past the end or on
/// `Eof`.
pub open spec fn at_end(ts: Seq<TokenView>, i: int) -> bool {
    i >= ts.len() || ts[i] is Eof
}

/// The name of a token's kind, used in `ExpectedToken` diagnostics.
pub open spec fn token_kind_name(t: TokenView) -> Seq<char> {
    match t {
        TokenView::Text(_) => "Text"@,
        TokenView::Newline => "Newline"@,
        TokenView::Eof => "Eof"@,
        TokenView::Hash(_) => "Hash"@,
        TokenView::Asterisk(_) => "Asterisk"@,
        TokenView::Underscore(_) => "Underscore"@,
        TokenView::LeftBracket => "LeftBracket"@,
        TokenView::RightBracket => "RightBracket"@,
        TokenView::LeftParen => "LeftParen"@,
        TokenView::RightParen => "RightParen"@,
        TokenView::Hyphen => "Hyphen"@,
        TokenView::Number(_) => "Number"@,
        TokenView::Dot => "Dot"@,
        TokenView::Url(_) => "Url"@,
    }
}

/// Whether two tokens have the same kind, payloads aside.
pub open spec fn same_kind(a: TokenView, b: TokenView) -> bool {
    match (a, b) {
        (TokenView::Text(_), TokenView::Text(_)) => true,
        (TokenView::Newline, TokenView::Newline) => true,
        (TokenView::Eof, TokenView::Eof) => true,
        (TokenView::Hash(_), TokenView::Hash(_)) => true,
        (TokenView::Asterisk(_), TokenView::Asterisk(_)) => true,
        (TokenView::Underscore(_), TokenView::Underscore(_)) => true,
        (TokenView::LeftBracket, TokenView::LeftBracket) => true,
        (TokenView::RightBracket, TokenView::RightBracket) => true,
        (TokenView::LeftParen, TokenView::LeftParen) => true,
        (TokenView::RightParen, TokenView::RightParen) => true,
        (TokenView::Hyphen, TokenView::Hyphen) => true,
        (TokenView::Number(_), TokenView::Number(_)) => true,
        (TokenView::Dot, TokenView::Dot) => true,
        (TokenView::Url(_), TokenView::Url(_)) => true,
        _ => false,
    }
}

/// Demand the token of `expected`'s kind at cursor `i`: consume it, or fail
/// with `ExpectedToken` on a token of another kind and with
/// `UnexpectedEndOfInput` past the end.
pub open spec fn expect_step(ts: Seq<TokenView>, i: int, expected: TokenView) -> (Result<
    (),
    ParseErrorView,
>, int) {
    match tok_at(ts, i) {
        None => (Err(ParseErrorView::UnexpectedEndOfInput), i),
        Some(t) => {
            if same_kind(t, expected) {
                (Ok(()), i + 1)
            } else {
                (
                    (Err(
                        ParseErrorView::ExpectedToken {
                            expected: token_kind_name(expected),
                            found: token_kind_name(t),
                        },
                    ), i)
                )
            }
        },
    }
}

/// The content of an emphasis span opened by `Asterisk(count)`: `Text`
/// tokens accumulate, a matching `Asterisk(count)` closes the span and is
/// consumed, a line end or `Eof` fails with `UnclosedDelimiter`, anything
/// else is skipped, and running out of tokens ends the span.
pub open spec fn parse_until_asterisk(ts: Seq<TokenView>, i: int, count: u8) -> (Result<
    Seq<NodeView>,
    ParseErrorView,
>, int)
    decreases ts.len() - i,
    via parse_until_asterisk_decreases
{
    match tok_at(ts, i) {
        None => (Ok(Seq::empty()), i),
        Some(t) => {
            if t == TokenView::Asterisk(count) {
                (Ok(Seq::empty()), i + 1)
            } else if t is Newline || t is Eof {
                (
                    (Err(
                        ParseErrorView::UnclosedDelimiter {
                            delimiter: '*',
                            open_line: 0,
                            open_column: 0,
                        },
                    ), i)
                )
            } else {
                let rest = parse_until_asterisk(ts, i + 1, count);
                match t {
                    TokenView::Text(txt) => {
                        match rest.0 {
                            Ok(nodes) => (Ok(seq![NodeView::Text(txt)] + nodes), rest.1),
                            Err(e) => (Err(e), rest.1),
                        }
                    },
                    _ => rest,
                }
            }
        },
    }
}

#[via_fn]
proof fn parse_until_asterisk_decreases(ts: Seq<TokenView>, i: int, count: u8) {
}

/// Bounds of `parse_until_asterisk`: the cursor never moves backwards nor
/// past the end.
pub proof fn lemma_until_asterisk_bounds(ts: Seq<TokenView>, i: int, count: u8)
    requires
        0 <= i <= ts.len(),
    ensures
        i <= parse_until_asterisk(ts, i, count).1 <= ts.len(),
    decreases ts.len() - i,
{
    if i < ts.len() {
        lemma_until_asterisk_bounds(ts, i + 1, count);
    }
}

/// The text of a link: `Text` tokens accumulate, `RightBracket` ends the
/// text and is left for the caller to consume, a line end or `Eof` fails
/// with `UnclosedDelimiter`, anything else is skipped, and running out of
/// tokens ends the text.
pub open spec fn parse_until_rbracket(ts: Seq<TokenView>, i: int) -> (Result<
    Seq<NodeView>,
    ParseErrorView,
>, int)
    decreases ts.len() - i,
    via parse_until_rbracket_decreases
{
    match tok_at(ts, i) {
        None => (Ok(Seq::empty()), i),
        Some(t) => {
            if t is RightBracket {
                (Ok(Seq::empty()), i)
            } else if t is Newline || t is Eof {
                (
                    (Err(
                        ParseErrorView::UnclosedDelimiter {
                            delimiter: '[',
                            open_line: 0,
                            open_column: 0,
                        },
                    ), i)
                )
            } else {
                let rest = parse_until_rbracket(ts, i + 1);
                match t {
                    TokenView::Text(txt) => {
                        match rest.0 {
                            Ok(nodes) => (Ok(seq![NodeView::Text(txt)] + nodes), rest.1),
                            Err(e) => (Err(e), rest.1),
                        }
                    },
                    _ => rest,
                }
            }
        },
    }
}

#[via_fn]
proof fn parse_until_rbracket_decreases(ts: Seq<TokenView>, i: int) {
}

/// Bounds of `parse_until_rbracket`.
pub proof fn lemma_until_rbracket_bounds(ts: Seq<TokenView>, i: int)
    requires
        0 <= i <= ts.len(),
    ensures
        i <= parse_until_rbracket(ts, i).1 <= ts.len(),
    decreases ts.len() - i,
{
    if i < ts.len() {
        lemma_until_rbracket_bounds(ts, i + 1);
    }
}

/// A link, with the cursor on its opening `LeftBracket`: link text up to
/// `]`, then `(`, then a `Url` or `Text` token as the URL (no URL syntax is
/// checked), then `)`.
pub open spec fn parse_link(ts: Seq<TokenView>, i: int) -> (Result<NodeView, ParseErrorView>, int) {
    let text_step = parse_until_rbracket(ts, i + 1);
    match text_step.0 {
        Err(e) => (Err(e), text_step.1),
        Ok(text) => {
            let rb = expect_step(ts, text_step.1, TokenView::RightBracket);
            match rb.0 {
                Err(e) => (Err(e), rb.1),
                Ok(_) => {
                    let lp = expect_step(ts, rb.1, TokenView::LeftParen);
                    match lp.0 {
                        Err(e) => (Err(e), lp.1),
                        Ok(_) => {
                            match tok_at(ts, lp.1) {
                                Some(TokenView::Url(url)) => {
                                    let rp = expect_step(ts, lp.1 + 1, TokenView::RightParen);
                                    match rp.0 {
                                        Err(e) => (Err(e), rp.1),
                                        Ok(_) => (Ok(NodeView::Link { text, url }), rp.1),
                                    }
                                },
                                Some(TokenView::Text(url)) => {
                                    let rp = expect_step(ts, lp.1 + 1, TokenView::RightParen);
                                    match rp.0 {
                                        Err(e) => (Err(e), rp.1),
                                        Ok(_) => (Ok(NodeView::Link { text, url }), rp.1),
                                    }
                                },
                                _ => (Err(ParseErrorView::ExpectedUrl), lp.1),
                            }
                        },
                    }
                },
            }
        },
    }
}

/// Bounds of `parse_link`: it consumes at least the opening bracket.
pub proof fn lemma_link_bounds(ts: Seq<TokenView>, i: int)
    requires
        0 <= i < ts.len(),
    ensures
        i < parse_link(ts, i).1 <= ts.len(),
{
    lemma_until_rbracket_bounds(ts, i + 1);
}

/// An emphasis span, with the cursor on its opening `Asterisk(count)`:
/// content up to the matching closer, then `Italic` for count 1, `Bold` for
/// count 2, and `InvalidEmphasis` for any other count.
pub open spec fn parse_emphasis(ts: Seq<TokenView>, i: int, count: u8) -> (Result<
    NodeView,
    ParseErrorView,
>, int) {
    let content_step = parse_until_asterisk(ts, i + 1, count);
    match content_step.0 {
        Err(e) => (Err(e), content_step.1),
        Ok(content) => {
            if count == 1 {
                (Ok(NodeView::Italic(content)), content_step.1)
            } else if count == 2 {
                (Ok(NodeView::Bold(content)), content_step.1)
            } else {
                (Err(ParseErrorView::InvalidEmphasis(count)), content_step.1)
            }
        },
    }
}

/// Bounds of `parse_emphasis`: it consumes at least the opening marker.
pub proof fn lemma_emphasis_bounds(ts: Seq<TokenView>, i: int, count: u8)
    requires
        0 <= i < ts.len(),
    ensures
        i < parse_emphasis(ts, i, count).1 <= ts.len(),
{
    lemma_until_asterisk_bounds(ts, i + 1, count);
}

/// The inline content of one line: up to `Newline`, `Eof` or the end of the
/// tokens. `Text` becomes a text node, `Asterisk` opens an emphasis span,
/// `LeftBracket` opens a link, and any other token is silently skipped.
pub open spec fn parse_inline(ts: Seq<TokenView>, i: int) -> (Result<
    Seq<NodeView>,
    ParseErrorView,
>, int)
    decreases ts.len() - i,
    via parse_inline_decreases
{
    match tok_at(ts, i) {
        None => (Ok(Seq::empty()), i),
        Some(t) => {
            if t is Newline || t is Eof {
                (Ok(Seq::empty()), i)
            } else {
                match t {
                    TokenView::Text(txt) => {
                        let rest = parse_inline(ts, i + 1);
                        match rest.0 {
                            Ok(nodes) => (Ok(seq![NodeView::Text(txt)] + nodes), rest.1),
                            Err(e) => (Err(e), rest.1),
                        }
                    },
                    TokenView::Asterisk(count) => {
                        let span = parse_emphasis(ts, i, count);
                        match span.0 {
                            Err(e) => (Err(e), span.1),
                            Ok(node) => {
                                let rest = parse_inline(ts, span.1);
                                match rest.0 {
                                    Ok(nodes) => (Ok(seq![node] + nodes), rest.1),
                                    Err(e) => (Err(e), rest.1),
                                }
                            },
                        }
                    },
                    TokenView::LeftBracket => {
                        let link = parse_link(ts, i);
                        match link.0 {
                            Err(e) => (Err(e), link.1),
                            Ok(node) => {
                                let rest = parse_inline(ts, link.1);
                                match rest.0 {
                                    Ok(nodes) => (Ok(seq![node] + nodes), rest.1),
                                    Err(e) => (Err(e), rest.1),
                                }
                            },
                        }
                    },
                    _ => parse_inline(ts, i + 1),
                }
            }
        },
    }
}

#[via_fn]
proof fn parse_inline_decreases(ts: Seq<TokenView>, i: int) {
    if 0 <= i < ts.len() {
        match ts[i] {
            TokenView::Asterisk(count) => {
                lemma_emphasis_bounds(ts, i, count);
            },
            TokenView::LeftBracket => {
                lemma_link_bounds(ts, i);
            },
            _ => {},
        }
    }
}

/// Bounds of `parse_inline`: the cursor stays inside the sequence, and it
/// strictly advances whenever the line's first token is consumable.
pub proof fn lemma_parse_inline_bounds(ts: Seq<TokenView>, i: int)
    requires
        0 <= i <= ts.len(),
    ensures
        i <= parse_inline(ts, i).1 <= ts.len(),
        (i < ts.len() && !(ts[i] is Newline) && !(ts[i] is Eof)) ==> i < parse_inline(ts, i).1,
    decreases ts.len() - i,
{
    if i < ts.len() {
        let t = ts[i];
        if t is Newline || t is Eof {
        } else {
            match t {
                TokenView::Text(_) => {
                    lemma_parse_inline_bounds(ts, i + 1);
                },
                TokenView::Asterisk(count) => {
                    lemma_emphasis_bounds(ts, i, count);
                    if parse_emphasis(ts, i, count).0 is Ok {
                        lemma_parse_inline_bounds(ts, parse_emphasis(ts, i, count).1);
                    }
                },
                TokenView::LeftBracket => {
                    lemma_link_bounds(ts, i);
                    if parse_link(ts, i).0 is Ok {
                        lemma_parse_inline_bounds(ts, parse_link(ts, i).1);
                    }
                },
                _ => {
                    lemma_parse_inline_bounds(ts, i + 1);
                },
            }
        }
    }
}

/// The items of an ordered list: a run of `Number [Dot] <inline line>`
/// items, one optional `Newline` consumed between items, ending as soon as
/// the cursor is not on a `Number`. The numeric values are ignored.
pub open spec fn parse_olist_items(ts: Seq<TokenView>, i: int) -> (Result<
    Seq<NodeView>,
    ParseErrorView,
>, int)
    decreases ts.len() - i,
    via parse_olist_items_decreases
{
    match tok_at(ts, i) {
        Some(TokenView::Number(_)) => {
            let after_dot = if tok_at(ts, i + 1) matches Some(TokenView::Dot) {
                i + 2
            } else {
                i + 1
            };
            let content_step = parse_inline(ts, after_dot);
            match content_step.0 {
                Err(e) => (Err(e), content_step.1),
                Ok(content) => {
                    let after_nl = if tok_at(ts, content_step.1) matches Some(TokenView::Newline) {
                        content_step.1 + 1
                    } else {
                        content_step.1
                    };
                    let rest = parse_olist_items(ts, after_nl);
                    match rest.0 {
                        Err(e) => (Err(e), rest.1),
                        Ok(items) => {
                            (Ok(seq![NodeView::ListItem { content }] + items), rest.1)
                        },
                    }
                },
            }
        },
        _ => (Ok(Seq::empty()), i),
    }
}

#[via_fn]
proof fn parse_olist_items_decreases(ts: Seq<TokenView>, i: int) {
    if tok_at(ts, i) matches Some(TokenView::Number(_)) {
        let after_dot = if tok_at(ts, i + 1) matches Some(TokenView::Dot) {
            i + 2
        } else {
            i + 1
        };
        lemma_parse_inline_bounds(ts, after_dot);
    }
}

/// Bounds of `parse_olist_items`.
pub proof fn lemma_olist_items_bounds(ts: Seq<TokenView>, i: int)
    requires
        0 <= i <= ts.len(),
    ensures
        i <= parse_olist_items(ts, i).1 <= ts.len(),
    decreases ts.len() - i,
{
    if tok_at(ts, i) matches Some(TokenView::Number(_)) {
        let after_dot = if tok_at(ts, i + 1) matches Some(TokenView::Dot) {
            i + 2
        } else {
            i + 1
        };
        lemma_parse_inline_bounds(ts, after_dot);
        let content_step = parse_inline(ts, after_dot);
        if content_step.0 is Ok {
            let after_nl = if tok_at(ts, content_step.1) matches Some(TokenView::Newline) {
                content_step.1 + 1
            } else {
                content_step.1
            };
            lemma_olist_items_bounds(ts, after_nl);
        }
    }
}

/// An ordered list: its items, wrapped in a `List` node.
pub open spec fn parse_ordered_list(ts: Seq<TokenView>, i: int) -> (Result<
    NodeView,
    ParseErrorView,
>, int) {
    let items_step = parse_olist_items(ts, i);
    match items_step.0 {
        Err(e) => (Err(e), items_step.1),
        Ok(items) => (Ok(NodeView::List { ordered: true, items }), items_step.1),
    }
}

/// The items of an unordered list: as for ordered lists, keyed on `Hyphen`
/// and without the optional `Dot`.
pub open spec fn parse_ulist_items(ts: Seq<TokenView>, i: int) -> (Result<
    Seq<NodeView>,
    ParseErrorView,
>, int)
    decreases ts.len() - i,
    via parse_ulist_items_decreases
{
    match tok_at(ts, i) {
        Some(TokenView::Hyphen) => {
            let content_step = parse_inline(ts, i + 1);
            match content_step.0 {
                Err(e) => (Err(e), content_step.1),
                Ok(content) => {
                    let after_nl = if tok_at(ts, content_step.1) matches Some(TokenView::Newline) {
                        content_step.1 + 1
                    } else {
                        content_step.1
                    };
                    let rest = parse_ulist_items(ts, after_nl);
                    match rest.0 {
                        Err(e) => (Err(e), rest.1),
                        Ok(items) => {
                            (Ok(seq![NodeView::ListItem { content }] + items), rest.1)
                        },
                    }
                },
            }
        },
        _ => (Ok(Seq::empty()), i),
    }
}

#[via_fn]
proof fn parse_ulist_items_decreases(ts: Seq<TokenView>, i: int) {
    if tok_at(ts, i) matches Some(TokenView::Hyphen) {
        lemma_parse_inline_bounds(ts, i + 1);
    }
}

/// Bounds of `parse_ulist_items`.
pub proof fn lemma_ulist_items_bounds(ts: Seq<TokenView>, i: int)
    requires
        0 <= i <= ts.len(),
    ensures
        i <= parse_ulist_items(ts, i).1 <= ts.len(),
    decreases ts.len() - i,
{
    if tok_at(ts, i) matches Some(TokenView::Hyphen) {
        lemma_parse_inline_bounds(ts, i + 1);
        let content_step = parse_inline(ts, i + 1);
        if content_step.0 is Ok {
            let after_nl = if tok_at(ts, content_step.1) matches Some(TokenView::Newline) {
                content_step.1 + 1
            } else {
                content_step.1
            };
            lemma_ulist_items_bounds(ts, after_nl);
        }
    }
}

/// An unordered list: its items, wrapped in a `List` node.
pub open spec fn parse_unordered_list(ts: Seq<TokenView>, i: int) -> (Result<
    NodeView,
    ParseErrorView,
>, int) {
    let items_step = parse_ulist_items(ts, i);
    match items_step.0 {
        Err(e) => (Err(e), items_step.1),
        Ok(items) => (Ok(NodeView::List { ordered: false, items }), items_step.1),
    }
}

/// A heading of the given level: one line of inline content.
pub open spec fn parse_heading(ts: Seq<TokenView>, i: int, level: u8) -> (Result<
    NodeView,
    ParseErrorView,
>, int) {
    let content_step = parse_inline(ts, i);
    match content_step.0 {
        Err(e) => (Err(e), content_step.1),
        Ok(content) => (Ok(NodeView::Heading { level, content }), content_step.1),
    }
}

/// A paragraph: one line of inline content.
pub open spec fn parse_paragraph(ts: Seq<TokenView>, i: int) -> (Result<
    NodeView,
    ParseErrorView,
>, int) {
    let content_step = parse_inline(ts, i);
    match content_step.0 {
        Err(e) => (Err(e), content_step.1),
        Ok(content) => (Ok(NodeView::Paragraph { content }), content_step.1),
    }
}

/// One block: a `Hash` starts a heading, a `Number` an ordered list, a
/// `Hyphen` an unordered list, a lone `Newline` is consumed and yields no
/// node, and anything else starts a paragraph.
pub open spec fn parse_block(ts: Seq<TokenView>, i: int) -> (Result<
    Option<NodeView>,
    ParseErrorView,
>, int) {
    match tok_at(ts, i) {
        None => (Ok(None), i),
        Some(TokenView::Hash(level)) => {
            let step = parse_heading(ts, i + 1, level);
            match step.0 {
                Err(e) => (Err(e), step.1),
                Ok(node) => (Ok(Some(node)), step.1),
            }
        },
        Some(TokenView::Number(_)) => {
            let step = parse_ordered_list(ts, i);
            match step.0 {
                Err(e) => (Err(e), step.1),
                Ok(node) => (Ok(Some(node)), step.1),
            }
        },
        Some(TokenView::Hyphen) => {
            let step = parse_unordered_list(ts, i);
            match step.0 {
                Err(e) => (Err(e), step.1),
                Ok(node) => (Ok(Some(node)), step.1),
            }
        },
        Some(TokenView::Newline) => (Ok(None), i + 1),
        Some(_) => {
            let step = parse_paragraph(ts, i);
            match step.0 {
                Err(e) => (Err(e), step.1),
                Ok(node) => (Ok(Some(node)), step.1),
            }
        },
    }
}

/// Bounds of `parse_block`: away from `Eof` it strictly advances.
pub proof fn lemma_parse_block_bounds(ts: Seq<TokenView>, i: int)
    requires
        0 <= i <= ts.len(),
    ensures
        i <= parse_block(ts, i).1 <= ts.len(),
        (i < ts.len() && !(ts[i] is Eof)) ==> i < parse_block(ts, i).1,
    decreases ts.len() - i,
{
    if i < ts.len() {
        match ts[i] {
            TokenView::Hash(_) => {
                lemma_parse_inline_bounds(ts, i + 1);
            },
            TokenView::Number(_) => {
                lemma_olist_items_bounds(ts, i);
                let after_dot = if tok_at(ts, i + 1) matches Some(TokenView::Dot) {
                    i + 2
                } else {
                    i + 1
                };
                lemma_parse_inline_bounds(ts, after_dot);
                let content_step = parse_inline(ts, after_dot);
                if content_step.0 is Ok {
                    let after_nl = if tok_at(ts, content_step.1) matches Some(
                        TokenView::Newline,
                    ) {
                        content_step.1 + 1
                    } else {
                        content_step.1
                    };
                    lemma_olist_items_bounds(ts, after_nl);
                }
            },
            TokenView::Hyphen => {
                lemma_ulist_items_bounds(ts, i);
                lemma_parse_inline_bounds(ts, i + 1);
                let content_step = parse_inline(ts, i + 1);
                if content_step.0 is Ok {
                    let after_nl = if tok_at(ts, content_step.1) matches Some(
                        TokenView::Newline,
                    ) {
                        content_step.1 + 1
                    } else {
                        content_step.1
                    };
                    lemma_ulist_items_bounds(ts, after_nl);
                }
            },
            TokenView::Newline => {},
            _ => {
                lemma_parse_inline_bounds(ts, i);
            },
        }
    }
}

/// The blocks of the document from cursor `i` until `Eof` or the end of the
/// tokens, blank lines skipped.
pub open spec fn parse_blocks(ts: Seq<TokenView>, i: int) -> (Result<
    Seq<NodeView>,
    ParseErrorView,
>, int)
    decreases ts.len() - i,
    via parse_blocks_decreases
{
    if i < 0 || at_end(ts, i) {
        (Ok(Seq::empty()), i)
    } else {
        let step = parse_block(ts, i);
        match step.0 {
            Err(e) => (Err(e), step.1),
            Ok(opt) => {
                let rest = parse_blocks(ts, step.1);
                match rest.0 {
                    Err(e) => (Err(e), rest.1),
                    Ok(blocks) => {
                        match opt {
                            Some(node) => (Ok(seq![node] + blocks), rest.1),
                            None => (Ok(blocks), rest.1),
                        }
                    },
                }
            },
        }
    }
}

#[via_fn]
proof fn parse_blocks_decreases(ts: Seq<TokenView>, i: int) {
    if 0 <= i && !at_end(ts, i) {
        lemma_parse_block_bounds(ts, i);
    }
}

/// Bounds of `parse_blocks`.
pub proof fn lemma_parse_blocks_bounds(ts: Seq<TokenView>, i: int)
    requires
        0 <= i <= ts.len(),
    ensures
        i <= parse_blocks(ts, i).1 <= ts.len(),
    decreases ts.len() - i,
{
    if !at_end(ts, i) {
        lemma_parse_block_bounds(ts, i);
        let step = parse_block(ts, i);
        if step.0 is Ok {
            lemma_parse_blocks_bounds(ts, step.1);
        }
    }
}

/// The whole parse from cursor `i`: the document's blocks wrapped in a
/// `Document` node. Exactly one `Document` per parse; an error aborts the
/// parse and no partial tree is returned.
pub open spec fn parse_doc(ts: Seq<TokenView>, i: int) -> (Result<NodeView, ParseErrorView>, int) {
    let step = parse_blocks(ts, i);
    match step.0 {
        Err(e) => (Err(e), step.1),
        Ok(blocks) => (Ok(NodeView::Document { children: blocks }), step.1),
    }
}

/// What parsing a token sequence yields.
pub open spec fn parse_result(ts: Seq<TokenView>) -> Result<NodeView, ParseErrorView> {
    parse_doc(ts, 0).0
}

} // verus!
