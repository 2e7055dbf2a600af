//! Laws of the pipeline, stated and proved over the mathematical models.
use vstd::prelude::*;

use crate::ast::NodeView;
use crate::ast::wf_block;
use crate::ast::wf_blocks;
use crate::ast::wf_doc;
use crate::ast::wf_inline;
use crate::ast::wf_inlines;
use crate::ast::wf_items;
use crate::error::ParseErrorView;
use crate::grammar::at_end;
use crate::grammar::lemma_emphasis_bounds;
use crate::grammar::lemma_link_bounds;
use crate::grammar::lemma_parse_block_bounds;
use crate::grammar::lemma_parse_inline_bounds;
use crate::grammar::parse_block;
use crate::grammar::parse_blocks;
use crate::grammar::parse_doc;
use crate::grammar::parse_emphasis;
use crate::grammar::parse_heading;
use crate::grammar::parse_inline;
use crate::grammar::parse_link;
use crate::grammar::parse_olist_items;
use crate::grammar::parse_ulist_items;
use crate::grammar::parse_until_asterisk;
use crate::grammar::parse_until_rbracket;
use crate::grammar::tok_at;
use crate::html_outcome;
use crate::lexer::hyphen_breaks;
use crate::lexer::is_digit;
use crate::lexer::is_space;
use crate::lexer::lemma_lex_step_bounds;
use crate::lexer::lemma_run_len_bounds;
use crate::lexer::lemma_run_len_exact;
use crate::lexer::lemma_ws_end_bounds;
use crate::lexer::lex;
use crate::lexer::lex_from;
use crate::lexer::lex_step;
use crate::lexer::text_end;
use crate::lexer::trim_end_spec;
use crate::lexer::ws_end;
use crate::parse_outcome;
use crate::render::HtmlOptionsView;
use crate::token::TokenView;

verus! {

/// Law: the pipeline is deterministic. The rendered output is a function of
/// the input text and the configuration alone, so repeated calls on
/// identical input produce byte-identical output.
pub proof fn lemma_pipeline_deterministic(
    s1: Seq<char>,
    s2: Seq<char>,
    o1: HtmlOptionsView,
    o2: HtmlOptionsView,
)
    requires
        s1 == s2,
        o1 == o2,
    ensures
        html_outcome(s1, o1) == html_outcome(s2, o2),
{
}


/// Law: for every heading level from 1 to 6, parsing that many `#` marks
/// followed by `" X"` yields a document holding exactly one heading of that
/// level whose content is the single text node `"X"`.
pub proof fn lemma_heading_parse(level: u8, s: Seq<char>)
    requires
        1 <= level <= 6,
        s.len() == level + 2,
        forall|i: int| 0 <= i < level ==> s[i] == '#',
        s[level as int] == ' ',
        s[level as int + 1] == 'X',
    ensures
        parse_outcome(s) == Ok::<NodeView, ParseErrorView>(
            NodeView::Document {
                children: seq![
                    NodeView::Heading { level, content: seq![NodeView::Text(seq!['X'])] },
                ],
            },
        ),
{
    let n = level as int;
    lemma_run_len_exact(s, 0, '#', 6, n);
    assert(lex_step(s, 0) == (TokenView::Hash(level), n));
    assert(ws_end(s, n + 1) == n + 1);
    assert(ws_end(s, n) == n + 1);
    assert(text_end(s, n + 1, n + 2) == n + 2);
    assert(text_end(s, n + 1, n + 1) == n + 2);
    let t = s.subrange(n + 1, n + 2);
    assert(t =~= seq!['X']);
    assert(trim_end_spec(seq!['X']) == seq!['X']);
    assert(lex_step(s, n + 1) == (TokenView::Text(seq!['X']), n + 2));
    assert(lex_step(s, n) == lex_step(s, n + 1));
    assert(lex_from(s, n + 2) == seq![TokenView::Eof]);
    assert(lex_from(s, n) =~= seq![TokenView::Text(seq!['X']), TokenView::Eof]);
    assert(lex_from(s, 0) =~= seq![
        TokenView::Hash(level),
        TokenView::Text(seq!['X']),
        TokenView::Eof,
    ]);
    let ts = seq![TokenView::Hash(level), TokenView::Text(seq!['X']), TokenView::Eof];
    assert(lex(s) == ts);
    assert(parse_inline(ts, 2).0 == Ok::<Seq<NodeView>, ParseErrorView>(Seq::empty()));
    assert(parse_inline(ts, 2).1 == 2);
    assert(parse_inline(ts, 1).0->Ok_0 =~= seq![NodeView::Text(seq!['X'])]);
    assert(parse_inline(ts, 1).1 == 2);
    assert(parse_heading(ts, 1, level).0 == Ok::<NodeView, ParseErrorView>(
        NodeView::Heading { level, content: seq![NodeView::Text(seq!['X'])] },
    ));
    assert(parse_block(ts, 0).0 == Ok::<Option<NodeView>, ParseErrorView>(
        Some(NodeView::Heading { level, content: seq![NodeView::Text(seq!['X'])] }),
    ));
    assert(parse_block(ts, 0).1 == 2);
    assert(at_end(ts, 2));
    assert(parse_blocks(ts, 2).0 == Ok::<Seq<NodeView>, ParseErrorView>(Seq::empty()));
    assert(parse_blocks(ts, 0).0->Ok_0 =~= seq![
        NodeView::Heading { level, content: seq![NodeView::Text(seq!['X'])] },
    ]);
    assert(parse_doc(ts, 0).0 == Ok::<NodeView, ParseErrorView>(
        NodeView::Document {
            children: seq![
                NodeView::Heading { level, content: seq![NodeView::Text(seq!['X'])] },
            ],
        },
    ));
}


/// Law: every token sequence the scanner produces ends with `Eof`, and
/// `Eof` appears nowhere else in it.
pub proof fn lemma_single_eof(s: Seq<char>, i: int)
    requires
        0 <= i <= s.len(),
    ensures
        lex_from(s, i).len() >= 1,
        lex_from(s, i).last() is Eof,
        forall|k: int|
            0 <= k < lex_from(s, i).len() - 1 ==> !(#[trigger] lex_from(s, i)[k] is Eof),
    decreases s.len() - i,
{
    if i < s.len() {
        let step = lex_step(s, i);
        if !(step.0 is Eof) {
            lemma_lex_step_bounds(s, i);
            lemma_single_eof(s, step.1);
            assert forall|k: int| 0 <= k < lex_from(s, i).len() - 1 implies !(#[trigger] lex_from(
                s,
                i,
            )[k] is Eof) by {
                if k > 0 {
                    assert(lex_from(s, i)[k] == lex_from(s, step.1)[k - 1]);
                }
            }
        }
    }
}


proof fn lemma_wf_inlines_cons(n: NodeView, ns: Seq<NodeView>)
    requires
        wf_inline(n),
        wf_inlines(ns),
    ensures
        wf_inlines(seq![n] + ns),
{
    assert((seq![n] + ns).first() == n);
    assert((seq![n] + ns).drop_first() =~= ns);
}

proof fn lemma_wf_items_cons(n: NodeView, ns: Seq<NodeView>)
    requires
        n matches NodeView::ListItem { content } && wf_inlines(content),
        wf_items(ns),
    ensures
        wf_items(seq![n] + ns),
{
    assert((seq![n] + ns).first() == n);
    assert((seq![n] + ns).drop_first() =~= ns);
}

proof fn lemma_wf_blocks_cons(n: NodeView, ns: Seq<NodeView>)
    requires
        wf_block(n),
        wf_blocks(ns),
    ensures
        wf_blocks(seq![n] + ns),
{
    assert((seq![n] + ns).first() == n);
    assert((seq![n] + ns).drop_first() =~= ns);
}

proof fn lemma_until_asterisk_wf(ts: Seq<TokenView>, i: int, count: u8)
    requires
        0 <= i <= ts.len(),
    ensures
        parse_until_asterisk(ts, i, count).0 matches Ok(ns) ==> wf_inlines(ns),
    decreases ts.len() - i,
{
    if i < ts.len() {
        let t = ts[i];
        if t == TokenView::Asterisk(count) || t is Newline || t is Eof {
        } else {
            lemma_until_asterisk_wf(ts, i + 1, count);
            match t {
                TokenView::Text(txt) => {
                    let rest = parse_until_asterisk(ts, i + 1, count);
                    if rest.0 is Ok {
                        lemma_wf_inlines_cons(NodeView::Text(txt), rest.0->Ok_0);
                    }
                },
                _ => {},
            }
        }
    }
}

proof fn lemma_until_rbracket_wf(ts: Seq<TokenView>, i: int)
    requires
        0 <= i <= ts.len(),
    ensures
        parse_until_rbracket(ts, i).0 matches Ok(ns) ==> wf_inlines(ns),
    decreases ts.len() - i,
{
    if i < ts.len() {
        let t = ts[i];
        if t is RightBracket || t is Newline || t is Eof {
        } else {
            lemma_until_rbracket_wf(ts, i + 1);
            match t {
                TokenView::Text(txt) => {
                    let rest = parse_until_rbracket(ts, i + 1);
                    if rest.0 is Ok {
                        lemma_wf_inlines_cons(NodeView::Text(txt), rest.0->Ok_0);
                    }
                },
                _ => {},
            }
        }
    }
}

proof fn lemma_inline_wf(ts: Seq<TokenView>, i: int)
    requires
        0 <= i <= ts.len(),
    ensures
        parse_inline(ts, i).0 matches Ok(ns) ==> wf_inlines(ns),
    decreases ts.len() - i,
{
    if i < ts.len() {
        let t = ts[i];
        if t is Newline || t is Eof {
        } else {
            match t {
                TokenView::Text(txt) => {
                    lemma_inline_wf(ts, i + 1);
                    let rest = parse_inline(ts, i + 1);
                    if rest.0 is Ok {
                        lemma_wf_inlines_cons(NodeView::Text(txt), rest.0->Ok_0);
                    }
                },
                TokenView::Asterisk(count) => {
                    lemma_emphasis_bounds(ts, i, count);
                    lemma_until_asterisk_wf(ts, i + 1, count);
                    let span = parse_emphasis(ts, i, count);
                    if span.0 is Ok {
                        lemma_inline_wf(ts, span.1);
                        let rest = parse_inline(ts, span.1);
                        if rest.0 is Ok {
                            lemma_wf_inlines_cons(span.0->Ok_0, rest.0->Ok_0);
                        }
                    }
                },
                TokenView::LeftBracket => {
                    lemma_link_bounds(ts, i);
                    lemma_until_rbracket_wf(ts, i + 1);
                    let link = parse_link(ts, i);
                    if link.0 is Ok {
                        lemma_inline_wf(ts, link.1);
                        let rest = parse_inline(ts, link.1);
                        if rest.0 is Ok {
                            lemma_wf_inlines_cons(link.0->Ok_0, rest.0->Ok_0);
                        }
                    }
                },
                _ => {
                    lemma_inline_wf(ts, i + 1);
                },
            }
        }
    }
}

proof fn lemma_olist_items_wf(ts: Seq<TokenView>, i: int)
    requires
        0 <= i <= ts.len(),
    ensures
        parse_olist_items(ts, i).0 matches Ok(ns) ==> wf_items(ns),
    decreases ts.len() - i,
{
    if tok_at(ts, i) matches Some(TokenView::Number(_)) {
        let after_dot = if tok_at(ts, i + 1) matches Some(TokenView::Dot) {
            i + 2
        } else {
            i + 1
        };
        lemma_parse_inline_bounds(ts, after_dot);
        lemma_inline_wf(ts, after_dot);
        let content_step = parse_inline(ts, after_dot);
        if content_step.0 is Ok {
            let after_nl = if tok_at(ts, content_step.1) matches Some(TokenView::Newline) {
                content_step.1 + 1
            } else {
                content_step.1
            };
            lemma_olist_items_wf(ts, after_nl);
            let rest = parse_olist_items(ts, after_nl);
            if rest.0 is Ok {
                lemma_wf_items_cons(
                    NodeView::ListItem { content: content_step.0->Ok_0 },
                    rest.0->Ok_0,
                );
            }
        }
    }
}

proof fn lemma_ulist_items_wf(ts: Seq<TokenView>, i: int)
    requires
        0 <= i <= ts.len(),
    ensures
        parse_ulist_items(ts, i).0 matches Ok(ns) ==> wf_items(ns),
    decreases ts.len() - i,
{
    if tok_at(ts, i) matches Some(TokenView::Hyphen) {
        lemma_parse_inline_bounds(ts, i + 1);
        lemma_inline_wf(ts, i + 1);
        let content_step = parse_inline(ts, i + 1);
        if content_step.0 is Ok {
            let after_nl = if tok_at(ts, content_step.1) matches Some(TokenView::Newline) {
                content_step.1 + 1
            } else {
                content_step.1
            };
            lemma_ulist_items_wf(ts, after_nl);
            let rest = parse_ulist_items(ts, after_nl);
            if rest.0 is Ok {
                lemma_wf_items_cons(
                    NodeView::ListItem { content: content_step.0->Ok_0 },
                    rest.0->Ok_0,
                );
            }
        }
    }
}

proof fn lemma_block_wf(ts: Seq<TokenView>, i: int)
    requires
        0 <= i <= ts.len(),
    ensures
        match parse_block(ts, i).0 {
            Ok(opt) => match opt {
                Some(node) => wf_block(node),
                None => true,
            },
            Err(_) => true,
        },
{
    if i < ts.len() {
        match ts[i] {
            TokenView::Hash(_) => {
                lemma_inline_wf(ts, i + 1);
            },
            TokenView::Number(_) => {
                lemma_olist_items_wf(ts, i);
            },
            TokenView::Hyphen => {
                lemma_ulist_items_wf(ts, i);
            },
            TokenView::Newline => {},
            _ => {
                lemma_inline_wf(ts, i);
            },
        }
    }
}

proof fn lemma_blocks_wf(ts: Seq<TokenView>, i: int)
    requires
        0 <= i <= ts.len(),
    ensures
        parse_blocks(ts, i).0 matches Ok(ns) ==> wf_blocks(ns),
    decreases ts.len() - i,
{
    if !at_end(ts, i) {
        lemma_parse_block_bounds(ts, i);
        lemma_block_wf(ts, i);
        let step = parse_block(ts, i);
        if step.0 is Ok {
            lemma_blocks_wf(ts, step.1);
            let rest = parse_blocks(ts, step.1);
            if rest.0 is Ok && step.0->Ok_0 is Some {
                lemma_wf_blocks_cons(step.0->Ok_0->Some_0, rest.0->Ok_0);
            }
        }
    }
}

/// Law: every tree the parser returns is well shaped. The root is a
/// `Document` of block nodes; headings, paragraphs and list items hold only
/// inline nodes; lists hold only list items.
pub proof fn lemma_parse_yields_wf_tree(s: Seq<char>)
    ensures
        parse_outcome(s) matches Ok(nv) ==> wf_doc(nv),
{
    lemma_blocks_wf(lex(s), 0);
}


/// Marker tokens carry payloads in their stated ranges: a `Hash` level is
/// between 1 and 6 and an `Asterisk` or `Underscore` run length between 1
/// and 3.
pub open spec fn token_payload_in_range(t: TokenView) -> bool {
    match t {
        TokenView::Hash(n) => 1 <= n <= 6,
        TokenView::Asterisk(n) => 1 <= n <= 3,
        TokenView::Underscore(n) => 1 <= n <= 3,
        _ => true,
    }
}

proof fn lemma_lex_step_payload_range(s: Seq<char>, i: int)
    requires
        0 <= i <= s.len(),
    ensures
        token_payload_in_range(lex_step(s, i).0),
    decreases s.len() - i,
{
    if i < s.len() {
        let c = s[i];
        if c == '#' {
            lemma_run_len_bounds(s, i + 1, '#', 5);
        } else if c == '*' {
            lemma_run_len_bounds(s, i + 1, '*', 2);
        } else if c == '_' {
            lemma_run_len_bounds(s, i + 1, '_', 2);
        } else if c == '\n' || c == '\r' || c == '[' || c == ']' || c == '(' || c == ')' || (c
            == '-' && hyphen_breaks(s, i + 1)) || c == '.' || is_digit(c) {
        } else if is_space(c) {
            lemma_ws_end_bounds(s, i + 1);
            lemma_lex_step_payload_range(s, ws_end(s, i));
        }
    }
}

/// Law: every marker token the scanner produces carries a payload in its
/// stated range; in particular every `Hash` level is between 1 and 6.
pub proof fn lemma_lex_payloads_in_range(s: Seq<char>, i: int)
    requires
        0 <= i <= s.len(),
    ensures
        forall|k: int|
            0 <= k < lex_from(s, i).len() ==> token_payload_in_range(
                #[trigger] lex_from(s, i)[k],
            ),
    decreases s.len() - i,
{
    if i < s.len() {
        let step = lex_step(s, i);
        lemma_lex_step_payload_range(s, i);
        if !(step.0 is Eof) {
            lemma_lex_step_bounds(s, i);
            lemma_lex_payloads_in_range(s, step.1);
            assert forall|k: int| 0 <= k < lex_from(s, i).len() implies token_payload_in_range(
                #[trigger] lex_from(s, i)[k],
            ) by {
                if k > 0 {
                    assert(lex_from(s, i)[k] == lex_from(s, step.1)[k - 1]);
                }
            }
        }
    }
}


/// Every heading among `ns` has a level between 1 and 6.
pub open spec fn heading_levels_in_range(ns: Seq<NodeView>) -> bool {
    forall|k: int|
        0 <= k < ns.len() ==> match #[trigger] ns[k] {
            NodeView::Heading { level, .. } => 1 <= level <= 6,
            _ => true,
        }
}

proof fn lemma_blocks_heading_levels(ts: Seq<TokenView>, i: int)
    requires
        0 <= i <= ts.len(),
        forall|k: int| 0 <= k < ts.len() ==> token_payload_in_range(#[trigger] ts[k]),
    ensures
        parse_blocks(ts, i).0 matches Ok(ns) ==> heading_levels_in_range(ns),
    decreases ts.len() - i,
{
    if !at_end(ts, i) {
        lemma_parse_block_bounds(ts, i);
        let step = parse_block(ts, i);
        if step.0 is Ok {
            lemma_blocks_heading_levels(ts, step.1);
            let rest = parse_blocks(ts, step.1);
            if rest.0 is Ok && step.0->Ok_0 is Some {
                let node = step.0->Ok_0->Some_0;
                let ns = seq![node] + rest.0->Ok_0;
                assert forall|k: int|
                    0 <= k < ns.len() implies match #[trigger] ns[k] {
                    NodeView::Heading { level, .. } => 1 <= level <= 6,
                    _ => true,
                } by {
                    if k > 0 {
                        assert(ns[k] == rest.0->Ok_0[k - 1]);
                    }
                }
            }
        }
    }
}

/// Law: every heading in a tree parsed from text has a level between 1 and
/// 6. The scanner caps `#` runs at six, so the parser can build no other
/// level, and the well-shapedness law puts headings only among the
/// document's children.
pub proof fn lemma_parse_heading_levels(s: Seq<char>)
    ensures
        parse_outcome(s) matches Ok(nv) ==> (nv matches NodeView::Document { children }
            && heading_levels_in_range(children)),
{
    lemma_lex_payloads_in_range(s, 0);
    lemma_blocks_heading_levels(lex(s), 0);
}

} // verus!
