//! The parser: token sequence in, document tree out.
//!
//! Each method is proved to return exactly what the corresponding function
//! of the `grammar` model yields, and to leave the cursor exactly where the
//! model says.
use vstd::prelude::*;
use vstd::string::StringExecFns;

use crate::ast::AstNode;
use crate::ast::NodeView;
use crate::ast::nodes_view;
use crate::error::ParseError;
use crate::error::ParseErrorView;
use crate::grammar;
use crate::token::Token;
use crate::token::TokenView;

verus! {

/// A parsing step's outcome with the node views accumulated before it put
/// in front: the shape of every list-building loop's invariant.
spec fn chain(acc: Seq<NodeView>, step: (Result<Seq<NodeView>, ParseErrorView>, int)) -> (Result<
    Seq<NodeView>,
    ParseErrorView,
>, int) {
    match step.0 {
        Ok(ns) => (Ok(acc + ns), step.1),
        Err(e) => (Err(e), step.1),
    }
}

/// A copy of a token, equal to it in value.
fn token_clone(t: &Token) -> (r: Token)
    ensures
        r@ == t@,
{
    match t {
        Token::Text(s) => Token::Text(s.clone()),
        Token::Newline => Token::Newline,
        Token::Eof => Token::Eof,
        Token::Hash(n) => Token::Hash(*n),
        Token::Asterisk(n) => Token::Asterisk(*n),
        Token::Underscore(n) => Token::Underscore(*n),
        Token::LeftBracket => Token::LeftBracket,
        Token::RightBracket => Token::RightBracket,
        Token::LeftParen => Token::LeftParen,
        Token::RightParen => Token::RightParen,
        Token::Hyphen => Token::Hyphen,
        Token::Number(n) => Token::Number(*n),
        Token::Dot => Token::Dot,
        Token::Url(s) => Token::Url(s.clone()),
    }
}

/// The name of a token's kind, for `ExpectedToken` diagnostics.
fn token_kind_label(t: &Token) -> (r: String)
    ensures
        r@ == grammar::token_kind_name(t@),
{
    match t {
        Token::Text(_) => String::from_str("Text"),
        Token::Newline => String::from_str("Newline"),
        Token::Eof => String::from_str("Eof"),
        Token::Hash(_) => String::from_str("Hash"),
        Token::Asterisk(_) => String::from_str("Asterisk"),
        Token::Underscore(_) => String::from_str("Underscore"),
        Token::LeftBracket => String::from_str("LeftBracket"),
        Token::RightBracket => String::from_str("RightBracket"),
        Token::LeftParen => String::from_str("LeftParen"),
        Token::RightParen => String::from_str("RightParen"),
        Token::Hyphen => String::from_str("Hyphen"),
        Token::Number(_) => String::from_str("Number"),
        Token::Dot => String::from_str("Dot"),
        Token::Url(_) => String::from_str("Url"),
    }
}

/// Whether two tokens have the same kind, payloads aside.
fn token_kinds_match(a: &Token, b: &Token) -> (r: bool)
    ensures
        r == grammar::same_kind(a@, b@),
{
    match (a, b) {
        (Token::Text(_), Token::Text(_)) => true,
        (Token::Newline, Token::Newline) => true,
        (Token::Eof, Token::Eof) => true,
        (Token::Hash(_), Token::Hash(_)) => true,
        (Token::Asterisk(_), Token::Asterisk(_)) => true,
        (Token::Underscore(_), Token::Underscore(_)) => true,
        (Token::LeftBracket, Token::LeftBracket) => true,
        (Token::RightBracket, Token::RightBracket) => true,
        (Token::LeftParen, Token::LeftParen) => true,
        (Token::RightParen, Token::RightParen) => true,
        (Token::Hyphen, Token::Hyphen) => true,
        (Token::Number(_), Token::Number(_)) => true,
        (Token::Dot, Token::Dot) => true,
        (Token::Url(_), Token::Url(_)) => true,
        _ => false,
    }
}

/// The parser: a cursor over an immutable token sequence.
///
/// The fields are public as plain state: any cursor position is meaningful,
/// positions past the end simply read no token.
pub struct Parser {
    pub tokens: Vec<Token>,
    pub current: usize,
}

impl Parser {
    /// The mathematical values of the tokens.
    pub open spec fn toks(&self) -> Seq<TokenView> {
        self.tokens.deep_view()
    }

    /// The current cursor position.
    pub open spec fn cursor(&self) -> int {
        self.current as int
    }

    /// A parser over `tokens` with the cursor at the start.
    pub fn new(tokens: Vec<Token>) -> (p: Parser)
        ensures
            p.toks() == tokens.deep_view(),
            p.cursor() == 0,
    {
        Parser { tokens, current: 0 }
    }

    /// The token under the cursor, or `None` past the end.
    pub fn current_token(&self) -> (r: Option<&Token>)
        ensures
            match grammar::tok_at(self.toks(), self.cursor()) {
                None => r is None,
                Some(tv) => r matches Some(t) && t@ == tv,
            },
    {
        if self.current < self.tokens.len() {
            Some(&self.tokens[self.current])
        } else {
            None
        }
    }

    /// A copy of the token under the cursor, or `None` past the end.
    fn peek_cloned(&self) -> (r: Option<Token>)
        ensures
            match grammar::tok_at(self.toks(), self.cursor()) {
                None => r is None,
                Some(tv) => r matches Some(t) && t@ == tv,
            },
    {
        if self.current < self.tokens.len() {
            Some(token_clone(&self.tokens[self.current]))
        } else {
            None
        }
    }

    /// Move the cursor one token forward; past the end it stays put.
    pub fn advance(&mut self)
        ensures
            final(self).tokens == old(self).tokens,
            final(self).cursor() == (if old(self).cursor() < old(self).toks().len() {
                old(self).cursor() + 1
            } else {
                old(self).cursor()
            }),
    {
        if self.current < self.tokens.len() {
            self.current = self.current + 1;
        }
    }

    /// Whether parsing stops here: the cursor is past the end or on `Eof`.
    pub fn is_at_end(&self) -> (r: bool)
        ensures
            r == grammar::at_end(self.toks(), self.cursor()),
    {
        if self.current >= self.tokens.len() {
            true
        } else {
            match &self.tokens[self.current] {
                Token::Eof => true,
                _ => false,
            }
        }
    }

    /// Demand a token of `expected`'s kind under the cursor and consume it;
    /// fail with `ExpectedToken` or `UnexpectedEndOfInput` as the grammar
    /// says.
    fn expect_token(&mut self, expected: &Token) -> (r: Result<(), ParseError>)
        ensures
            final(self).tokens == old(self).tokens,
            ({
                let step = grammar::expect_step(old(self).toks(), old(self).cursor(), expected@);
                &&& final(self).cursor() == step.1
                &&& (match step.0 {
                    Ok(u) => r is Ok,
                    Err(e) => r matches Err(pe) && pe@ == e,
                })
            }),
    {
        if self.current < self.tokens.len() {
            let matches_kind = token_kinds_match(&self.tokens[self.current], expected);
            if matches_kind {
                self.advance();
                Ok(())
            } else {
                let found = token_kind_label(&self.tokens[self.current]);
                Err(ParseError::ExpectedToken { expected: token_kind_label(expected), found })
            }
        } else {
            Err(ParseError::UnexpectedEndOfInput)
        }
    }

    /// The content of an emphasis span: text until the matching closer, as
    /// the grammar's `parse_until_asterisk` says.
    fn parse_inline_until_asterisk(&mut self, count: u8) -> (r: Result<Vec<AstNode>, ParseError>)
        ensures
            final(self).tokens == old(self).tokens,
            ({
                let step = grammar::parse_until_asterisk(
                    old(self).toks(),
                    old(self).cursor(),
                    count,
                );
                &&& final(self).cursor() == step.1
                &&& (match step.0 {
                    Ok(ns) => r matches Ok(v) && nodes_view(v@) == ns,
                    Err(e) => r matches Err(pe) && pe@ == e,
                })
            }),
    {
        let ghost ts = self.toks();
        let ghost i0 = self.cursor();
        let mut content: Vec<AstNode> = Vec::new();
        proof {
            assert(nodes_view(content@) + grammar::parse_until_asterisk(
                ts,
                i0,
                count,
            ).0->Ok_0 =~= grammar::parse_until_asterisk(ts, i0, count).0->Ok_0);
        }
        loop
            invariant_except_break
                grammar::parse_until_asterisk(ts, i0, count) == chain(
                    nodes_view(content@),
                    grammar::parse_until_asterisk(ts, self.cursor(), count),
                ),
            invariant
                self.tokens == old(self).tokens,
                ts == self.toks(),
                i0 == old(self).cursor(),
                0 <= self.cursor(),
            ensures
                self.tokens == old(self).tokens,
                ts == self.toks(),
                ({
                    let step = grammar::parse_until_asterisk(ts, i0, count);
                    &&& step.0 matches Ok(ns) && ns == nodes_view(content@)
                    &&& step.1 == self.cursor()
                }),
            decreases ts.len() - self.cursor() + 1,
        {
            let ghost cur = self.cursor();
            let ghost acc0 = nodes_view(content@);
            match self.peek_cloned() {
                None => {
                    proof {
                        assert(acc0 + Seq::<NodeView>::empty() =~= acc0);
                    }
                    break ;
                },
                Some(token) => {
                    let is_closer = match &token {
                        Token::Asterisk(c) => *c == count,
                        _ => false,
                    };
                    if is_closer {
                        self.advance();
                        proof {
                            assert(acc0 + Seq::<NodeView>::empty() =~= acc0);
                        }
                        break ;
                    }
                    let is_line_end = match &token {
                        Token::Newline => true,
                        Token::Eof => true,
                        _ => false,
                    };
                    if is_line_end {
                        return Err(
                            ParseError::UnclosedDelimiter {
                                delimiter: '*',
                                open_line: 0,
                                open_column: 0,
                            },
                        );
                    }
                    match token {
                        Token::Text(text) => {
                            content.push(AstNode::Text(text));
                            self.advance();
                            proof {
                                let rest = grammar::parse_until_asterisk(ts, self.cursor(), count);
                                assert(nodes_view(content@) =~= acc0 + seq![
                                    NodeView::Text(ts[cur]->Text_0),
                                ]);
                                if rest.0 is Ok {
                                    assert(acc0 + (seq![NodeView::Text(ts[cur]->Text_0)]
                                        + rest.0->Ok_0) =~= nodes_view(content@) + rest.0->Ok_0);
                                }
                            }
                        },
                        _ => {
                            self.advance();
                        },
                    }
                },
            }
        }
        Ok(content)
    }

    /// The text of a link: text until the closing bracket, as the grammar's
    /// `parse_until_rbracket` says.
    fn parse_inline_until_right_bracket(&mut self) -> (r: Result<Vec<AstNode>, ParseError>)
        ensures
            final(self).tokens == old(self).tokens,
            ({
                let step = grammar::parse_until_rbracket(old(self).toks(), old(self).cursor());
                &&& final(self).cursor() == step.1
                &&& (match step.0 {
                    Ok(ns) => r matches Ok(v) && nodes_view(v@) == ns,
                    Err(e) => r matches Err(pe) && pe@ == e,
                })
            }),
    {
        let ghost ts = self.toks();
        let ghost i0 = self.cursor();
        let mut content: Vec<AstNode> = Vec::new();
        proof {
            assert(nodes_view(content@) + grammar::parse_until_rbracket(ts, i0).0->Ok_0
                =~= grammar::parse_until_rbracket(ts, i0).0->Ok_0);
        }
        loop
            invariant_except_break
                grammar::parse_until_rbracket(ts, i0) == chain(
                    nodes_view(content@),
                    grammar::parse_until_rbracket(ts, self.cursor()),
                ),
            invariant
                self.tokens == old(self).tokens,
                ts == self.toks(),
                i0 == old(self).cursor(),
                0 <= self.cursor(),
            ensures
                self.tokens == old(self).tokens,
                ts == self.toks(),
                ({
                    let step = grammar::parse_until_rbracket(ts, i0);
                    &&& step.0 matches Ok(ns) && ns == nodes_view(content@)
                    &&& step.1 == self.cursor()
                }),
            decreases ts.len() - self.cursor() + 1,
        {
            let ghost cur = self.cursor();
            let ghost acc0 = nodes_view(content@);
            match self.peek_cloned() {
                None => {
                    proof {
                        assert(acc0 + Seq::<NodeView>::empty() =~= acc0);
                    }
                    break ;
                },
                Some(token) => {
                    let is_closer = match &token {
                        Token::RightBracket => true,
                        _ => false,
                    };
                    if is_closer {
                        proof {
                            assert(acc0 + Seq::<NodeView>::empty() =~= acc0);
                        }
                        break ;
                    }
                    let is_line_end = match &token {
                        Token::Newline => true,
                        Token::Eof => true,
                        _ => false,
                    };
                    if is_line_end {
                        return Err(
                            ParseError::UnclosedDelimiter {
                                delimiter: '[',
                                open_line: 0,
                                open_column: 0,
                            },
                        );
                    }
                    match token {
                        Token::Text(text) => {
                            content.push(AstNode::Text(text));
                            self.advance();
                            proof {
                                let rest = grammar::parse_until_rbracket(ts, self.cursor());
                                assert(nodes_view(content@) =~= acc0 + seq![
                                    NodeView::Text(ts[cur]->Text_0),
                                ]);
                                if rest.0 is Ok {
                                    assert(acc0 + (seq![NodeView::Text(ts[cur]->Text_0)]
                                        + rest.0->Ok_0) =~= nodes_view(content@) + rest.0->Ok_0);
                                }
                            }
                        },
                        _ => {
                            self.advance();
                        },
                    }
                },
            }
        }
        Ok(content)
    }

    /// An emphasis span, with the cursor on its opening marker.
    fn parse_emphasis(&mut self, count: u8) -> (r: Result<AstNode, ParseError>)
        requires
            old(self).cursor() < old(self).toks().len(),
        ensures
            final(self).tokens == old(self).tokens,
            ({
                let step = grammar::parse_emphasis(old(self).toks(), old(self).cursor(), count);
                &&& final(self).cursor() == step.1
                &&& (match step.0 {
                    Ok(nv) => r matches Ok(n) && n@ == nv,
                    Err(e) => r matches Err(pe) && pe@ == e,
                })
            }),
    {
        self.advance();
        let content = match self.parse_inline_until_asterisk(count) {
            Ok(content) => content,
            Err(e) => {
                return Err(e);
            },
        };
        if count == 1 {
            Ok(AstNode::Italic(content))
        } else if count == 2 {
            Ok(AstNode::Bold(content))
        } else {
            Err(ParseError::InvalidEmphasis(count))
        }
    }

    /// A link, with the cursor on its opening bracket.
    fn parse_link(&mut self) -> (r: Result<AstNode, ParseError>)
        requires
            old(self).cursor() < old(self).toks().len(),
        ensures
            final(self).tokens == old(self).tokens,
            ({
                let step = grammar::parse_link(old(self).toks(), old(self).cursor());
                &&& final(self).cursor() == step.1
                &&& (match step.0 {
                    Ok(nv) => r matches Ok(n) && n@ == nv,
                    Err(e) => r matches Err(pe) && pe@ == e,
                })
            }),
    {
        self.advance();
        let text = match self.parse_inline_until_right_bracket() {
            Ok(text) => text,
            Err(e) => {
                return Err(e);
            },
        };
        match self.expect_token(&Token::RightBracket) {
            Ok(_) => (),
            Err(e) => {
                return Err(e);
            },
        }
        match self.expect_token(&Token::LeftParen) {
            Ok(_) => (),
            Err(e) => {
                return Err(e);
            },
        }
        let url = match self.peek_cloned() {
            Some(Token::Url(url)) => {
                self.advance();
                url
            },
            Some(Token::Text(text_url)) => {
                self.advance();
                text_url
            },
            _ => {
                return Err(ParseError::ExpectedUrl);
            },
        };
        match self.expect_token(&Token::RightParen) {
            Ok(_) => (),
            Err(e) => {
                return Err(e);
            },
        }
        Ok(AstNode::Link { text, url })
    }

    /// The inline content of one line, up to a line end or the end of the
    /// tokens.
    fn parse_inline_content_until_newline(&mut self) -> (r: Result<Vec<AstNode>, ParseError>)
        ensures
            final(self).tokens == old(self).tokens,
            ({
                let step = grammar::parse_inline(old(self).toks(), old(self).cursor());
                &&& final(self).cursor() == step.1
                &&& (match step.0 {
                    Ok(ns) => r matches Ok(v) && nodes_view(v@) == ns,
                    Err(e) => r matches Err(pe) && pe@ == e,
                })
            }),
    {
        let ghost ts = self.toks();
        let ghost i0 = self.cursor();
        let mut content: Vec<AstNode> = Vec::new();
        loop
            invariant_except_break
                grammar::parse_inline(ts, i0) == chain(
                    nodes_view(content@),
                    grammar::parse_inline(ts, self.cursor()),
                ),
            invariant
                self.tokens == old(self).tokens,
                ts == self.toks(),
                i0 == old(self).cursor(),
                0 <= self.cursor(),
            ensures
                self.tokens == old(self).tokens,
                ts == self.toks(),
                ({
                    let step = grammar::parse_inline(ts, i0);
                    &&& step.0 matches Ok(ns) && ns == nodes_view(content@)
                    &&& step.1 == self.cursor()
                }),
            decreases ts.len() - self.cursor() + 1,
        {
            let ghost cur = self.cursor();
            let ghost acc0 = nodes_view(content@);
            match self.peek_cloned() {
                None => {
                    proof {
                        assert(acc0 + Seq::<NodeView>::empty() =~= acc0);
                    }
                    break ;
                },
                Some(token) => {
                    let stop = match &token {
                        Token::Newline => true,
                        Token::Eof => true,
                        _ => false,
                    };
                    if stop {
                        proof {
                            assert(acc0 + Seq::<NodeView>::empty() =~= acc0);
                        }
                        break ;
                    }
                    match token {
                        Token::Text(text) => {
                            content.push(AstNode::Text(text));
                            self.advance();
                            proof {
                                let rest = grammar::parse_inline(ts, self.cursor());
                                assert(nodes_view(content@) =~= acc0 + seq![
                                    NodeView::Text(ts[cur]->Text_0),
                                ]);
                                if rest.0 is Ok {
                                    assert(acc0 + (seq![NodeView::Text(ts[cur]->Text_0)]
                                        + rest.0->Ok_0) =~= nodes_view(content@) + rest.0->Ok_0);
                                }
                            }
                        },
                        Token::Asterisk(count) => {
                            let node = match self.parse_emphasis(count) {
                                Ok(n) => n,
                                Err(e) => {
                                    return Err(e);
                                },
                            };
                            content.push(node);
                            proof {
                                grammar::lemma_emphasis_bounds(ts, cur, count);
                                let span = grammar::parse_emphasis(ts, cur, count);
                                let rest = grammar::parse_inline(ts, self.cursor());
                                assert(nodes_view(content@) =~= acc0 + seq![span.0->Ok_0]);
                                if rest.0 is Ok {
                                    assert(acc0 + (seq![span.0->Ok_0] + rest.0->Ok_0)
                                        =~= nodes_view(content@) + rest.0->Ok_0);
                                }
                            }
                        },
                        Token::LeftBracket => {
                            let node = match self.parse_link() {
                                Ok(n) => n,
                                Err(e) => {
                                    return Err(e);
                                },
                            };
                            content.push(node);
                            proof {
                                grammar::lemma_link_bounds(ts, cur);
                                let link = grammar::parse_link(ts, cur);
                                let rest = grammar::parse_inline(ts, self.cursor());
                                assert(nodes_view(content@) =~= acc0 + seq![link.0->Ok_0]);
                                if rest.0 is Ok {
                                    assert(acc0 + (seq![link.0->Ok_0] + rest.0->Ok_0)
                                        =~= nodes_view(content@) + rest.0->Ok_0);
                                }
                            }
                        },
                        _ => {
                            self.advance();
                        },
                    }
                },
            }
        }
        Ok(content)
    }

    /// A heading of the given level: one line of inline content.
    fn parse_heading(&mut self, level: u8) -> (r: Result<AstNode, ParseError>)
        ensures
            final(self).tokens == old(self).tokens,
            ({
                let step = grammar::parse_heading(old(self).toks(), old(self).cursor(), level);
                &&& final(self).cursor() == step.1
                &&& (match step.0 {
                    Ok(nv) => r matches Ok(n) && n@ == nv,
                    Err(e) => r matches Err(pe) && pe@ == e,
                })
            }),
    {
        let content = match self.parse_inline_content_until_newline() {
            Ok(c) => c,
            Err(e) => {
                return Err(e);
            },
        };
        Ok(AstNode::Heading { level, content })
    }

    /// A paragraph: one line of inline content.
    fn parse_paragraph(&mut self) -> (r: Result<AstNode, ParseError>)
        ensures
            final(self).tokens == old(self).tokens,
            ({
                let step = grammar::parse_paragraph(old(self).toks(), old(self).cursor());
                &&& final(self).cursor() == step.1
                &&& (match step.0 {
                    Ok(nv) => r matches Ok(n) && n@ == nv,
                    Err(e) => r matches Err(pe) && pe@ == e,
                })
            }),
    {
        let content = match self.parse_inline_content_until_newline() {
            Ok(c) => c,
            Err(e) => {
                return Err(e);
            },
        };
        Ok(AstNode::Paragraph { content })
    }

    /// An ordered list: a run of `Number [Dot] <line>` items.
    fn parse_ordered_list(&mut self) -> (r: Result<AstNode, ParseError>)
        ensures
            final(self).tokens == old(self).tokens,
            ({
                let step = grammar::parse_ordered_list(old(self).toks(), old(self).cursor());
                &&& final(self).cursor() == step.1
                &&& (match step.0 {
                    Ok(nv) => r matches Ok(n) && n@ == nv,
                    Err(e) => r matches Err(pe) && pe@ == e,
                })
            }),
    {
        let ghost ts = self.toks();
        let ghost i0 = self.cursor();
        let mut items: Vec<AstNode> = Vec::new();
        loop
            invariant_except_break
                grammar::parse_olist_items(ts, i0) == chain(
                    nodes_view(items@),
                    grammar::parse_olist_items(ts, self.cursor()),
                ),
            invariant
                self.tokens == old(self).tokens,
                ts == self.toks(),
                i0 == old(self).cursor(),
                0 <= self.cursor(),
            ensures
                self.tokens == old(self).tokens,
                ts == self.toks(),
                ({
                    let step = grammar::parse_olist_items(ts, i0);
                    &&& step.0 matches Ok(ns) && ns == nodes_view(items@)
                    &&& step.1 == self.cursor()
                }),
            decreases ts.len() - self.cursor() + 1,
        {
            let ghost cur = self.cursor();
            let ghost acc0 = nodes_view(items@);
            let is_number = match self.peek_cloned() {
                Some(Token::Number(_)) => true,
                _ => false,
            };
            if !is_number {
                proof {
                    assert(acc0 + Seq::<NodeView>::empty() =~= acc0);
                }
                break ;
            }
            self.advance();
            let is_dot = match self.peek_cloned() {
                Some(Token::Dot) => true,
                _ => false,
            };
            if is_dot {
                self.advance();
            }
            let ghost after_dot = self.cursor();
            let content = match self.parse_inline_content_until_newline() {
                Ok(c) => c,
                Err(e) => {
                    return Err(e);
                },
            };
            items.push(AstNode::ListItem { content });
            let is_newline = match self.peek_cloned() {
                Some(Token::Newline) => true,
                _ => false,
            };
            if is_newline {
                self.advance();
            }
            proof {
                grammar::lemma_parse_inline_bounds(ts, after_dot);
                let content_step = grammar::parse_inline(ts, after_dot);
                let rest = grammar::parse_olist_items(ts, self.cursor());
                assert(nodes_view(items@) =~= acc0 + seq![
                    NodeView::ListItem { content: content_step.0->Ok_0 },
                ]);
                if rest.0 is Ok {
                    assert(acc0 + (seq![NodeView::ListItem { content: content_step.0->Ok_0 }]
                        + rest.0->Ok_0) =~= nodes_view(items@) + rest.0->Ok_0);
                }
            }
        }
        Ok(AstNode::List { ordered: true, items })
    }

    /// An unordered list: a run of `Hyphen <line>` items.
    fn parse_unordered_list(&mut self) -> (r: Result<AstNode, ParseError>)
        ensures
            final(self).tokens == old(self).tokens,
            ({
                let step = grammar::parse_unordered_list(old(self).toks(), old(self).cursor());
                &&& final(self).cursor() == step.1
                &&& (match step.0 {
                    Ok(nv) => r matches Ok(n) && n@ == nv,
                    Err(e) => r matches Err(pe) && pe@ == e,
                })
            }),
    {
        let ghost ts = self.toks();
        let ghost i0 = self.cursor();
        let mut items: Vec<AstNode> = Vec::new();
        loop
            invariant_except_break
                grammar::parse_ulist_items(ts, i0) == chain(
                    nodes_view(items@),
                    grammar::parse_ulist_items(ts, self.cursor()),
                ),
            invariant
                self.tokens == old(self).tokens,
                ts == self.toks(),
                i0 == old(self).cursor(),
                0 <= self.cursor(),
            ensures
                self.tokens == old(self).tokens,
                ts == self.toks(),
                ({
                    let step = grammar::parse_ulist_items(ts, i0);
                    &&& step.0 matches Ok(ns) && ns == nodes_view(items@)
                    &&& step.1 == self.cursor()
                }),
            decreases ts.len() - self.cursor() + 1,
        {
            let ghost cur = self.cursor();
            let ghost acc0 = nodes_view(items@);
            let is_hyphen = match self.peek_cloned() {
                Some(Token::Hyphen) => true,
                _ => false,
            };
            if !is_hyphen {
                proof {
                    assert(acc0 + Seq::<NodeView>::empty() =~= acc0);
                }
                break ;
            }
            self.advance();
            let content = match self.parse_inline_content_until_newline() {
                Ok(c) => c,
                Err(e) => {
                    return Err(e);
                },
            };
            items.push(AstNode::ListItem { content });
            let is_newline = match self.peek_cloned() {
                Some(Token::Newline) => true,
                _ => false,
            };
            if is_newline {
                self.advance();
            }
            proof {
                grammar::lemma_parse_inline_bounds(ts, cur + 1);
                let content_step = grammar::parse_inline(ts, cur + 1);
                let rest = grammar::parse_ulist_items(ts, self.cursor());
                assert(nodes_view(items@) =~= acc0 + seq![
                    NodeView::ListItem { content: content_step.0->Ok_0 },
                ]);
                if rest.0 is Ok {
                    assert(acc0 + (seq![NodeView::ListItem { content: content_step.0->Ok_0 }]
                        + rest.0->Ok_0) =~= nodes_view(items@) + rest.0->Ok_0);
                }
            }
        }
        Ok(AstNode::List { ordered: false, items })
    }

    /// One block: heading, list, skipped blank line, or paragraph.
    fn parse_block(&mut self) -> (r: Result<Option<AstNode>, ParseError>)
        ensures
            final(self).tokens == old(self).tokens,
            ({
                let step = grammar::parse_block(old(self).toks(), old(self).cursor());
                &&& final(self).cursor() == step.1
                &&& (match step.0 {
                    Ok(opt) => r matches Ok(ropt) && (match opt {
                        None => ropt is None,
                        Some(nv) => ropt matches Some(n) && n@ == nv,
                    }),
                    Err(e) => r matches Err(pe) && pe@ == e,
                })
            }),
    {
        match self.peek_cloned() {
            Some(Token::Hash(level)) => {
                self.advance();
                match self.parse_heading(level) {
                    Ok(node) => Ok(Some(node)),
                    Err(e) => Err(e),
                }
            },
            Some(Token::Number(_)) => {
                match self.parse_ordered_list() {
                    Ok(node) => Ok(Some(node)),
                    Err(e) => Err(e),
                }
            },
            Some(Token::Hyphen) => {
                match self.parse_unordered_list() {
                    Ok(node) => Ok(Some(node)),
                    Err(e) => Err(e),
                }
            },
            Some(Token::Newline) => {
                self.advance();
                Ok(None)
            },
            Some(_) => {
                match self.parse_paragraph() {
                    Ok(node) => Ok(Some(node)),
                    Err(e) => Err(e),
                }
            },
            None => Ok(None),
        }
    }

    /// Parse the whole token sequence into a document tree.
    ///
    /// Returns exactly one `Document` node on success; any parse error
    /// aborts the whole parse and no partial tree is returned.
    pub fn parse(&mut self) -> (r: Result<AstNode, ParseError>)
        ensures
            final(self).tokens == old(self).tokens,
            ({
                let step = grammar::parse_doc(old(self).toks(), old(self).cursor());
                &&& final(self).cursor() == step.1
                &&& (match step.0 {
                    Ok(nv) => r matches Ok(n) && n@ == nv,
                    Err(e) => r matches Err(pe) && pe@ == e,
                })
            }),
    {
        let ghost ts = self.toks();
        let ghost i0 = self.cursor();
        let mut children: Vec<AstNode> = Vec::new();
        loop
            invariant_except_break
                grammar::parse_blocks(ts, i0) == chain(
                    nodes_view(children@),
                    grammar::parse_blocks(ts, self.cursor()),
                ),
            invariant
                self.tokens == old(self).tokens,
                ts == self.toks(),
                i0 == old(self).cursor(),
                0 <= self.cursor(),
            ensures
                self.tokens == old(self).tokens,
                ts == self.toks(),
                ({
                    let step = grammar::parse_blocks(ts, i0);
                    &&& step.0 matches Ok(ns) && ns == nodes_view(children@)
                    &&& step.1 == self.cursor()
                }),
            decreases ts.len() - self.cursor() + 1,
        {
            let ghost cur = self.cursor();
            let ghost acc0 = nodes_view(children@);
            if self.is_at_end() {
                proof {
                    assert(acc0 + Seq::<NodeView>::empty() =~= acc0);
                }
                break ;
            }
            proof {
                grammar::lemma_parse_block_bounds(ts, cur);
            }
            match self.parse_block() {
                Err(e) => {
                    return Err(e);
                },
                Ok(Some(node)) => {
                    children.push(node);
                    proof {
                        let step = grammar::parse_block(ts, cur);
                        let rest = grammar::parse_blocks(ts, self.cursor());
                        assert(nodes_view(children@) =~= acc0 + seq![step.0->Ok_0->Some_0]);
                        if rest.0 is Ok {
                            assert(acc0 + (seq![step.0->Ok_0->Some_0] + rest.0->Ok_0)
                                =~= nodes_view(children@) + rest.0->Ok_0);
                        }
                    }
                },
                Ok(None) => {},
            }
        }
        Ok(AstNode::Document { children })
    }
}

/// Parse a token sequence into a document tree.
pub fn parse(tokens: Vec<Token>) -> (r: Result<AstNode, ParseError>)
    ensures
        match grammar::parse_result(tokens.deep_view()) {
            Ok(nv) => r matches Ok(n) && n@ == nv,
            Err(e) => r matches Err(pe) && pe@ == e,
        },
{
    let mut parser = Parser::new(tokens);
    parser.parse()
}

} // verus!
