//! A small markup-to-HTML pipeline: a lexer that turns text into tokens, a
//! recursive-descent parser that builds a typed document tree, and a
//! configurable HTML renderer, each verified against a mathematical model.
//!
//! The pipeline is pure: no stage touches shared or external state, and the
//! rendered output is a function of the input text and the configuration
//! alone.
pub mod ast;
pub mod error;
pub mod grammar;
pub mod html;
pub mod laws;
pub mod lexer;
pub mod parser;
pub mod render;
mod text;
pub mod token;

pub use ast::AstNode;
pub use error::LexerError;
pub use error::MarkdownError;
pub use error::ParseError;
pub use html::CssClasses;
pub use html::CustomAttributes;
pub use html::HtmlOptions;
pub use html::HtmlRenderer;
pub use html::Renderer;
pub use html::render_html;
pub use html::render_html_with_options;
pub use lexer::Lexer;
pub use lexer::tokenize;
pub use parser::Parser;
pub use parser::parse;
pub use token::Token;

use vstd::prelude::*;

use crate::ast::NodeView;
use crate::error::ParseErrorView;
use crate::render::HtmlOptionsView;

verus! {

/// What parsing a text yields: the document tree of its token sequence, or
/// the parse error that aborts the pipeline.
pub open spec fn parse_outcome(s: Seq<char>) -> Result<NodeView, ParseErrorView> {
    grammar::parse_result(lexer::lex(s))
}

/// What the whole pipeline yields for a text under a configuration: the
/// rendered document, or the parse error. The outcome is a function of the
/// text and the configuration alone.
pub open spec fn html_outcome(s: Seq<char>, o: HtmlOptionsView) -> Result<
    Seq<char>,
    ParseErrorView,
> {
    match parse_outcome(s) {
        Ok(nv) => Ok(render::render_node(nv, o, 0)),
        Err(e) => Err(e),
    }
}

/// Parse markup text into a document tree.
pub fn parse_markdown(input: &str) -> (r: Result<AstNode, MarkdownError>)
    requires
        input@.len() < usize::MAX,
    ensures
        match parse_outcome(input@) {
            Ok(nv) => r matches Ok(n) && n@ == nv,
            Err(e) => r matches Err(me) && me@ == error::MarkdownErrorView::ParseError(e),
        },
{
    let tokens = match tokenize(input) {
        Ok(tokens) => tokens,
        Err(e) => {
            return Err(MarkdownError::ParseError(ParseError::LexerError(e)));
        },
    };
    let ast = match parse(tokens) {
        Ok(ast) => ast,
        Err(e) => {
            return Err(MarkdownError::ParseError(e));
        },
    };
    Ok(ast)
}

/// Convert markup text directly to HTML under the default configuration.
pub fn markdown_to_html(input: &str) -> (r: Result<String, MarkdownError>)
    requires
        input@.len() < usize::MAX,
    ensures
        match html_outcome(input@, render::default_options()) {
            Ok(out) => r matches Ok(s) && s@ == out,
            Err(e) => r matches Err(me) && me@ == error::MarkdownErrorView::ParseError(e),
        },
{
    let ast = match parse_markdown(input) {
        Ok(ast) => ast,
        Err(e) => {
            return Err(e);
        },
    };
    render_html(&ast)
}

/// Convert markup text to HTML under the given configuration.
pub fn markdown_to_html_with_options(input: &str, options: HtmlOptions) -> (r: Result<
    String,
    MarkdownError,
>)
    requires
        input@.len() < usize::MAX,
    ensures
        match html_outcome(input@, options@) {
            Ok(out) => r matches Ok(s) && s@ == out,
            Err(e) => r matches Err(me) && me@ == error::MarkdownErrorView::ParseError(e),
        },
{
    let ast = match parse_markdown(input) {
        Ok(ast) => ast,
        Err(e) => {
            return Err(e);
        },
    };
    render_html_with_options(&ast, options)
}

} // verus!
