//! The error taxonomy: three layers, each wrapping the one below.
//!
//! Errors abort the stage that raised them and propagate unchanged; no stage
//! recovers locally or returns a partial result.
use vstd::prelude::*;

verus! {

/// An error of the lexical scanner.
///
/// The scanner as specified never rejects well-formed text, so none of these
/// variants is produced today; they are part of the type for interface
/// stability.
#[derive(Debug, Clone, PartialEq)]
pub enum LexerError {
    UnexpectedCharacter { char: char, line: usize, column: usize },
    UnexpectedEof { line: usize, column: usize },
    InvalidNumber { text: String, line: usize, column: usize },
    InvalidUtf8 { position: usize },
    MaxDepthExceeded { line: usize, column: usize },
}

/// The mathematical value of a `LexerError`.
pub enum LexerErrorView {
    UnexpectedCharacter { char: char, line: usize, column: usize },
    UnexpectedEof { line: usize, column: usize },
    InvalidNumber { text: Seq<char>, line: usize, column: usize },
    InvalidUtf8 { position: usize },
    MaxDepthExceeded { line: usize, column: usize },
}

impl View for LexerError {
    type V = LexerErrorView;

    open spec fn view(&self) -> LexerErrorView {
        match self {
            LexerError::UnexpectedCharacter { char, line, column } => {
                LexerErrorView::UnexpectedCharacter {
                    char: *char,
                    line: *line,
                    column: *column,
                }
            },
            LexerError::UnexpectedEof { line, column } => {
                LexerErrorView::UnexpectedEof { line: *line, column: *column }
            },
            LexerError::InvalidNumber { text, line, column } => {
                LexerErrorView::InvalidNumber { text: text@, line: *line, column: *column }
            },
            LexerError::InvalidUtf8 { position } => {
                LexerErrorView::InvalidUtf8 { position: *position }
            },
            LexerError::MaxDepthExceeded { line, column } => {
                LexerErrorView::MaxDepthExceeded { line: *line, column: *column }
            },
        }
    }
}

/// An error of the parser; wraps `LexerError`.
#[derive(Debug, Clone, PartialEq)]
pub enum ParseError {
    LexerError(LexerError),
    UnexpectedToken { token: String, line: usize, column: usize },
    /// A span opener (`*` or `[`) whose close was not found before the end of
    /// the line or of the input. Opening positions are not threaded through
    /// the parser and are reported as 0.
    UnclosedDelimiter { delimiter: char, open_line: usize, open_column: usize },
    InvalidHeadingLevel { level: u8, line: usize, column: usize },
    /// An emphasis marker run whose length maps to no emphasis kind.
    InvalidEmphasis(u8),
    /// A link whose `(` was not followed by a usable URL token.
    ExpectedUrl,
    /// A required token was missing; both sides are token-kind names.
    ExpectedToken { expected: String, found: String },
    /// A required token was missing and no input remained.
    UnexpectedEndOfInput,
}

/// The mathematical value of a `ParseError`.
pub enum ParseErrorView {
    LexerError(LexerErrorView),
    UnexpectedToken { token: Seq<char>, line: usize, column: usize },
    UnclosedDelimiter { delimiter: char, open_line: usize, open_column: usize },
    InvalidHeadingLevel { level: u8, line: usize, column: usize },
    InvalidEmphasis(u8),
    ExpectedUrl,
    ExpectedToken { expected: Seq<char>, found: Seq<char> },
    UnexpectedEndOfInput,
}

impl View for ParseError {
    type V = ParseErrorView;

    open spec fn view(&self) -> ParseErrorView {
        match self {
            ParseError::LexerError(e) => ParseErrorView::LexerError(e@),
            ParseError::UnexpectedToken { token, line, column } => {
                ParseErrorView::UnexpectedToken { token: token@, line: *line, column: *column }
            },
            ParseError::UnclosedDelimiter { delimiter, open_line, open_column } => {
                ParseErrorView::UnclosedDelimiter {
                    delimiter: *delimiter,
                    open_line: *open_line,
                    open_column: *open_column,
                }
            },
            ParseError::InvalidHeadingLevel { level, line, column } => {
                ParseErrorView::InvalidHeadingLevel {
                    level: *level,
                    line: *line,
                    column: *column,
                }
            },
            ParseError::InvalidEmphasis(count) => ParseErrorView::InvalidEmphasis(*count),
            ParseError::ExpectedUrl => ParseErrorView::ExpectedUrl,
            ParseError::ExpectedToken { expected, found } => {
                ParseErrorView::ExpectedToken { expected: expected@, found: found@ }
            },
            ParseError::UnexpectedEndOfInput => ParseErrorView::UnexpectedEndOfInput,
        }
    }
}

/// The error of the whole pipeline; wraps `ParseError`, an I/O-failure kind,
/// and a rendering failure carrying a message.
///
/// With an in-memory output buffer the rendering and I/O kinds are
/// unreachable; they are part of the type for interface stability with
/// non-memory sinks.
#[derive(Debug, Clone, PartialEq)]
pub enum MarkdownError {
    ParseError(ParseError),
    IoError { message: String },
    RenderError { message: String },
}

/// The mathematical value of a `MarkdownError`.
pub enum MarkdownErrorView {
    ParseError(ParseErrorView),
    IoError { message: Seq<char> },
    RenderError { message: Seq<char> },
}

impl View for MarkdownError {
    type V = MarkdownErrorView;

    open spec fn view(&self) -> MarkdownErrorView {
        match self {
            MarkdownError::ParseError(e) => MarkdownErrorView::ParseError(e@),
            MarkdownError::IoError { message } => {
                MarkdownErrorView::IoError { message: message@ }
            },
            MarkdownError::RenderError { message } => {
                MarkdownErrorView::RenderError { message: message@ }
            },
        }
    }
}

} // verus!
