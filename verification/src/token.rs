//! The lexical vocabulary: tokens produced by the lexer, and their
//! mathematical view.
use vstd::prelude::*;

verus! {

/// A minimal lexical unit, tagged with a kind and an optional payload.
///
/// A token sequence is produced in document order and always ends with
/// exactly one `Eof`.
#[derive(Debug, Clone, PartialEq)]
pub enum Token {
    /// A run of literal content, with trailing whitespace trimmed.
    Text(String),
    /// One line terminator (`\n`, `\r`, or `\r\n`).
    Newline,
    /// End of input; the last token of every token sequence.
    Eof,
    /// A run of `#`, capped at 6; the payload is the run length.
    Hash(u8),
    /// A run of `*`, capped at 3; the payload is the run length.
    Asterisk(u8),
    /// A run of `_`, capped at 3; the payload is the run length.
    Underscore(u8),
    /// `[`
    LeftBracket,
    /// `]`
    RightBracket,
    /// `(`
    LeftParen,
    /// `)`
    RightParen,
    /// A `-` followed by whitespace or end of input (a list marker).
    Hyphen,
    /// A maximal run of ASCII digits; values over `u32::MAX` degrade to 0.
    Number(u32),
    /// A `.` standing alone at the start of a token.
    Dot,
    /// A URL payload; never produced by the lexer, accepted by the parser.
    Url(String),
}

/// The mathematical value of a `Token`: the same tag over `Seq<char>`.
pub enum TokenView {
    Text(Seq<char>),
    Newline,
    Eof,
    Hash(u8),
    Asterisk(u8),
    Underscore(u8),
    LeftBracket,
    RightBracket,
    LeftParen,
    RightParen,
    Hyphen,
    Number(u32),
    Dot,
    Url(Seq<char>),
}

impl View for Token {
    type V = TokenView;

    open spec fn view(&self) -> TokenView {
        match self {
            Token::Text(s) => TokenView::Text(s@),
            Token::Newline => TokenView::Newline,
            Token::Eof => TokenView::Eof,
            Token::Hash(n) => TokenView::Hash(*n),
            Token::Asterisk(n) => TokenView::Asterisk(*n),
            Token::Underscore(n) => TokenView::Underscore(*n),
            Token::LeftBracket => TokenView::LeftBracket,
            Token::RightBracket => TokenView::RightBracket,
            Token::LeftParen => TokenView::LeftParen,
            Token::RightParen => TokenView::RightParen,
            Token::Hyphen => TokenView::Hyphen,
            Token::Number(n) => TokenView::Number(*n),
            Token::Dot => TokenView::Dot,
            Token::Url(s) => TokenView::Url(s@),
        }
    }
}

impl DeepView for Token {
    type V = TokenView;

    open spec fn deep_view(&self) -> TokenView {
        self.view()
    }
}

} // verus!
