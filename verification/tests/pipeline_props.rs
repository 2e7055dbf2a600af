//! Concrete checks of the pipeline's stated behaviour: one parse tree or
//! output string per property, written out in full.
use markdown_renderer::markdown_to_html;
use markdown_renderer::markdown_to_html_with_options;
use markdown_renderer::parse;
use markdown_renderer::parse_markdown;
use markdown_renderer::tokenize;
use markdown_renderer::AstNode;
use markdown_renderer::HtmlOptions;
use markdown_renderer::HtmlRenderer;
use markdown_renderer::MarkdownError;
use markdown_renderer::ParseError;
use markdown_renderer::Token;

#[test]
fn heading_marks_give_each_level() {
    for level in 1..=6usize {
        let input = format!("{} X", "#".repeat(level));
        let ast = parse_markdown(&input).unwrap();
        let expected = AstNode::Document {
            children: vec![AstNode::Heading {
                level: level as u8,
                content: vec![AstNode::Text("X".to_string())],
            }],
        };
        assert_eq!(ast, expected, "level {}", level);
    }
}

#[test]
fn empty_input_gives_empty_document() {
    let ast = parse_markdown("").unwrap();
    assert_eq!(ast, AstNode::Document { children: vec![] });
}

#[test]
fn hyphen_run_gives_unordered_list() {
    let ast = parse_markdown("- a\n- b").unwrap();
    let expected = AstNode::Document {
        children: vec![AstNode::List {
            ordered: false,
            items: vec![
                AstNode::ListItem { content: vec![AstNode::Text("a".to_string())] },
                AstNode::ListItem { content: vec![AstNode::Text("b".to_string())] },
            ],
        }],
    };
    assert_eq!(ast, expected);
}

#[test]
fn number_run_gives_ordered_list_whatever_the_numbers() {
    let expected = AstNode::Document {
        children: vec![AstNode::List {
            ordered: true,
            items: vec![
                AstNode::ListItem { content: vec![AstNode::Text("a".to_string())] },
                AstNode::ListItem { content: vec![AstNode::Text("b".to_string())] },
            ],
        }],
    };
    let ast = parse_markdown("1. a\n2. b").unwrap();
    assert_eq!(ast, expected);
    // The numeric values are ignored: sequence order decides item order.
    let ast2 = parse_markdown("7. a\n3. b").unwrap();
    assert_eq!(ast2, expected);
}

#[test]
fn unterminated_emphasis_fails_with_unclosed_delimiter() {
    match parse_markdown("*a") {
        Err(MarkdownError::ParseError(ParseError::UnclosedDelimiter { delimiter, .. })) => {
            assert_eq!(delimiter, '*');
        }
        other => panic!("expected UnclosedDelimiter, got {:?}", other),
    }
}

#[test]
fn triple_asterisk_fails_with_invalid_emphasis() {
    match parse_markdown("***a***") {
        Err(MarkdownError::ParseError(ParseError::InvalidEmphasis(count))) => {
            assert_eq!(count, 3);
        }
        other => panic!("expected InvalidEmphasis(3), got {:?}", other),
    }
}

#[test]
fn link_cut_short_never_succeeds() {
    match parse_markdown("[t](") {
        Err(MarkdownError::ParseError(ParseError::UnclosedDelimiter { .. })) => {}
        Err(MarkdownError::ParseError(ParseError::ExpectedUrl)) => {}
        Err(MarkdownError::ParseError(ParseError::UnexpectedEndOfInput)) => {}
        other => panic!("expected a link failure, got {:?}", other),
    }
}

#[test]
fn escaping_is_exact() {
    let ast = AstNode::Text("<script>".to_string());
    let renderer = HtmlRenderer::new();
    let html = renderer.render(&ast).unwrap();
    assert_eq!(html, "&lt;script&gt;");
}

#[test]
fn new_tab_attributes_only_on_http_urls() {
    let external = AstNode::Link {
        text: vec![AstNode::Text("x".to_string())],
        url: "https://e.com".to_string(),
    };
    let relative = AstNode::Link {
        text: vec![AstNode::Text("x".to_string())],
        url: "e.com".to_string(),
    };
    let options = HtmlOptions { external_links_new_tab: true, ..Default::default() };
    let renderer = HtmlRenderer::with_options(options);
    let html_external = renderer.render(&external).unwrap();
    let html_relative = renderer.render(&relative).unwrap();
    assert_eq!(
        html_external,
        "<a href=\"https://e.com\" target=\"_blank\" rel=\"noopener noreferrer\">x</a>"
    );
    assert_eq!(html_relative, "<a href=\"e.com\">x</a>");
}

#[test]
fn repeated_runs_give_byte_identical_output() {
    let input = "# Title\n\nText with **bold**, *italic* and [a link](https://e.com).\n\n- one\n- two";
    let first = markdown_to_html(input).unwrap();
    let second = markdown_to_html(input).unwrap();
    assert_eq!(first.as_bytes(), second.as_bytes());
    let options_a = HtmlOptions { pretty_print: true, ..Default::default() };
    let options_b = HtmlOptions { pretty_print: true, ..Default::default() };
    let third = markdown_to_html_with_options(input, options_a).unwrap();
    let fourth = markdown_to_html_with_options(input, options_b).unwrap();
    assert_eq!(third.as_bytes(), fourth.as_bytes());
}

#[test]
fn end_to_end_heading_with_bold() {
    // The scanner trims trailing white space from a text run, so the text
    // before the bold span is "Hello", not "Hello ".
    let ast = parse_markdown("# Hello **World**").unwrap();
    let expected = AstNode::Document {
        children: vec![AstNode::Heading {
            level: 1,
            content: vec![
                AstNode::Text("Hello".to_string()),
                AstNode::Bold(vec![AstNode::Text("World".to_string())]),
            ],
        }],
    };
    assert_eq!(ast, expected);
    let html = markdown_to_html("# Hello **World**").unwrap();
    assert_eq!(html, "<h1>Hello<strong>World</strong></h1>");
}

#[test]
fn number_overflow_degrades_to_zero() {
    let tokens = tokenize("4294967296 ").unwrap();
    assert_eq!(tokens[0], Token::Number(0));
    let tokens = tokenize("4294967295 ").unwrap();
    assert_eq!(tokens[0], Token::Number(4294967295));
}

#[test]
fn missing_paren_after_link_text_fails_with_expected_token() {
    match parse_markdown("[t]x") {
        Err(MarkdownError::ParseError(ParseError::ExpectedToken { expected, found })) => {
            assert_eq!(expected, "LeftParen");
            assert_eq!(found, "Text");
        }
        other => panic!("expected ExpectedToken, got {:?}", other),
    }
}

#[test]
fn truncated_token_stream_fails_with_unexpected_end() {
    let tokens = vec![
        Token::LeftBracket,
        Token::Text("t".to_string()),
        Token::RightBracket,
    ];
    match parse(tokens) {
        Err(ParseError::UnexpectedEndOfInput) => {}
        other => panic!("expected UnexpectedEndOfInput, got {:?}", other),
    }
}

#[test]
fn pretty_printed_list_is_exact() {
    let options = HtmlOptions { pretty_print: true, ..Default::default() };
    let html = markdown_to_html_with_options("- a", options).unwrap();
    assert_eq!(html, "<ul>\n  <li>a</li>\n</ul>\n");
}

#[test]
fn marker_runs_are_capped() {
    let tokens = tokenize("#######").unwrap();
    assert_eq!(tokens, vec![Token::Hash(6), Token::Hash(1), Token::Eof]);
    let tokens = tokenize("****").unwrap();
    assert_eq!(tokens, vec![Token::Asterisk(3), Token::Asterisk(1), Token::Eof]);
    let tokens = tokenize("____").unwrap();
    assert_eq!(tokens, vec![Token::Underscore(3), Token::Underscore(1), Token::Eof]);
}

#[test]
fn hyphen_before_content_is_text() {
    // A hyphen not followed by white space or the end of input is literal
    // content, not a list marker.
    let tokens = tokenize("-a").unwrap();
    assert_eq!(tokens, vec![Token::Text("-a".to_string()), Token::Eof]);
    let tokens = tokenize("-").unwrap();
    assert_eq!(tokens, vec![Token::Hyphen, Token::Eof]);
}
