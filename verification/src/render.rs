//! The mathematical model of HTML rendering.
//!
//! `render_node` gives the exact output string for one tree node under a
//! configuration; the executable renderer in `html` is proved to produce it
//! character for character. Rendering never fails on an in-memory buffer, so
//! the executable entry points always return `Ok`.
use vstd::prelude::*;

use crate::ast::NodeView;

verus! {

/// The mathematical value of a CSS-class table: an optional class per
/// element kind.
#[verifier::ext_equal]
pub struct CssClassesView {
    pub document: Option<Seq<char>>,
    pub heading: Option<Seq<char>>,
    pub paragraph: Option<Seq<char>>,
    pub list_ordered: Option<Seq<char>>,
    pub list_unordered: Option<Seq<char>>,
    pub list_item: Option<Seq<char>>,
    pub bold: Option<Seq<char>>,
    pub italic: Option<Seq<char>>,
    pub link: Option<Seq<char>>,
}

/// The mathematical value of a custom-attribute table: an ordered list of
/// key/value pairs per element kind.
#[verifier::ext_equal]
pub struct CustomAttributesView {
    pub document: Seq<(Seq<char>, Seq<char>)>,
    pub heading: Seq<(Seq<char>, Seq<char>)>,
    pub paragraph: Seq<(Seq<char>, Seq<char>)>,
    pub list: Seq<(Seq<char>, Seq<char>)>,
    pub link: Seq<(Seq<char>, Seq<char>)>,
}

/// The mathematical value of a rendering configuration.
#[verifier::ext_equal]
pub struct HtmlOptionsView {
    pub pretty_print: bool,
    pub css_classes: CssClassesView,
    pub escape_html: bool,
    pub external_links_new_tab: bool,
    pub custom_attributes: CustomAttributesView,
}

/// The default configuration: compact output, escaping on, links untouched,
/// no classes, no custom attributes.
pub open spec fn default_options() -> HtmlOptionsView {
    HtmlOptionsView {
        pretty_print: false,
        css_classes: CssClassesView {
            document: None,
            heading: None,
            paragraph: None,
            list_ordered: None,
            list_unordered: None,
            list_item: None,
            bold: None,
            italic: None,
            link: None,
        },
        escape_html: true,
        external_links_new_tab: false,
        custom_attributes: CustomAttributesView {
            document: Seq::empty(),
            heading: Seq::empty(),
            paragraph: Seq::empty(),
            list: Seq::empty(),
            link: Seq::empty(),
        },
    }
}

/// HTML escaping of one character; all characters other than the five
/// special ones pass through unchanged.
pub open spec fn escape_char(c: char) -> Seq<char> {
    if c == '&' {
        "&amp;"@
    } else if c == '<' {
        "&lt;"@
    } else if c == '>' {
        "&gt;"@
    } else if c == '"' {
        "&quot;"@
    } else if c == '\'' {
        "&#x27;"@
    } else {
        seq![c]
    }
}

/// HTML escaping of a string, applied identically to text content and to
/// attribute values.
pub open spec fn escape_seq(t: Seq<char>) -> Seq<char>
    decreases t.len(),
{
    if t.len() == 0 {
        Seq::empty()
    } else {
        escape_seq(t.drop_last()) + escape_char(t.last())
    }
}

/// One custom attribute rendered as ` key="escaped-value"`.
pub open spec fn attr_str(attr: (Seq<char>, Seq<char>)) -> Seq<char> {
    " "@ + attr.0 + "=\""@ + escape_seq(attr.1) + "\""@
}

/// A custom-attribute table rendered in order.
pub open spec fn attrs_str(attrs: Seq<(Seq<char>, Seq<char>)>) -> Seq<char>
    decreases attrs.len(),
{
    if attrs.len() == 0 {
        Seq::empty()
    } else {
        attrs_str(attrs.drop_last()) + attr_str(attrs.last())
    }
}

/// Two spaces of indentation per nesting level.
pub open spec fn indent(depth: int) -> Seq<char>
    decreases depth,
{
    if depth <= 0 {
        Seq::empty()
    } else {
        indent(depth - 1) + "  "@
    }
}

/// The indentation written before a block tag: present only when pretty
/// printing.
pub open spec fn block_indent(o: HtmlOptionsView, depth: int) -> Seq<char> {
    if o.pretty_print {
        indent(depth)
    } else {
        Seq::empty()
    }
}

/// The line terminator written after a block tag: present only when pretty
/// printing.
pub open spec fn block_newline(o: HtmlOptionsView) -> Seq<char> {
    if o.pretty_print {
        "\n"@
    } else {
        Seq::empty()
    }
}

/// A ` class="name"` fragment, or nothing when no class is configured.
pub open spec fn class_attr(class: Option<Seq<char>>) -> Seq<char> {
    match class {
        Some(name) => " class=\""@ + name + "\""@,
        None => Seq::empty(),
    }
}

/// The decimal digit character for a value below ten.
pub open spec fn digit_char(d: u8) -> char {
    if d == 0 {
        '0'
    } else if d == 1 {
        '1'
    } else if d == 2 {
        '2'
    } else if d == 3 {
        '3'
    } else if d == 4 {
        '4'
    } else if d == 5 {
        '5'
    } else if d == 6 {
        '6'
    } else if d == 7 {
        '7'
    } else if d == 8 {
        '8'
    } else {
        '9'
    }
}

/// The decimal digits of a heading level (or any byte value).
pub open spec fn u8_dec(n: u8) -> Seq<char> {
    if n < 10 {
        seq![digit_char(n)]
    } else if n < 100 {
        seq![digit_char(n / 10), digit_char(n % 10)]
    } else {
        seq![digit_char(n / 100), digit_char((n / 10) % 10), digit_char(n % 10)]
    }
}

/// Whether a URL counts as external: it starts with `http://` or
/// `https://`; no other scheme qualifies.
pub open spec fn is_external_url(url: Seq<char>) -> bool {
    (url.len() >= 7 && url.subrange(0, 7) == "http://"@) || (url.len() >= 8 && url.subrange(0, 8)
        == "https://"@)
}

/// The `target`/`rel` fragment added to an external link when the
/// configuration asks for new-tab links.
pub open spec fn link_target_attr(o: HtmlOptionsView, url: Seq<char>) -> Seq<char> {
    if o.external_links_new_tab && is_external_url(url) {
        " target=\"_blank\" rel=\"noopener noreferrer\""@
    } else {
        Seq::empty()
    }
}

/// The depth of a nested block: one deeper, saturating at the pointer-size
/// limit, which no realizable tree reaches.
pub open spec fn bump(depth: int) -> int {
    if depth < usize::MAX {
        depth + 1
    } else {
        depth
    }
}

/// The exact output for one node under configuration `o` at nesting depth
/// `depth`.
pub open spec fn render_node(n: NodeView, o: HtmlOptionsView, depth: int) -> Seq<char>
    decreases n,
{
    match n {
        NodeView::Document { children } => {
            let wrapped = o.css_classes.document is Some || o.custom_attributes.document.len()
                > 0;
            let opening = if o.css_classes.document is Some {
                block_indent(o, depth) + "<div"@ + class_attr(o.css_classes.document) + attrs_str(
                    o.custom_attributes.document,
                ) + ">"@
            } else if o.custom_attributes.document.len() > 0 {
                block_indent(o, depth) + "<div"@ + attrs_str(o.custom_attributes.document) + ">"@
            } else {
                Seq::empty()
            };
            let closing = if wrapped {
                if o.pretty_print {
                    block_indent(o, depth) + "</div>"@ + "\n"@
                } else {
                    "</div>"@
                }
            } else {
                Seq::empty()
            };
            opening + (if wrapped {
                block_newline(o)
            } else {
                Seq::empty()
            }) + render_nodes(children, o, if wrapped {
                bump(depth)
            } else {
                depth
            }) + closing
        },
        NodeView::Heading { level, content } => {
            block_indent(o, depth) + "<h"@ + u8_dec(level) + class_attr(o.css_classes.heading)
                + attrs_str(o.custom_attributes.heading) + ">"@ + render_nodes(content, o, depth)
                + "</h"@ + u8_dec(level) + ">"@ + block_newline(o)
        },
        NodeView::Paragraph { content } => {
            block_indent(o, depth) + "<p"@ + class_attr(o.css_classes.paragraph) + attrs_str(
                o.custom_attributes.paragraph,
            ) + ">"@ + render_nodes(content, o, depth) + "</p>"@ + block_newline(o)
        },
        NodeView::List { ordered, items } => {
            let tag_open = if ordered {
                "<ol"@
            } else {
                "<ul"@
            };
            let tag_close = if ordered {
                "</ol>"@
            } else {
                "</ul>"@
            };
            let class = if ordered {
                o.css_classes.list_ordered
            } else {
                o.css_classes.list_unordered
            };
            block_indent(o, depth) + tag_open + class_attr(class) + attrs_str(
                o.custom_attributes.list,
            ) + ">"@ + block_newline(o) + render_nodes(items, o, bump(depth)) + block_indent(
                o,
                depth,
            ) + tag_close + block_newline(o)
        },
        NodeView::ListItem { content } => {
            block_indent(o, depth) + "<li"@ + class_attr(o.css_classes.list_item) + ">"@
                + render_nodes(content, o, depth) + "</li>"@ + block_newline(o)
        },
        NodeView::Text(t) => {
            if o.escape_html {
                escape_seq(t)
            } else {
                t
            }
        },
        NodeView::Bold(content) => {
            "<strong"@ + class_attr(o.css_classes.bold) + ">"@ + render_nodes(content, o, depth)
                + "</strong>"@
        },
        NodeView::Italic(content) => {
            "<em"@ + class_attr(o.css_classes.italic) + ">"@ + render_nodes(content, o, depth)
                + "</em>"@
        },
        NodeView::Link { text, url } => {
            "<a href=\""@ + escape_seq(url) + "\""@ + class_attr(o.css_classes.link)
                + link_target_attr(o, url) + attrs_str(o.custom_attributes.link) + ">"@
                + render_nodes(text, o, depth) + "</a>"@
        },
        NodeView::LineBreak => "<br>"@ + block_newline(o),
    }
}

/// The concatenated output of a sequence of nodes, in order.
pub open spec fn render_nodes(ns: Seq<NodeView>, o: HtmlOptionsView, depth: int) -> Seq<char>
    decreases ns,
{
    if ns.len() == 0 {
        Seq::empty()
    } else {
        render_nodes(ns.drop_last(), o, depth) + render_node(ns.last(), o, depth)
    }
}

} // verus!
