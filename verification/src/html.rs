//! The HTML renderer: document tree plus configuration in, output string
//! out, proved to produce exactly what the `render` model says.
use vstd::prelude::*;
use vstd::string::StringExecFns;

use crate::ast::AstNode;
use crate::ast::NodeView;
use crate::ast::nodes_view;
use crate::error::MarkdownError;
use crate::render::CssClassesView;
use crate::render::CustomAttributesView;
use crate::render::HtmlOptionsView;
use crate::render;
use crate::text::push_char;
use crate::text::str_chars;

verus! {

/// Configuration options for HTML rendering.
#[derive(Debug, Clone)]
pub struct HtmlOptions {
    /// Whether to pretty-print the HTML with indentation and line breaks.
    pub pretty_print: bool,
    /// Custom CSS classes for the element kinds.
    pub css_classes: CssClasses,
    /// Whether to escape HTML in text content.
    pub escape_html: bool,
    /// Whether links to `http(s)://` URLs open in a new tab.
    pub external_links_new_tab: bool,
    /// Custom attributes added to specific element kinds.
    pub custom_attributes: CustomAttributes,
}

/// An optional CSS class per element kind.
#[derive(Debug, Clone)]
pub struct CssClasses {
    pub document: Option<String>,
    pub heading: Option<String>,
    pub paragraph: Option<String>,
    pub list_ordered: Option<String>,
    pub list_unordered: Option<String>,
    pub list_item: Option<String>,
    pub bold: Option<String>,
    pub italic: Option<String>,
    pub link: Option<String>,
}

/// Ordered custom key/value attributes per element kind.
#[derive(Debug, Clone)]
pub struct CustomAttributes {
    pub document: Vec<(String, String)>,
    pub heading: Vec<(String, String)>,
    pub paragraph: Vec<(String, String)>,
    pub list: Vec<(String, String)>,
    pub link: Vec<(String, String)>,
}

/// The view of an optional class name.
pub open spec fn class_view(c: Option<String>) -> Option<Seq<char>> {
    match c {
        Some(s) => Some(s@),
        None => None,
    }
}

/// The view of an attribute list: each key and value as a character
/// sequence, order kept.
pub open spec fn attr_pairs_view(v: Seq<(String, String)>) -> Seq<(Seq<char>, Seq<char>)> {
    Seq::new(v.len(), |i: int| (v[i].0@, v[i].1@))
}

impl View for CssClasses {
    type V = CssClassesView;

    open spec fn view(&self) -> CssClassesView {
        CssClassesView {
            document: class_view(self.document),
            heading: class_view(self.heading),
            paragraph: class_view(self.paragraph),
            list_ordered: class_view(self.list_ordered),
            list_unordered: class_view(self.list_unordered),
            list_item: class_view(self.list_item),
            bold: class_view(self.bold),
            italic: class_view(self.italic),
            link: class_view(self.link),
        }
    }
}

impl View for CustomAttributes {
    type V = CustomAttributesView;

    open spec fn view(&self) -> CustomAttributesView {
        CustomAttributesView {
            document: attr_pairs_view(self.document@),
            heading: attr_pairs_view(self.heading@),
            paragraph: attr_pairs_view(self.paragraph@),
            list: attr_pairs_view(self.list@),
            link: attr_pairs_view(self.link@),
        }
    }
}

impl View for HtmlOptions {
    type V = HtmlOptionsView;

    open spec fn view(&self) -> HtmlOptionsView {
        HtmlOptionsView {
            pretty_print: self.pretty_print,
            css_classes: self.css_classes@,
            escape_html: self.escape_html,
            external_links_new_tab: self.external_links_new_tab,
            custom_attributes: self.custom_attributes@,
        }
    }
}

impl Default for CssClasses {
    /// A class table with no class configured for any element kind.
    fn default() -> (r: Self)
        ensures
            r@ == render::default_options().css_classes,
    {
        CssClasses {
            document: None,
            heading: None,
            paragraph: None,
            list_ordered: None,
            list_unordered: None,
            list_item: None,
            bold: None,
            italic: None,
            link: None,
        }
    }
}

impl Default for CustomAttributes {
    /// An attribute table with no attributes for any element kind.
    fn default() -> (r: Self)
        ensures
            r@ == render::default_options().custom_attributes,
    {
        let r = CustomAttributes {
            document: Vec::new(),
            heading: Vec::new(),
            paragraph: Vec::new(),
            list: Vec::new(),
            link: Vec::new(),
        };
        proof {
            assert(r@ =~~= render::default_options().custom_attributes);
        }
        r
    }
}

impl Default for HtmlOptions {
    /// The default configuration: compact output, escaping on, links
    /// untouched, no classes, no custom attributes.
    fn default() -> (r: Self)
        ensures
            r@ == render::default_options(),
    {
        let r = HtmlOptions {
            pretty_print: false,
            css_classes: CssClasses::default(),
            escape_html: true,
            external_links_new_tab: false,
            custom_attributes: CustomAttributes::default(),
        };
        proof {
            assert(r@ =~~= render::default_options());
        }
        r
    }
}

/// A trait for rendering document trees to an output format.
pub trait Renderer {
    type Output;

    type Error;

    /// Render a tree node to the target format.
    fn render(&self, node: &AstNode) -> Result<Self::Output, Self::Error>;
}

/// The HTML renderer: a configuration, applied by a pure tree walk.
pub struct HtmlRenderer {
    options: HtmlOptions,
}

impl HtmlRenderer {
    /// The renderer's configuration.
    pub closed spec fn opts(&self) -> HtmlOptionsView {
        self.options@
    }

    /// A renderer with the default configuration.
    pub fn new() -> (r: Self)
        ensures
            r.opts() == render::default_options(),
    {
        HtmlRenderer { options: HtmlOptions::default() }
    }

    /// A renderer with the given configuration.
    pub fn with_options(options: HtmlOptions) -> (r: Self)
        ensures
            r.opts() == options@,
    {
        HtmlRenderer { options }
    }

    /// HTML-escape text content.
    fn escape_html_text(&self, text: &str) -> (r: String)
        ensures
            r@ == render::escape_seq(text@),
    {
        escape_chars(text)
    }

    /// HTML-escape an attribute value; the same escaping as for text.
    fn escape_attribute(&self, text: &str) -> (r: String)
        ensures
            r@ == render::escape_seq(text@),
    {
        escape_chars(text)
    }

    /// Append text content, escaped exactly when the configuration asks.
    fn render_text(&self, text: &str, output: &mut String)
        ensures
            final(output)@ == old(output)@ + render::render_node(
                NodeView::Text(text@),
                self.opts(),
                0,
            ),
    {
        if self.options.escape_html {
            let escaped = self.escape_html_text(text);
            output.append(escaped.as_str());
        } else {
            output.append(text);
        }
    }

    /// The ` key="escaped-value"` fragments of an attribute table, in order.
    fn format_attributes(&self, attributes: &Vec<(String, String)>) -> (r: String)
        ensures
            r@ == render::attrs_str(attr_pairs_view(attributes@)),
    {
        let ghost pairs = attr_pairs_view(attributes@);
        let mut result = String::new();
        let mut i: usize = 0;
        proof {
            assert(pairs.subrange(0, 0) =~= Seq::<(Seq<char>, Seq<char>)>::empty());
        }
        while i < attributes.len()
            invariant
                i <= attributes.len(),
                pairs == attr_pairs_view(attributes@),
                result@ == render::attrs_str(pairs.subrange(0, i as int)),
            decreases attributes.len() - i,
        {
            let ghost before = result@;
            result.append(" ");
            result.append(attributes[i].0.as_str());
            result.append("=\"");
            let escaped = self.escape_attribute(attributes[i].1.as_str());
            result.append(escaped.as_str());
            result.append("\"");
            proof {
                let head = pairs.subrange(0, i as int);
                let step = pairs.subrange(0, i + 1);
                assert(step.drop_last() =~= head);
                assert(result@ =~= before + render::attr_str(pairs[i as int]));
            }
            i = i + 1;
        }
        proof {
            assert(pairs.subrange(0, attributes@.len() as int) =~= pairs);
        }
        result
    }

    /// Append the indentation of a block tag: two spaces per level, only
    /// when pretty printing.
    fn write_indent(&self, output: &mut String, depth: usize)
        ensures
            final(output)@ == old(output)@ + render::block_indent(self.opts(), depth as int),
    {
        if self.options.pretty_print {
            let ghost base = output@;
            let mut level: usize = 0;
            while level < depth
                invariant
                    level <= depth,
                    self.opts().pretty_print,
                    output@ == base + render::indent(level as int),
                decreases depth - level,
            {
                output.append("  ");
                level = level + 1;
            }
        }
    }

    /// Append the ` class="name"` fragment for a configured class.
    fn write_class(&self, class: &Option<String>, output: &mut String)
        ensures
            final(output)@ == old(output)@ + render::class_attr(class_view(*class)),
    {
        match class {
            Some(name) => {
                output.append(" class=\"");
                output.append(name.as_str());
                output.append("\"");
            },
            None => {},
        }
    }

    /// Append the line terminator after a block tag, only when pretty
    /// printing.
    fn write_newline(&self, output: &mut String)
        ensures
            final(output)@ == old(output)@ + render::block_newline(self.opts()),
    {
        if self.options.pretty_print {
            output.append("\n");
        }
    }

    /// Append the rendering of each node in `nodes`, in order.
    fn render_children(&self, nodes: &Vec<AstNode>, output: &mut String, depth: usize)
        ensures
            final(output)@ == old(output)@ + render::render_nodes(
                nodes_view(nodes@),
                self.opts(),
                depth as int,
            ),
        decreases *nodes, 0int,
    {
        let ghost ns = nodes_view(nodes@);
        let ghost base = output@;
        let mut i: usize = 0;
        proof {
            assert(ns.subrange(0, 0) =~= Seq::<NodeView>::empty());
        }
        while i < nodes.len()
            invariant
                i <= nodes.len(),
                ns == nodes_view(nodes@),
                output@ == base + render::render_nodes(ns.subrange(0, i as int), self.opts(), depth as int),
            decreases nodes.len() - i,
        {
            proof {
                assert(decreases_to!(nodes => nodes@));
                assert(decreases_to!(nodes@ => nodes@[i as int]));
            }
            self.render_node(&nodes[i], output, depth);
            proof {
                let head = ns.subrange(0, i as int);
                let step = ns.subrange(0, i + 1);
                assert(step.drop_last() =~= head);
            }
            i = i + 1;
        }
        proof {
            assert(ns.subrange(0, nodes@.len() as int) =~= ns);
        }
    }

    /// Append the rendering of a document root: an optional `div` wrapper,
    /// emitted only when the configuration gives the document a class or
    /// custom attributes, then the children.
    #[verifier::rlimit(60)]
    fn render_document(&self, children: &Vec<AstNode>, output: &mut String, depth: usize)
        ensures
            final(output)@ == old(output)@ + render::render_node(
                NodeView::Document { children: nodes_view(children@) },
                self.opts(),
                depth as int,
            ),
        decreases *children, 1int,
    {
        let ghost o = self.opts();
        let ghost d = depth as int;
        let ghost opening = if o.css_classes.document is Some {
            render::block_indent(o, d) + "<div"@ + render::class_attr(o.css_classes.document)
                + render::attrs_str(o.custom_attributes.document) + ">"@
        } else if o.custom_attributes.document.len() > 0 {
            render::block_indent(o, d) + "<div"@ + render::attrs_str(o.custom_attributes.document)
                + ">"@
        } else {
            Seq::<char>::empty()
        };
        let has_attrs = self.options.custom_attributes.document.len() > 0;
        let wrapped = match &self.options.css_classes.document {
            Some(_) => true,
            None => has_attrs,
        };
        let ghost lead = if wrapped {
            render::block_newline(o)
        } else {
            Seq::<char>::empty()
        };
        match &self.options.css_classes.document {
            Some(_) => {
                self.write_indent(output, depth);
                output.append("<div");
                self.write_class(&self.options.css_classes.document, output);
                let attrs = self.format_attributes(&self.options.custom_attributes.document);
                output.append(attrs.as_str());
                output.append(">");
            },
            None => {
                if has_attrs {
                    self.write_indent(output, depth);
                    output.append("<div");
                    let attrs = self.format_attributes(&self.options.custom_attributes.document);
                    output.append(attrs.as_str());
                    output.append(">");
                }
            },
        }
        if wrapped {
            self.write_newline(output);
        }
        proof {
            assert(output@ =~= old(output)@ + (opening + lead));
        }
        let child_depth = if wrapped {
            if depth < usize::MAX {
                depth + 1
            } else {
                depth
            }
        } else {
            depth
        };
        self.render_children(children, output, child_depth);
        let ghost body = render::render_nodes(nodes_view(children@), o, if wrapped {
            render::bump(d)
        } else {
            d
        });
        proof {
            assert(output@ =~= old(output)@ + (opening + lead + body));
        }
        if wrapped {
            if self.options.pretty_print {
                self.write_indent(output, depth);
                output.append("</div>");
                output.append("\n");
                proof {
                    let closing = render::block_indent(o, d) + "</div>"@ + "\n"@;
                    assert(output@ =~= old(output)@ + (opening + lead + body + closing));
                }
            } else {
                output.append("</div>");
                proof {
                    assert(output@ =~= old(output)@ + (opening + lead + body + "</div>"@));
                }
            }
        }
        proof {
            assert(output@ =~= old(output)@ + render::render_node(
                NodeView::Document { children: nodes_view(children@) },
                self.opts(),
                depth as int,
            ));
        }
    }

    /// Append the rendering of a heading: `<h{level}>` with its class and
    /// custom attributes, the inline content, and the closing tag.
    #[verifier::rlimit(60)]
    fn render_heading(&self, level: u8, content: &Vec<AstNode>, output: &mut String, depth: usize)
        ensures
            final(output)@ == old(output)@ + render::render_node(
                NodeView::Heading { level, content: nodes_view(content@) },
                self.opts(),
                depth as int,
            ),
        decreases *content, 1int,
    {
        self.write_indent(output, depth);
        output.append("<h");
        let digits = u8_decimal(level);
        output.append(digits.as_str());
        self.write_class(&self.options.css_classes.heading, output);
        let attrs = self.format_attributes(&self.options.custom_attributes.heading);
        output.append(attrs.as_str());
        output.append(">");
        self.render_children(content, output, depth);
        output.append("</h");
        output.append(digits.as_str());
        output.append(">");
        self.write_newline(output);
    }

    /// Append the rendering of a paragraph.
    fn render_paragraph(&self, content: &Vec<AstNode>, output: &mut String, depth: usize)
        ensures
            final(output)@ == old(output)@ + render::render_node(
                NodeView::Paragraph { content: nodes_view(content@) },
                self.opts(),
                depth as int,
            ),
        decreases *content, 1int,
    {
        self.write_indent(output, depth);
        output.append("<p");
        self.write_class(&self.options.css_classes.paragraph, output);
        let attrs = self.format_attributes(&self.options.custom_attributes.paragraph);
        output.append(attrs.as_str());
        output.append(">");
        self.render_children(content, output, depth);
        output.append("</p>");
        self.write_newline(output);
    }

    /// Append the rendering of a list: `ol` or `ul`, items one level
    /// deeper.
    #[verifier::rlimit(100)]
    fn render_list(&self, ordered: bool, items: &Vec<AstNode>, output: &mut String, depth: usize)
        ensures
            final(output)@ == old(output)@ + render::render_node(
                NodeView::List { ordered, items: nodes_view(items@) },
                self.opts(),
                depth as int,
            ),
        decreases *items, 1int,
    {
        self.write_indent(output, depth);
        if ordered {
            output.append("<ol");
        } else {
            output.append("<ul");
        }
        if ordered {
            self.write_class(&self.options.css_classes.list_ordered, output);
        } else {
            self.write_class(&self.options.css_classes.list_unordered, output);
        }
        let attrs = self.format_attributes(&self.options.custom_attributes.list);
        output.append(attrs.as_str());
        output.append(">");
        self.write_newline(output);
        proof {
            let o = self.opts();
            let d = depth as int;
            let tag_open: Seq<char> = if ordered { "<ol"@ } else { "<ul"@ };
            let class = if ordered { o.css_classes.list_ordered } else { o.css_classes.list_unordered };
            assert(output@ =~= old(output)@ + (render::block_indent(o, d) + tag_open
                + render::class_attr(class) + render::attrs_str(o.custom_attributes.list) + ">"@
                + render::block_newline(o)));
        }
        let child_depth = if depth < usize::MAX {
            depth + 1
        } else {
            depth
        };
        self.render_children(items, output, child_depth);
        self.write_indent(output, depth);
        if ordered {
            output.append("</ol>");
        } else {
            output.append("</ul>");
        }
        self.write_newline(output);
        proof {
            assert(output@ =~= old(output)@ + render::render_node(
                NodeView::List { ordered, items: nodes_view(items@) },
                self.opts(),
                depth as int,
            ));
        }
    }

    /// Append the rendering of one list item.
    fn render_list_item(&self, content: &Vec<AstNode>, output: &mut String, depth: usize)
        ensures
            final(output)@ == old(output)@ + render::render_node(
                NodeView::ListItem { content: nodes_view(content@) },
                self.opts(),
                depth as int,
            ),
        decreases *content, 1int,
    {
        self.write_indent(output, depth);
        output.append("<li");
        self.write_class(&self.options.css_classes.list_item, output);
        output.append(">");
        self.render_children(content, output, depth);
        output.append("</li>");
        self.write_newline(output);
    }

    /// Append the rendering of a bold span.
    fn render_bold(&self, content: &Vec<AstNode>, output: &mut String, depth: usize)
        ensures
            final(output)@ == old(output)@ + render::render_node(
                NodeView::Bold(nodes_view(content@)),
                self.opts(),
                depth as int,
            ),
        decreases *content, 1int,
    {
        output.append("<strong");
        self.write_class(&self.options.css_classes.bold, output);
        output.append(">");
        self.render_children(content, output, depth);
        output.append("</strong>");
    }

    /// Append the rendering of an italic span.
    fn render_italic(&self, content: &Vec<AstNode>, output: &mut String, depth: usize)
        ensures
            final(output)@ == old(output)@ + render::render_node(
                NodeView::Italic(nodes_view(content@)),
                self.opts(),
                depth as int,
            ),
        decreases *content, 1int,
    {
        output.append("<em");
        self.write_class(&self.options.css_classes.italic, output);
        output.append(">");
        self.render_children(content, output, depth);
        output.append("</em>");
    }

    /// Append the rendering of a link: the escaped URL, the optional class,
    /// the new-tab attributes for external URLs, custom attributes, and the
    /// link text.
    fn render_link(&self, text: &Vec<AstNode>, url: &str, output: &mut String, depth: usize)
        ensures
            final(output)@ == old(output)@ + render::render_node(
                NodeView::Link { text: nodes_view(text@), url: url@ },
                self.opts(),
                depth as int,
            ),
        decreases *text, 1int,
    {
        output.append("<a href=\"");
        let escaped = self.escape_attribute(url);
        output.append(escaped.as_str());
        output.append("\"");
        self.write_class(&self.options.css_classes.link, output);
        if self.options.external_links_new_tab {
            let external = starts_with_http(url);
            if external {
                output.append(" target=\"_blank\" rel=\"noopener noreferrer\"");
            }
        }
        let attrs = self.format_attributes(&self.options.custom_attributes.link);
        output.append(attrs.as_str());
        output.append(">");
        self.render_children(text, output, depth);
        output.append("</a>");
    }

    /// Append the rendering of one tree node.
    fn render_node(&self, node: &AstNode, output: &mut String, depth: usize)
        ensures
            final(output)@ == old(output)@ + render::render_node(
                node@,
                self.opts(),
                depth as int,
            ),
        decreases *node, 2int,
    {
        match node {
            AstNode::Document { children } => {
                self.render_document(children, output, depth);
            },
            AstNode::Heading { level, content } => {
                self.render_heading(*level, content, output, depth);
            },
            AstNode::Paragraph { content } => {
                self.render_paragraph(content, output, depth);
            },
            AstNode::List { ordered, items } => {
                self.render_list(*ordered, items, output, depth);
            },
            AstNode::ListItem { content } => {
                self.render_list_item(content, output, depth);
            },
            AstNode::Bold(content) => {
                self.render_bold(content, output, depth);
            },
            AstNode::Italic(content) => {
                self.render_italic(content, output, depth);
            },
            AstNode::Link { text, url } => {
                self.render_link(text, url.as_str(), output, depth);
            },
            AstNode::Text(text) => {
                self.render_text(text.as_str(), output);
            },
            AstNode::LineBreak => {
                output.append("<br>");
                self.write_newline(output);
            },
        }
    }

    /// Render one tree to an HTML string.
    ///
    /// Always succeeds: the in-memory buffer cannot fail; the `Result` is
    /// part of the interface for stability with other sinks.
    pub fn render(&self, node: &AstNode) -> (r: Result<String, MarkdownError>)
        ensures
            r matches Ok(s) && s@ == render::render_node(node@, self.opts(), 0),
    {
        let mut output = String::new();
        self.render_node(node, &mut output, 0);
        Ok(output)
    }
}

impl Renderer for HtmlRenderer {
    type Output = String;

    type Error = MarkdownError;

    fn render(&self, node: &AstNode) -> Result<String, MarkdownError> {
        HtmlRenderer::render(self, node)
    }
}

impl Default for HtmlRenderer {
    /// A renderer with the default configuration.
    fn default() -> (r: Self)
        ensures
            r.opts() == render::default_options(),
    {
        HtmlRenderer::new()
    }
}

/// The HTML escaping of a string, character by character.
fn escape_chars(text: &str) -> (r: String)
    ensures
        r@ == render::escape_seq(text@),
{
    let chars = str_chars(text);
    let mut out = String::new();
    let mut i: usize = 0;
    proof {
        assert(chars@.subrange(0, 0) =~= Seq::<char>::empty());
    }
    while i < chars.len()
        invariant
            i <= chars.len(),
            chars@ == text@,
            out@ == render::escape_seq(chars@.subrange(0, i as int)),
        decreases chars.len() - i,
    {
        let ghost before = out@;
        let c = chars[i];
        if c == '&' {
            out.append("&amp;");
        } else if c == '<' {
            out.append("&lt;");
        } else if c == '>' {
            out.append("&gt;");
        } else if c == '"' {
            out.append("&quot;");
        } else if c == '\'' {
            out.append("&#x27;");
        } else {
            push_char(&mut out, c);
        }
        proof {
            let head = chars@.subrange(0, i as int);
            let step = chars@.subrange(0, i + 1);
            assert(step.drop_last() =~= head);
            assert(out@ =~= before + render::escape_char(chars@[i as int]));
        }
        i = i + 1;
    }
    proof {
        assert(chars@.subrange(0, chars@.len() as int) =~= chars@);
    }
    out
}

/// The character of one decimal digit.
fn digit_ch(d: u8) -> (c: char)
    ensures
        c == render::digit_char(d),
{
    if d == 0 {
        '0'
    } else if d == 1 {
        '1'
    } else if d == 2 {
        '2'
    } else if d == 3 {
        '3'
    } else if d == 4 {
        '4'
    } else if d == 5 {
        '5'
    } else if d == 6 {
        '6'
    } else if d == 7 {
        '7'
    } else if d == 8 {
        '8'
    } else {
        '9'
    }
}

/// The decimal digits of a byte value, as a string.
fn u8_decimal(n: u8) -> (r: String)
    ensures
        r@ == render::u8_dec(n),
{
    let mut s = String::new();
    if n < 10 {
        push_char(&mut s, digit_ch(n));
        proof {
            assert(s@ =~= render::u8_dec(n));
        }
    } else if n < 100 {
        push_char(&mut s, digit_ch(n / 10));
        push_char(&mut s, digit_ch(n % 10));
        proof {
            assert(s@ =~= render::u8_dec(n));
        }
    } else {
        push_char(&mut s, digit_ch(n / 100));
        push_char(&mut s, digit_ch((n / 10) % 10));
        push_char(&mut s, digit_ch(n % 10));
        proof {
            assert(s@ =~= render::u8_dec(n));
        }
    }
    s
}

/// Whether a URL starts with `http://` or `https://`.
fn starts_with_http(url: &str) -> (r: bool)
    ensures
        r == render::is_external_url(url@),
{
    let chars = str_chars(url);
    let http = chars.len() >= 7 && chars[0] == 'h' && chars[1] == 't' && chars[2] == 't'
        && chars[3] == 'p' && chars[4] == ':' && chars[5] == '/' && chars[6] == '/';
    let https = chars.len() >= 8 && chars[0] == 'h' && chars[1] == 't' && chars[2] == 't'
        && chars[3] == 'p' && chars[4] == 's' && chars[5] == ':' && chars[6] == '/' && chars[7]
        == '/';
    proof {
        reveal_strlit("http://");
        reveal_strlit("https://");
        if http {
            assert(url@.subrange(0, 7) =~= "http://"@);
        } else if url@.len() >= 7 && url@.subrange(0, 7) == "http://"@ {
            assert(forall|k: int| 0 <= k < 7 ==> url@[k] == "http://"@[k]);
            assert(false);
        }
        if https {
            assert(url@.subrange(0, 8) =~= "https://"@);
        } else if url@.len() >= 8 && url@.subrange(0, 8) == "https://"@ {
            assert(forall|k: int| 0 <= k < 8 ==> url@[k] == "https://"@[k]);
            assert(false);
        }
    }
    http || https
}

/// Render a document tree to HTML with the default configuration.
pub fn render_html(ast: &AstNode) -> (r: Result<String, MarkdownError>)
    ensures
        r matches Ok(s) && s@ == render::render_node(ast@, render::default_options(), 0),
{
    let renderer = HtmlRenderer::new();
    renderer.render(ast)
}

/// Render a document tree to HTML under the given configuration.
pub fn render_html_with_options(ast: &AstNode, options: HtmlOptions) -> (r: Result<
    String,
    MarkdownError,
>)
    ensures
        r matches Ok(s) && s@ == render::render_node(ast@, options@, 0),
{
    let renderer = HtmlRenderer::with_options(options);
    renderer.render(ast)
}

} // verus!
