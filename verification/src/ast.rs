//! The typed document tree and its mathematical view.
use vstd::prelude::*;

verus! {

/// A node of the document tree.
///
/// `Document`, `Heading`, `Paragraph`, `List` and `ListItem` are block
/// nodes; the rest are inline nodes. Block nodes contain only inline nodes
/// in their content, except `Document`, whose children are blocks, and
/// `List`, whose items are `ListItem` nodes; the parser establishes this
/// shape, the tree itself does not enforce it.
#[derive(Debug, PartialEq)]
pub enum AstNode {
    /// The tree root; exactly one per parse, possibly with zero children.
    Document { children: Vec<AstNode> },
    Heading { level: u8, content: Vec<AstNode> },
    Paragraph { content: Vec<AstNode> },
    List { ordered: bool, items: Vec<AstNode> },
    ListItem { content: Vec<AstNode> },
    Text(String),
    Bold(Vec<AstNode>),
    Italic(Vec<AstNode>),
    Link { text: Vec<AstNode>, url: String },
    LineBreak,
}

/// The mathematical value of an `AstNode`: the same tree over `Seq`.
pub enum NodeView {
    Document { children: Seq<NodeView> },
    Heading { level: u8, content: Seq<NodeView> },
    Paragraph { content: Seq<NodeView> },
    List { ordered: bool, items: Seq<NodeView> },
    ListItem { content: Seq<NodeView> },
    Text(Seq<char>),
    Bold(Seq<NodeView>),
    Italic(Seq<NodeView>),
    Link { text: Seq<NodeView>, url: Seq<char> },
    LineBreak,
}

/// The mathematical value of one node.
pub open spec fn node_view(n: AstNode) -> NodeView
    decreases n,
    via node_view_decreases
{
    match n {
        AstNode::Document { children } => {
            NodeView::Document { children: nodes_view(children@) }
        },
        AstNode::Heading { level, content } => {
            NodeView::Heading { level, content: nodes_view(content@) }
        },
        AstNode::Paragraph { content } => {
            NodeView::Paragraph { content: nodes_view(content@) }
        },
        AstNode::List { ordered, items } => {
            NodeView::List { ordered, items: nodes_view(items@) }
        },
        AstNode::ListItem { content } => {
            NodeView::ListItem { content: nodes_view(content@) }
        },
        AstNode::Text(s) => NodeView::Text(s@),
        AstNode::Bold(content) => NodeView::Bold(nodes_view(content@)),
        AstNode::Italic(content) => NodeView::Italic(nodes_view(content@)),
        AstNode::Link { text, url } => {
            NodeView::Link { text: nodes_view(text@), url: url@ }
        },
        AstNode::LineBreak => NodeView::LineBreak,
    }
}

/// The views of a sequence of nodes, in order.
pub open spec fn nodes_view(v: Seq<AstNode>) -> Seq<NodeView>
    decreases v,
{
    Seq::new(
        v.len(),
        |i: int|
            if 0 <= i < v.len() {
                node_view(v[i])
            } else {
                NodeView::LineBreak
            },
    )
}

#[via_fn]
proof fn node_view_decreases(n: AstNode) {
    match n {
        AstNode::Document { children } => {
            assert(decreases_to!(n => children));
            assert(decreases_to!(children => children@));
        },
        AstNode::Heading { level, content } => {
            assert(decreases_to!(n => content));
            assert(decreases_to!(content => content@));
        },
        AstNode::Paragraph { content } => {
            assert(decreases_to!(n => content));
            assert(decreases_to!(content => content@));
        },
        AstNode::List { ordered, items } => {
            assert(decreases_to!(n => items));
            assert(decreases_to!(items => items@));
        },
        AstNode::ListItem { content } => {
            assert(decreases_to!(n => content));
            assert(decreases_to!(content => content@));
        },
        AstNode::Bold(content) => {
            assert(decreases_to!(n => content));
            assert(decreases_to!(content => content@));
        },
        AstNode::Italic(content) => {
            assert(decreases_to!(n => content));
            assert(decreases_to!(content => content@));
        },
        AstNode::Link { text, url } => {
            assert(decreases_to!(n => text));
            assert(decreases_to!(text => text@));
        },
        _ => {},
    }
}

impl View for AstNode {
    type V = NodeView;

    open spec fn view(&self) -> NodeView {
        node_view(*self)
    }
}

impl DeepView for AstNode {
    type V = NodeView;

    open spec fn deep_view(&self) -> NodeView {
        self.view()
    }
}

/// Whether a node view is inline content rather than a block.
pub open spec fn is_inline_view(n: NodeView) -> bool {
    match n {
        NodeView::Text(_) => true,
        NodeView::Bold(_) => true,
        NodeView::Italic(_) => true,
        NodeView::Link { .. } => true,
        NodeView::LineBreak => true,
        _ => false,
    }
}

impl AstNode {
    /// Whether this node is inline content (text, emphasis, link, line
    /// break).
    pub fn is_inline(&self) -> (r: bool)
        ensures
            r == is_inline_view(self@),
    {
        match self {
            AstNode::Text(_) => true,
            AstNode::Bold(_) => true,
            AstNode::Italic(_) => true,
            AstNode::Link { .. } => true,
            AstNode::LineBreak => true,
            _ => false,
        }
    }

    /// Whether this node is a block: exactly when it is not inline.
    pub fn is_block(&self) -> (r: bool)
        ensures
            r == !is_inline_view(self@),
    {
        !self.is_inline()
    }
}


/// A well-shaped inline node: text and line breaks are leaves, and emphasis
/// and link text hold only well-shaped inline nodes.
pub open spec fn wf_inline(n: NodeView) -> bool
    decreases n,
{
    match n {
        NodeView::Text(_) => true,
        NodeView::LineBreak => true,
        NodeView::Bold(content) => wf_inlines(content),
        NodeView::Italic(content) => wf_inlines(content),
        NodeView::Link { text, .. } => wf_inlines(text),
        _ => false,
    }
}

/// A sequence of well-shaped inline nodes.
pub open spec fn wf_inlines(ns: Seq<NodeView>) -> bool
    decreases ns,
{
    if ns.len() == 0 {
        true
    } else {
        wf_inline(ns.first()) && wf_inlines(ns.drop_first())
    }
}

/// A sequence of well-shaped list items: each is a `ListItem` holding only
/// inline nodes.
pub open spec fn wf_items(ns: Seq<NodeView>) -> bool
    decreases ns,
{
    if ns.len() == 0 {
        true
    } else {
        (ns.first() matches NodeView::ListItem { content } && wf_inlines(content)) && wf_items(
            ns.drop_first(),
        )
    }
}

/// A well-shaped block node: headings and paragraphs hold only inline
/// nodes, and lists hold only list items.
pub open spec fn wf_block(n: NodeView) -> bool {
    match n {
        NodeView::Heading { content, .. } => wf_inlines(content),
        NodeView::Paragraph { content } => wf_inlines(content),
        NodeView::List { items, .. } => wf_items(items),
        _ => false,
    }
}

/// A sequence of well-shaped block nodes.
pub open spec fn wf_blocks(ns: Seq<NodeView>) -> bool
    decreases ns,
{
    if ns.len() == 0 {
        true
    } else {
        wf_block(ns.first()) && wf_blocks(ns.drop_first())
    }
}

/// A well-shaped document tree: the root is a `Document` whose children are
/// well-shaped blocks.
pub open spec fn wf_doc(n: NodeView) -> bool {
    n matches NodeView::Document { children } && wf_blocks(children)
}

} // verus!
