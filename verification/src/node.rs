//! The block node: a tagged union over the six block kinds.

use vstd::prelude::*;

verus! {

use crate::blocks::{
    Heading, Paragraph, List, CodeBlock, Quote, LineBreak, HeadingModel, ParagraphModel,
    ListModel, CodeBlockModel, QuoteModel, heading_html, paragraph_html, list_html, code_html,
    quote_html,
};

/// A wrapper over all the supported markdown blocks.
pub enum Node {
    Heading(Heading),
    Paragraph(Paragraph),
    List(List),
    CodeBlock(CodeBlock),
    Quote(Quote),
    LineBreak(LineBreak),
}

/// The mathematical image of a `Node`.
pub enum NodeModel {
    Heading(HeadingModel),
    Paragraph(ParagraphModel),
    List(ListModel),
    CodeBlock(CodeBlockModel),
    Quote(QuoteModel),
    LineBreak,
}

impl View for Node {
    type V = NodeModel;

    open spec fn view(&self) -> NodeModel {
        match self {
            Node::Heading(h) => NodeModel::Heading(h@),
            Node::Paragraph(p) => NodeModel::Paragraph(p@),
            Node::List(l) => NodeModel::List(l@),
            Node::CodeBlock(c) => NodeModel::CodeBlock(c@),
            Node::Quote(q) => NodeModel::Quote(q@),
            Node::LineBreak(_) => NodeModel::LineBreak,
        }
    }
}

/// The HTML of one block node.
pub open spec fn node_html(m: NodeModel) -> Seq<char> {
    match m {
        NodeModel::Heading(h) => heading_html(h),
        NodeModel::Paragraph(p) => paragraph_html(p),
        NodeModel::List(l) => list_html(l),
        NodeModel::CodeBlock(c) => code_html(c),
        NodeModel::Quote(q) => quote_html(q),
        NodeModel::LineBreak => "<br/>"@,
    }
}

impl Node {
    /// Renders this node with its variant's template.
    pub fn into_html(&self) -> (r: String)
        ensures
            r@ == node_html(self@),
    {
        match self {
            Node::CodeBlock(code) => code.into_html(),
            Node::Paragraph(p) => p.into_html(),
            Node::List(l) => l.into_html(),
            Node::Quote(q) => q.into_html(),
            Node::Heading(h) => h.into_html(),
            Node::LineBreak(l) => l.into_html(),
        }
    }
}

} // verus!
