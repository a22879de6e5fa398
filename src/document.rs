use vstd::prelude::*;

verus! {

/// An inline element of a block, as the markdown tokenizer hands it over.
#[derive(Debug)]
pub enum Span {
    Break,
    Text(String),
    Code(String),
    /// Text, target and optional title.
    Link(String, String, Option<String>),
    /// Alternative text, path and optional title.
    Image(String, String, Option<String>),
    Emphasis(Vec<Span>),
    Strong(Vec<Span>),
}

/// One item of an ordered or unordered list.
#[derive(Debug)]
pub enum ListItem {
    Simple(Vec<Span>),
    Paragraph(Vec<Block>),
}

/// A block of the document, as the markdown tokenizer hands it over.
#[derive(Debug)]
pub enum Block {
    /// Inline content and level (1 for a slide title).
    Header(Vec<Span>, usize),
    Paragraph(Vec<Span>),
    Blockquote(Vec<Block>),
    /// Optional language tag and the code text.
    CodeBlock(Option<String>, String),
    /// Items and the numbering type (`1`, `a`, `A`, `i` or `I`).
    OrderedList(Vec<ListItem>, String),
    UnorderedList(Vec<ListItem>),
    Raw(String),
    /// A horizontal rule: the boundary between two slides.
    Hr,
}

} // verus!
