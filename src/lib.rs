//! A slide deck built from a markdown document: the document is sanitized,
//! cut into slides at horizontal rules, and each slide is compiled into an
//! ordered list of draw boxes; a controller keeps track of the active slide.

mod boxes;
mod code;
mod compile;
mod deck;
mod document;
mod sanitize;

pub use boxes::{
    Align, ColorRole, DrawBox, FontKind, ImageBox, TextBox, TextBoxStyle, TextLine,
    TextPartial, Theme,
};
pub use code::{CodeBoxBuilder, ExecutableCode};
pub use compile::MarkdownToSlides;
pub use deck::{Slide, Slides};
pub use document::{Block, ListItem, Span};
