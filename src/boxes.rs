use vstd::prelude::*;

verus! {

/// Which of the theme's fonts a run of text is drawn with.
#[derive(Debug, Clone, Copy, PartialEq, Eq, Structural)]
pub enum FontKind {
    Text,
    Bold,
    Italic,
    Code,
}

/// Which of the theme's colors a run of text or a box background takes.
#[derive(Debug, Clone, Copy, PartialEq, Eq, Structural)]
pub enum ColorRole {
    Text,
    Heading,
    BlockquoteBackground,
    CodeBackground,
}

/// Horizontal alignment of a line of text or of a box.
#[derive(Debug, Clone, Copy, PartialEq, Eq, Structural)]
pub enum Align {
    Left,
    Right,
    Center,
}

/// The part of the presentation theme that the layout reads.
#[derive(Debug, Clone)]
pub struct Theme {
    pub align: Align,
    pub font_size_text: u16,
    pub font_size_header_slides: u16,
    pub font_size_header_title: u16,
    /// Vertical padding of a text box, in pixels.
    pub vertical_offset: u32,
    /// The glyph put before each item of an unordered list.
    pub bullet: String,
}

impl Theme {
    /// A copy of the theme.
    pub fn duplicate(&self) -> (r: Theme)
        ensures
            r@ == self@,
    {
        Theme {
            align: self.align,
            font_size_text: self.font_size_text,
            font_size_header_slides: self.font_size_header_slides,
            font_size_header_title: self.font_size_header_title,
            vertical_offset: self.vertical_offset,
            bullet: self.bullet.clone(),
        }
    }
}

/// Value of a theme in contracts.
pub struct ThemeView {
    pub align: Align,
    pub font_size_text: u16,
    pub font_size_header_slides: u16,
    pub font_size_header_title: u16,
    pub vertical_offset: u32,
    pub bullet: Seq<char>,
}

impl View for Theme {
    type V = ThemeView;

    open spec fn view(&self) -> ThemeView {
        ThemeView {
            align: self.align,
            font_size_text: self.font_size_text,
            font_size_header_slides: self.font_size_header_slides,
            font_size_header_title: self.font_size_header_title,
            vertical_offset: self.vertical_offset,
            bullet: self.bullet@,
        }
    }
}

/// An atomic styled run of text.
#[derive(Debug, Clone)]
pub struct TextPartial {
    pub text: String,
    pub font: FontKind,
    pub size: u32,
    pub color: ColorRole,
}

pub struct PartialView {
    pub text: Seq<char>,
    pub font: FontKind,
    pub size: u32,
    pub color: ColorRole,
}

impl View for TextPartial {
    type V = PartialView;

    open spec fn view(&self) -> PartialView {
        PartialView { text: self.text@, font: self.font, size: self.size, color: self.color }
    }
}

impl TextPartial {
    pub fn new(text: String, font: FontKind, size: u32, color: ColorRole) -> (r: TextPartial)
        ensures
            r@ == (PartialView { text: text@, font, size, color }),
    {
        TextPartial { text, font, size, color }
    }
}

/// The runs of one logical line, with its alignment.
#[derive(Debug, Clone)]
pub struct TextLine {
    pub align: Align,
    pub partials: Vec<TextPartial>,
}

pub struct LineView {
    pub align: Align,
    pub partials: Seq<PartialView>,
}

pub open spec fn partials_view(p: Seq<TextPartial>) -> Seq<PartialView> {
    p.map_values(|x: TextPartial| x@)
}

impl View for TextLine {
    type V = LineView;

    open spec fn view(&self) -> LineView {
        LineView { align: self.align, partials: partials_view(self.partials@) }
    }
}

impl TextLine {
    pub fn new(align: Align, partials: Vec<TextPartial>) -> (r: TextLine)
        ensures
            r@ == (LineView { align, partials: partials_view(partials@) }),
    {
        TextLine { align, partials }
    }
}

/// How a text box is drawn.
#[derive(Debug, Clone, Copy, PartialEq, Eq, Structural)]
pub enum TextBoxStyle {
    Standard,
    Title,
    Blockquote { size: u32, font: FontKind, color: ColorRole },
}

/// A run of lines drawn as one box.
#[derive(Debug, Clone)]
pub struct TextBox {
    pub lines: Vec<TextLine>,
    pub offset: u32,
    pub background: Option<ColorRole>,
    pub style: TextBoxStyle,
}

pub struct TextBoxView {
    pub lines: Seq<LineView>,
    pub offset: u32,
    pub background: Option<ColorRole>,
    pub style: TextBoxStyle,
}

pub open spec fn lines_view(l: Seq<TextLine>) -> Seq<LineView> {
    l.map_values(|x: TextLine| x@)
}

impl View for TextBox {
    type V = TextBoxView;

    open spec fn view(&self) -> TextBoxView {
        TextBoxView {
            lines: lines_view(self.lines@),
            offset: self.offset,
            background: self.background,
            style: self.style,
        }
    }
}

impl TextBox {
    pub fn new(
        lines: Vec<TextLine>,
        offset: u32,
        background: Option<ColorRole>,
        style: TextBoxStyle,
    ) -> (r: TextBox)
        ensures
            r@ == (TextBoxView { lines: lines_view(lines@), offset, background, style }),
    {
        TextBox { lines, offset, background, style }
    }
}

/// An image placed on a slide; the image itself is loaded by the host.
#[derive(Debug, Clone)]
pub struct ImageBox {
    pub path: String,
    pub offset: u32,
}

/// An element of a slide's display list.
#[derive(Debug, Clone)]
pub enum DrawBox {
    Image(ImageBox),
    Text(TextBox),
}

pub enum DrawBoxView {
    Image { path: Seq<char>, offset: u32 },
    Text(TextBoxView),
}

impl View for DrawBox {
    type V = DrawBoxView;

    open spec fn view(&self) -> DrawBoxView {
        match self {
            DrawBox::Image(i) => DrawBoxView::Image { path: i.path@, offset: i.offset },
            DrawBox::Text(t) => DrawBoxView::Text(t@),
        }
    }
}

pub open spec fn boxes_view(b: Seq<DrawBox>) -> Seq<DrawBoxView> {
    b.map_values(|x: DrawBox| x@)
}

} // verus!
