use crate::boxes::{
    boxes_view, lines_view, partials_view, Align, ColorRole, DrawBox, DrawBoxView, FontKind,
    ImageBox, LineView, PartialView, TextBox, TextBoxStyle, TextBoxView, TextLine, TextPartial,
    Theme, ThemeView,
};
use crate::code::{code_box, is_supported_language, CodeBoxBuilder, ExecutableCode};
use crate::deck::{slides_view, Slide, SlideView};
use crate::document::{Block, ListItem, Span};
use vstd::prelude::*;
use vstd::string::StringExecFns;

verus! {

broadcast use {
    vstd::seq::axiom_seq_index_decreases,
    vstd::seq::axiom_seq_subrange_decreases,
    vstd::std_specs::vec::axiom_vec_decreases_to_view,
};

/// The styled runs of a sequence of inline spans. Emphasis and strong text
/// take the italic and bold font; links, images and breaks give no run.
pub open spec fn spans_partials(
    spans: Seq<Span>,
    font: FontKind,
    size: u32,
    color: ColorRole,
) -> Seq<PartialView>
    decreases spans,
{
    if spans.len() == 0 {
        Seq::empty()
    } else {
        let rest = spans_partials(spans.drop_last(), font, size, color);
        match spans.last() {
            Span::Text(t) => rest.push(PartialView { text: t@, font, size, color }),
            Span::Code(t) => rest.push(
                PartialView { text: t@, font: FontKind::Code, size, color: ColorRole::Text },
            ),
            Span::Emphasis(inner) => rest + spans_partials(inner@, FontKind::Italic, size, color),
            Span::Strong(inner) => rest + spans_partials(inner@, FontKind::Bold, size, color),
            _ => rest,
        }
    }
}


/// The decimal digits of a number.
pub open spec fn decimal(n: nat) -> Seq<char>
    decreases n,
{
    let digit = seq!['0', '1', '2', '3', '4', '5', '6', '7', '8', '9'];
    if n < 10 {
        seq![digit[n as int]]
    } else {
        decimal(n / 10).push(digit[(n % 10) as int])
    }
}

/// Relies on `ToString` for `usize` (through its `Display`): the decimal
/// digits of the number, without sign or padding.
#[verifier::external_body]
fn decimal_string(n: usize) -> (r: String)
    ensures
        r@ == decimal(n as nat),
{
    n.to_string()
}

/// Pending lines wrapped into one box, if there are any.
pub open spec fn flush(
    theme: ThemeView,
    boxes: Seq<DrawBoxView>,
    lines: Seq<LineView>,
    background: Option<ColorRole>,
    style: TextBoxStyle,
) -> Seq<DrawBoxView> {
    if lines.len() == 0 {
        boxes
    } else {
        boxes.push(
            DrawBoxView::Text(
                TextBoxView { lines, offset: theme.vertical_offset, background, style },
            ),
        )
    }
}

/// A paragraph that starts with an image.
pub open spec fn is_image(spans: Seq<Span>) -> bool {
    spans.len() > 0 && spans[0] is Image
}

pub open spec fn blockquote_style(theme: ThemeView) -> TextBoxStyle {
    TextBoxStyle::Blockquote {
        size: (2 * theme.font_size_header_title) as u32,
        font: FontKind::Text,
        color: ColorRole::Text,
    }
}

pub open spec fn title_box(
    theme: ThemeView,
    spans: Seq<Span>,
    background: Option<ColorRole>,
) -> TextBoxView {
    TextBoxView {
        lines: seq![
            LineView {
                align: theme.align,
                partials: spans_partials(
                    spans,
                    FontKind::Text,
                    theme.font_size_header_title as u32,
                    ColorRole::Heading,
                ),
            },
        ],
        offset: theme.vertical_offset,
        background,
        style: TextBoxStyle::Title,
    }
}

pub open spec fn heading_line(theme: ThemeView, spans: Seq<Span>) -> LineView {
    LineView {
        align: theme.align,
        partials: spans_partials(
            spans,
            FontKind::Text,
            theme.font_size_header_slides as u32,
            ColorRole::Heading,
        ),
    }
}

pub open spec fn paragraph_line(theme: ThemeView, spans: Seq<Span>) -> LineView {
    LineView {
        align: theme.align,
        partials: spans_partials(
            spans,
            FontKind::Text,
            theme.font_size_text as u32,
            ColorRole::Text,
        ),
    }
}

/// The text before a list item: the bullet glyph, or the item's number
/// (counted from 1 within the list) and a dot.
pub open spec fn bullet_text(index: nat, bullet: Option<Seq<char>>) -> Seq<char> {
    match bullet {
        Some(b) => b,
        None => decimal(index + 1) + ". "@,
    }
}

pub open spec fn bullet_partial(theme: ThemeView, index: nat, bullet: Option<Seq<char>>) -> PartialView {
    PartialView {
        text: bullet_text(index, bullet),
        font: FontKind::Text,
        size: theme.font_size_text as u32,
        color: ColorRole::Text,
    }
}

/// One left-aligned line for each simple item of a list.
pub open spec fn list_lines(
    theme: ThemeView,
    items: Seq<ListItem>,
    bullet: Option<Seq<char>>,
) -> Seq<LineView>
    decreases items.len(),
{
    if items.len() == 0 {
        Seq::empty()
    } else {
        let rest = list_lines(theme, items.drop_last(), bullet);
        match items.last() {
            ListItem::Simple(spans) => rest.push(
                LineView {
                    align: Align::Left,
                    partials: seq![bullet_partial(theme, (items.len() - 1) as nat, bullet)]
                        + spans_partials(
                        spans@,
                        FontKind::Text,
                        theme.font_size_text as u32,
                        ColorRole::Text,
                    ),
                },
            ),
            _ => rest,
        }
    }
}

/// The boxes emitted and the lines still pending after compiling `blocks`.
pub open spec fn compile_state(
    theme: ThemeView,
    blocks: Seq<Block>,
    background: Option<ColorRole>,
    style: TextBoxStyle,
) -> (Seq<DrawBoxView>, Seq<LineView>)
    decreases blocks,
{
    if blocks.len() == 0 {
        (Seq::empty(), Seq::empty())
    } else {
        let (boxes, lines) = compile_state(theme, blocks.drop_last(), background, style);
        let flushed = flush(theme, boxes, lines, background, style);
        match blocks.last() {
            Block::Header(spans, level) => if level == 1 {
                (flushed.push(DrawBoxView::Text(title_box(theme, spans@, background))), Seq::empty())
            } else {
                (boxes, lines.push(heading_line(theme, spans@)))
            },
            Block::Paragraph(spans) => if is_image(spans@) {
                match spans@[0] {
                    Span::Image(_alt, path, _title) => (
                        flushed.push(DrawBoxView::Image { path: path@, offset: 0 }),
                        Seq::empty(),
                    ),
                    _ => (flushed, Seq::empty()),
                }
            } else {
                (boxes, lines.push(paragraph_line(theme, spans@)))
            },
            Block::UnorderedList(items) => (
                boxes,
                lines + list_lines(theme, items@, Some(theme.bullet)),
            ),
            Block::OrderedList(items, _kind) => (boxes, lines + list_lines(theme, items@, None)),
            Block::Blockquote(inner) => {
                let (ib, il) = compile_state(
                    theme,
                    inner@,
                    Some(ColorRole::BlockquoteBackground),
                    blockquote_style(theme),
                );
                (
                    flushed + flush(
                        theme,
                        ib,
                        il,
                        Some(ColorRole::BlockquoteBackground),
                        blockquote_style(theme),
                    ),
                    Seq::empty(),
                )
            },
            Block::CodeBlock(_language, code) => (
                flushed.push(DrawBoxView::Text(code_box(theme, code@))),
                Seq::empty(),
            ),
            _ => (boxes, lines),
        }
    }
}

/// The draw boxes of a sequence of blocks.
pub open spec fn compile(
    theme: ThemeView,
    blocks: Seq<Block>,
    background: Option<ColorRole>,
    style: TextBoxStyle,
) -> Seq<DrawBoxView> {
    let (boxes, lines) = compile_state(theme, blocks, background, style);
    flush(theme, boxes, lines, background, style)
}

/// Language and code of the first code block whose language can be run.
pub open spec fn first_code(blocks: Seq<Block>) -> Option<(Seq<char>, Seq<char>)>
    decreases blocks.len(),
{
    if blocks.len() == 0 {
        None
    } else {
        match first_code(blocks.drop_last()) {
            Some(c) => Some(c),
            None => match blocks.last() {
                Block::CodeBlock(Some(language), code) => if is_supported_language(language@) {
                    Some((language@, code@))
                } else {
                    None
                },
                _ => None,
            },
        }
    }
}

/// The finished groups and the group still open after scanning `blocks`.
pub open spec fn segment_state(blocks: Seq<Block>) -> (Seq<Seq<Block>>, Seq<Block>)
    decreases blocks.len(),
{
    if blocks.len() == 0 {
        (Seq::empty(), Seq::empty())
    } else {
        let (groups, open) = segment_state(blocks.drop_last());
        if blocks.last() is Hr {
            (groups.push(open), Seq::empty())
        } else {
            (groups, open.push(blocks.last()))
        }
    }
}

/// The blocks of each slide: every rule closes a group, which may be empty;
/// what follows the last rule is a group if it is not empty.
pub open spec fn segments(blocks: Seq<Block>) -> Seq<Seq<Block>> {
    let (groups, open) = segment_state(blocks);
    if open.len() > 0 {
        groups.push(open)
    } else {
        groups
    }
}

/// The slide compiled from its blocks.
pub open spec fn slide_of(theme: ThemeView, blocks: Seq<Block>) -> SlideView {
    SlideView {
        boxes: compile(theme, blocks, None, TextBoxStyle::Standard),
        code: first_code(blocks),
    }
}

pub open spec fn groups_view(g: Seq<Vec<Block>>) -> Seq<Seq<Block>> {
    g.map_values(|v: Vec<Block>| v@)
}

/// Once a prefix holds a runnable code block, longer sequences find the same one.
pub proof fn lemma_first_code_prefix(blocks: Seq<Block>, n: int)
    requires
        0 <= n <= blocks.len(),
        first_code(blocks.take(n)) is Some,
    ensures
        first_code(blocks) == first_code(blocks.take(n)),
    decreases blocks.len() - n,
{
    if n < blocks.len() {
        assert(blocks.take(n + 1).drop_last() =~= blocks.take(n));
        lemma_first_code_prefix(blocks, n + 1);
    } else {
        assert(blocks.take(n) =~= blocks);
    }
}

/// Number of horizontal rules among the blocks.
pub open spec fn rule_count(blocks: Seq<Block>) -> nat
    decreases blocks.len(),
{
    if blocks.len() == 0 {
        0
    } else {
        rule_count(blocks.drop_last()) + if blocks.last() is Hr {
            1nat
        } else {
            0nat
        }
    }
}

proof fn lemma_segment_state_shape(blocks: Seq<Block>)
    ensures
        segment_state(blocks).0.len() == rule_count(blocks),
        forall|g: int, j: int|
            0 <= g < segment_state(blocks).0.len() && 0 <= j < segment_state(blocks).0[g].len()
                ==> !(#[trigger] segment_state(blocks).0[g][j] is Hr),
        forall|j: int|
            0 <= j < segment_state(blocks).1.len() ==> !(#[trigger] segment_state(blocks).1[j] is Hr),
        blocks.len() > 0 && !(blocks.last() is Hr) ==> segment_state(blocks).1.len() > 0,
    decreases blocks.len(),
{
    if blocks.len() > 0 {
        lemma_segment_state_shape(blocks.drop_last());
    }
}

/// A sequence of blocks that does not end with a rule falls into one more
/// group than it has rules, and no group holds a rule.
pub proof fn lemma_segments_count(blocks: Seq<Block>)
    requires
        blocks.len() > 0,
        !(blocks.last() is Hr),
    ensures
        segments(blocks).len() == rule_count(blocks) + 1,
        forall|g: int, j: int|
            0 <= g < segments(blocks).len() && 0 <= j < segments(blocks)[g].len()
                ==> !(#[trigger] segments(blocks)[g][j] is Hr),
{
    lemma_segment_state_shape(blocks);
    let (groups, open) = segment_state(blocks);
    assert forall|g: int, j: int|
        0 <= g < segments(blocks).len() && 0 <= j < segments(blocks)[g].len()
            implies !(#[trigger] segments(blocks)[g][j] is Hr) by {
        if g < groups.len() {
            assert(segments(blocks)[g] == groups[g]);
            assert(!(groups[g][j] is Hr));
        } else {
            assert(segments(blocks)[g] == open);
            assert(!(open[j] is Hr));
        }
    }
}

proof fn lemma_leading_rule_state(blocks: Seq<Block>)
    requires
        blocks.len() > 0,
        blocks[0] is Hr,
    ensures
        segment_state(blocks).0.len() > 0,
        segment_state(blocks).0[0] == Seq::<Block>::empty(),
    decreases blocks.len(),
{
    if blocks.len() > 1 {
        assert(blocks.drop_last()[0] == blocks[0]);
        lemma_leading_rule_state(blocks.drop_last());
    } else {
        assert(blocks.drop_last() =~= Seq::<Block>::empty());
        assert(segment_state(blocks.drop_last()).1 == Seq::<Block>::empty());
        assert(blocks.last() is Hr);
    }
}

/// A leading rule gives an empty first group, which compiles to a slide
/// without boxes or code.
pub proof fn lemma_leading_rule(theme: ThemeView, blocks: Seq<Block>)
    requires
        blocks.len() > 0,
        blocks[0] is Hr,
    ensures
        segments(blocks).len() > 0,
        segments(blocks)[0] == Seq::<Block>::empty(),
        slide_of(theme, segments(blocks)[0]) == (SlideView { boxes: Seq::empty(), code: None }),
{
    lemma_leading_rule_state(blocks);
}

/// A paragraph that is not an image.
pub open spec fn is_text_paragraph(b: Block) -> bool {
    match b {
        Block::Paragraph(spans) => !is_image(spans@),
        _ => false,
    }
}

/// The line that a text paragraph becomes.
pub open spec fn line_of_paragraph(theme: ThemeView, b: Block) -> LineView {
    match b {
        Block::Paragraph(spans) => paragraph_line(theme, spans@),
        _ => LineView { align: theme.align, partials: Seq::empty() },
    }
}

proof fn lemma_paragraphs_pending(
    theme: ThemeView,
    blocks: Seq<Block>,
    background: Option<ColorRole>,
    style: TextBoxStyle,
)
    requires
        forall|i: int| 0 <= i < blocks.len() ==> is_text_paragraph(#[trigger] blocks[i]),
    ensures
        compile_state(theme, blocks, background, style) == (
            Seq::<DrawBoxView>::empty(),
            blocks.map_values(|b: Block| line_of_paragraph(theme, b)),
        ),
    decreases blocks.len(),
{
    if blocks.len() > 0 {
        let d = blocks.drop_last();
        assert forall|i: int| 0 <= i < d.len() implies is_text_paragraph(#[trigger] d[i]) by {
            assert(d[i] == blocks[i]);
        }
        lemma_paragraphs_pending(theme, d, background, style);
        assert(is_text_paragraph(blocks[blocks.len() - 1]));
        assert(blocks.map_values(|b: Block| line_of_paragraph(theme, b)) =~= d.map_values(
            |b: Block| line_of_paragraph(theme, b),
        ).push(line_of_paragraph(theme, blocks.last())));
    } else {
        assert(blocks.map_values(|b: Block| line_of_paragraph(theme, b)) =~= Seq::<
            LineView,
        >::empty());
    }
}

/// The box that a run of text paragraphs becomes.
pub open spec fn paragraphs_box(
    theme: ThemeView,
    blocks: Seq<Block>,
    background: Option<ColorRole>,
    style: TextBoxStyle,
) -> DrawBoxView {
    DrawBoxView::Text(
        TextBoxView {
            lines: blocks.map_values(|b: Block| line_of_paragraph(theme, b)),
            offset: theme.vertical_offset,
            background,
            style,
        },
    )
}

/// Text paragraphs with nothing between them make one box with one line per
/// paragraph, in order.
pub proof fn lemma_paragraphs_one_box(
    theme: ThemeView,
    blocks: Seq<Block>,
    background: Option<ColorRole>,
    style: TextBoxStyle,
)
    requires
        blocks.len() > 0,
        forall|i: int| 0 <= i < blocks.len() ==> is_text_paragraph(#[trigger] blocks[i]),
    ensures
        compile(theme, blocks, background, style) == seq![
            paragraphs_box(theme, blocks, background, style),
        ],
{
    lemma_paragraphs_pending(theme, blocks, background, style);
    assert(Seq::<DrawBoxView>::empty().push(paragraphs_box(theme, blocks, background, style))
        =~= seq![paragraphs_box(theme, blocks, background, style)]);
}

/// A level-1 heading after text paragraphs closes their box and gets a
/// title box of its own.
pub proof fn lemma_title_after_paragraphs(
    theme: ThemeView,
    blocks: Seq<Block>,
    title: Vec<Span>,
    background: Option<ColorRole>,
    style: TextBoxStyle,
)
    requires
        blocks.len() > 0,
        forall|i: int| 0 <= i < blocks.len() ==> is_text_paragraph(#[trigger] blocks[i]),
    ensures
        compile(theme, blocks.push(Block::Header(title, 1)), background, style) == seq![
            paragraphs_box(theme, blocks, background, style),
            DrawBoxView::Text(title_box(theme, title@, background)),
        ],
{
    let all = blocks.push(Block::Header(title, 1));
    assert(all.drop_last() =~= blocks);
    lemma_paragraphs_pending(theme, blocks, background, style);
    assert(Seq::<DrawBoxView>::empty().push(paragraphs_box(theme, blocks, background, style)).push(
        DrawBoxView::Text(title_box(theme, title@, background)),
    ) =~= seq![
        paragraphs_box(theme, blocks, background, style),
        DrawBoxView::Text(title_box(theme, title@, background)),
    ]);
}

/// Path of an image span.
pub open spec fn image_path(s: Span) -> Seq<char> {
    match s {
        Span::Image(_alt, path, _title) => path@,
        _ => Seq::empty(),
    }
}

/// A paragraph that starts with an image adds exactly one image box, for
/// that first image, after what came before; its other spans are dropped.
pub proof fn lemma_image_paragraph(
    theme: ThemeView,
    blocks: Seq<Block>,
    spans: Vec<Span>,
    background: Option<ColorRole>,
    style: TextBoxStyle,
)
    requires
        is_image(spans@),
    ensures
        compile(theme, blocks.push(Block::Paragraph(spans)), background, style) == compile(
            theme,
            blocks,
            background,
            style,
        ).push(DrawBoxView::Image { path: image_path(spans@[0]), offset: 0 }),
{
    let all = blocks.push(Block::Paragraph(spans));
    assert(all.drop_last() =~= blocks);
}

/// Compiles the blocks of a document into slides.
pub struct MarkdownToSlides {
    pub theme: Theme,
    pub code_box_builder: CodeBoxBuilder,
}

impl MarkdownToSlides {
    pub open spec fn wf(&self) -> bool {
        self.code_box_builder.theme@ == self.theme@
    }

    pub fn new(theme: Theme) -> (r: MarkdownToSlides)
        ensures
            r.wf(),
            r.theme@ == theme@,
    {
        let code_box_builder = CodeBoxBuilder::new(theme.duplicate());
        MarkdownToSlides { theme, code_box_builder }
    }

    pub fn spans_to_text_partials(
        &self,
        spans: &Vec<Span>,
        font: FontKind,
        size: u32,
        color: ColorRole,
    ) -> (r: Vec<TextPartial>)
        ensures
            partials_view(r@) == spans_partials(spans@, font, size, color),
        decreases spans@,
    {
        let mut partials: Vec<TextPartial> = Vec::new();
        let mut i: usize = 0;
        while i < spans.len()
            invariant
                i <= spans@.len(),
                partials_view(partials@) == spans_partials(spans@.take(i as int), font, size, color),
            decreases spans@.len() - i,
        {
            let ghost before = partials@;
            proof {
                assert(spans@.take(i as int + 1).drop_last() =~= spans@.take(i as int));
                assert(decreases_to!(spans@ => spans@[i as int]));
            }
            match &spans[i] {
                Span::Text(text) => {
                    partials.push(TextPartial::new(text.clone(), font, size, color));
                },
                Span::Code(text) => {
                    partials.push(TextPartial::new(text.clone(), FontKind::Code, size, ColorRole::Text));
                },
                Span::Emphasis(inner) => {
                    let mut more = self.spans_to_text_partials(inner, FontKind::Italic, size, color);
                    partials.append(&mut more);
                },
                Span::Strong(inner) => {
                    let mut more = self.spans_to_text_partials(inner, FontKind::Bold, size, color);
                    partials.append(&mut more);
                },
                _ => {},
            }
            proof {
                assert(partials_view(partials@) =~= spans_partials(
                    spans@.take(i as int + 1),
                    font,
                    size,
                    color,
                ));
            }
            i = i + 1;
        }
        proof {
            assert(spans@.take(i as int) =~= spans@);
        }
        partials
    }

    pub fn build_bullet_partial(&self, index: usize, bullet: Option<&String>) -> (r: TextPartial)
        requires
            index < usize::MAX,
        ensures
            r@ == bullet_partial(
                self.theme@,
                index as nat,
                match bullet {
                    Some(b) => Some(b@),
                    None => None,
                },
            ),
    {
        let item_bullet = match bullet {
            Some(b) => b.clone(),
            None => decimal_string(index + 1).concat(". "),
        };
        TextPartial::new(
            item_bullet,
            FontKind::Text,
            self.theme.font_size_text as u32,
            ColorRole::Text,
        )
    }

    pub fn build_list_box(&self, items: &Vec<ListItem>, bullet: Option<&String>) -> (r: Vec<TextLine>)
        ensures
            lines_view(r@) == list_lines(
                self.theme@,
                items@,
                match bullet {
                    Some(b) => Some(b@),
                    None => None,
                },
            ),
    {
        let ghost b = match bullet {
            Some(b) => Some(b@),
            None => None,
        };
        let mut lines: Vec<TextLine> = Vec::new();
        let mut i: usize = 0;
        while i < items.len()
            invariant
                i <= items@.len(),
                lines_view(lines@) == list_lines(self.theme@, items@.take(i as int), b),
                b == match bullet {
                    Some(b) => Some(b@),
                    None => None::<Seq<char>>,
                },
            decreases items@.len() - i,
        {
            let ghost before = lines@;
            proof {
                assert(items@.take(i as int + 1).drop_last() =~= items@.take(i as int));
                assert(items@.take(i as int + 1).last() == items@[i as int]);
            }
            match &items[i] {
                ListItem::Simple(spans) => {
                    let mut partials: Vec<TextPartial> = Vec::new();
                    partials.push(self.build_bullet_partial(i, bullet));
                    let mut rest = self.spans_to_text_partials(
                        spans,
                        FontKind::Text,
                        self.theme.font_size_text as u32,
                        ColorRole::Text,
                    );
                    let ghost first = partials@;
                    let ghost rest_v = rest@;
                    partials.append(&mut rest);
                    proof {
                        assert(partials_view(partials@) =~= partials_view(first) + partials_view(
                            rest_v,
                        ));
                        assert(partials_view(first) =~= seq![
                            bullet_partial(self.theme@, i as nat, b),
                        ]);
                    }
                    let ghost pv = partials_view(partials@);
                    lines.push(TextLine::new(Align::Left, partials));
                    proof {
                        assert(lines_view(lines@) =~= lines_view(before).push(
                            LineView { align: Align::Left, partials: pv },
                        ));
                    }
                },
                _ => {},
            }
            proof {
                assert(lines_view(lines@) =~= list_lines(self.theme@, items@.take(i as int + 1), b));
            }
            i = i + 1;
        }
        proof {
            assert(items@.take(i as int) =~= items@);
        }
        lines
    }

    /// Moves the pending lines, if any, into a new text box at the end of `boxes`.
    fn flush_lines(
        &self,
        boxes: &mut Vec<DrawBox>,
        lines: Vec<TextLine>,
        background: Option<ColorRole>,
        style: TextBoxStyle,
    )
        ensures
            boxes_view(final(boxes)@) == flush(
                self.theme@,
                boxes_view(old(boxes)@),
                lines_view(lines@),
                background,
                style,
            ),
    {
        let ghost before = boxes@;
        if lines.len() > 0 {
            let ghost lv = lines_view(lines@);
            boxes.push(
                DrawBox::Text(TextBox::new(lines, self.theme.vertical_offset, background, style)),
            );
            proof {
                assert(boxes_view(boxes@) =~= boxes_view(before).push(
                    DrawBoxView::Text(
                        TextBoxView {
                            lines: lv,
                            offset: self.theme.vertical_offset,
                            background,
                            style,
                        },
                    ),
                ));
            }
        }
    }

    pub fn blocks_to_draw_boxes(
        &self,
        blocks: &Vec<Block>,
        background: Option<ColorRole>,
        style: TextBoxStyle,
    ) -> (r: Vec<DrawBox>)
        requires
            self.wf(),
        ensures
            boxes_view(r@) == compile(self.theme@, blocks@, background, style),
        decreases blocks@,
    {
        let ghost theme = self.theme@;
        let mut draw_boxes: Vec<DrawBox> = Vec::new();
        let mut text_lines: Vec<TextLine> = Vec::new();
        let mut i: usize = 0;
        while i < blocks.len()
            invariant
                self.wf(),
                theme == self.theme@,
                i <= blocks@.len(),
                (boxes_view(draw_boxes@), lines_view(text_lines@)) == compile_state(
                    theme,
                    blocks@.take(i as int),
                    background,
                    style,
                ),
            decreases blocks@.len() - i,
        {
            proof {
                assert(blocks@.take(i as int + 1).drop_last() =~= blocks@.take(i as int));
                assert(blocks@.take(i as int + 1).last() == blocks@[i as int]);
                assert(decreases_to!(blocks@ => blocks@[i as int]));
            }
            let ghost boxes0 = boxes_view(draw_boxes@);
            let ghost lines0 = lines_view(text_lines@);
            match &blocks[i] {
                Block::Header(spans, level) => {
                    if *level == 1 {
                        self.flush_lines(&mut draw_boxes, text_lines, background, style);
                        text_lines = Vec::new();
                        let partials = self.spans_to_text_partials(
                            spans,
                            FontKind::Text,
                            self.theme.font_size_header_title as u32,
                            ColorRole::Heading,
                        );
                        let mut title: Vec<TextLine> = Vec::new();
                        title.push(TextLine::new(self.theme.align, partials));
                        let ghost tv = lines_view(title@);
                        let ghost mid = draw_boxes@;
                        draw_boxes.push(
                            DrawBox::Text(
                                TextBox::new(
                                    title,
                                    self.theme.vertical_offset,
                                    background,
                                    TextBoxStyle::Title,
                                ),
                            ),
                        );
                        proof {
                            assert(tv =~= title_box(theme, spans@, background).lines);
                            assert(boxes_view(draw_boxes@) =~= boxes_view(mid).push(
                                DrawBoxView::Text(title_box(theme, spans@, background)),
                            ));
                            assert(lines_view(text_lines@) =~= Seq::<LineView>::empty());
                        }
                    } else {
                        let partials = self.spans_to_text_partials(
                            spans,
                            FontKind::Text,
                            self.theme.font_size_header_slides as u32,
                            ColorRole::Heading,
                        );
                        text_lines.push(TextLine::new(self.theme.align, partials));
                        proof {
                            assert(lines_view(text_lines@) =~= lines0.push(
                                heading_line(theme, spans@),
                            ));
                        }
                    }
                },
                Block::Paragraph(spans) => {
                    if spans.len() > 0 && matches!(spans[0], Span::Image(..)) {
                        self.flush_lines(&mut draw_boxes, text_lines, background, style);
                        text_lines = Vec::new();
                        let ghost mid = draw_boxes@;
                        if let Span::Image(_alt, path, _title) = &spans[0] {
                            draw_boxes.push(
                                DrawBox::Image(ImageBox { path: path.clone(), offset: 0 }),
                            );
                            proof {
                                assert(boxes_view(draw_boxes@) =~= boxes_view(mid).push(
                                    DrawBoxView::Image { path: path@, offset: 0 },
                                ));
                            }
                        }
                        proof {
                            assert(lines_view(text_lines@) =~= Seq::<LineView>::empty());
                        }
                    } else {
                        let partials = self.spans_to_text_partials(
                            spans,
                            FontKind::Text,
                            self.theme.font_size_text as u32,
                            ColorRole::Text,
                        );
                        text_lines.push(TextLine::new(self.theme.align, partials));
                        proof {
                            assert(lines_view(text_lines@) =~= lines0.push(
                                paragraph_line(theme, spans@),
                            ));
                        }
                    }
                },
                Block::UnorderedList(items) => {
                    let mut more = self.build_list_box(items, Some(&self.theme.bullet));
                    let ghost mv = lines_view(more@);
                    text_lines.append(&mut more);
                    proof {
                        assert(lines_view(text_lines@) =~= lines0 + mv);
                    }
                },
                Block::OrderedList(items, _kind) => {
                    let mut more = self.build_list_box(items, None);
                    let ghost mv = lines_view(more@);
                    text_lines.append(&mut more);
                    proof {
                        assert(lines_view(text_lines@) =~= lines0 + mv);
                    }
                },
                Block::Blockquote(inner) => {
                    self.flush_lines(&mut draw_boxes, text_lines, background, style);
                    text_lines = Vec::new();
                    let mut quoted = self.blocks_to_draw_boxes(
                        inner,
                        Some(ColorRole::BlockquoteBackground),
                        TextBoxStyle::Blockquote {
                            size: self.theme.font_size_header_title as u32 * 2,
                            font: FontKind::Text,
                            color: ColorRole::Text,
                        },
                    );
                    let ghost mid = draw_boxes@;
                    let ghost qv = quoted@;
                    draw_boxes.append(&mut quoted);
                    proof {
                        assert(boxes_view(draw_boxes@) =~= boxes_view(mid) + boxes_view(qv));
                        assert(lines_view(text_lines@) =~= Seq::<LineView>::empty());
                    }
                },
                Block::CodeBlock(language, code) => {
                    self.flush_lines(&mut draw_boxes, text_lines, background, style);
                    text_lines = Vec::new();
                    let code_text = self.code_box_builder.build_draw_box(language, code.as_str());
                    let ghost mid = draw_boxes@;
                    draw_boxes.push(DrawBox::Text(code_text));
                    proof {
                        assert(boxes_view(draw_boxes@) =~= boxes_view(mid).push(
                            DrawBoxView::Text(code_box(theme, code@)),
                        ));
                        assert(lines_view(text_lines@) =~= Seq::<LineView>::empty());
                    }
                },
                _ => {},
            }
            i = i + 1;
        }
        proof {
            assert(blocks@.take(i as int) =~= blocks@);
        }
        self.flush_lines(&mut draw_boxes, text_lines, background, style);
        draw_boxes
    }

    pub fn find_first_code_block(&self, blocks: &Vec<Block>) -> (r: Option<ExecutableCode>)
        ensures
            match r {
                Some(c) => first_code(blocks@) == Some((c.language@, c.code@)),
                None => first_code(blocks@) is None,
            },
    {
        let mut i: usize = 0;
        while i < blocks.len()
            invariant
                i <= blocks@.len(),
                first_code(blocks@.take(i as int)) is None,
            decreases blocks@.len() - i,
        {
            proof {
                assert(blocks@.take(i as int + 1).drop_last() =~= blocks@.take(i as int));
                assert(blocks@.take(i as int + 1).last() == blocks@[i as int]);
            }
            if let Block::CodeBlock(Some(language), code) = &blocks[i] {
                if let Some(cb) = ExecutableCode::from(language.as_str(), code.as_str()) {
                    proof {
                        lemma_first_code_prefix(blocks@, i as int + 1);
                    }
                    return Some(cb);
                }
            }
            i = i + 1;
        }
        proof {
            assert(blocks@.take(i as int) =~= blocks@);
        }
        None
    }

    pub fn split_tokens_into_slides(&self, tokens: Vec<Block>) -> (r: Vec<Vec<Block>>)
        ensures
            groups_view(r@) == segments(tokens@),
    {
        let ghost all = tokens@;
        let mut rest = tokens;
        let mut slides: Vec<Vec<Block>> = Vec::new();
        let mut blocks: Vec<Block> = Vec::new();
        let n = rest.len();
        let mut k: usize = 0;
        while rest.len() > 0
            invariant
                n == all.len(),
                k <= all.len(),
                rest@ == all.skip(k as int),
                (groups_view(slides@), blocks@) == segment_state(all.take(k as int)),
            decreases rest@.len(),
        {
            proof {
                assert(all.take(k as int + 1).drop_last() =~= all.take(k as int));
                assert(all.take(k as int + 1).last() == all[k as int]);
            }
            let block = rest.remove(0);
            let ghost gv = groups_view(slides@);
            match block {
                Block::Hr => {
                    let ghost closed = blocks@;
                    slides.push(blocks);
                    blocks = Vec::new();
                    proof {
                        assert(groups_view(slides@) =~= gv.push(closed));
                    }
                },
                other => {
                    blocks.push(other);
                },
            }
            k = k + 1;
            proof {
                assert(rest@ =~= all.skip(k as int));
            }
        }
        proof {
            assert(all.take(k as int) =~= all);
        }
        if blocks.len() > 0 {
            let ghost gv = groups_view(slides@);
            let ghost last = blocks@;
            slides.push(blocks);
            proof {
                assert(groups_view(slides@) =~= gv.push(last));
            }
        }
        slides
    }

    pub fn build_slide(&self, blocks: &Vec<Block>) -> (r: Slide)
        requires
            self.wf(),
        ensures
            r@ == slide_of(self.theme@, blocks@),
    {
        Slide {
            draw_boxes: self.blocks_to_draw_boxes(blocks, None, TextBoxStyle::Standard),
            code_block: self.find_first_code_block(blocks),
        }
    }

    pub fn build_slides(&self, slide_blocks: Vec<Vec<Block>>) -> (r: Vec<Slide>)
        requires
            self.wf(),
        ensures
            slides_view(r@) == groups_view(slide_blocks@).map_values(
                |g: Seq<Block>| slide_of(self.theme@, g),
            ),
    {
        let mut slides: Vec<Slide> = Vec::new();
        let mut i: usize = 0;
        while i < slide_blocks.len()
            invariant
                self.wf(),
                i <= slide_blocks@.len(),
                slides_view(slides@) == groups_view(slide_blocks@).take(i as int).map_values(
                    |g: Seq<Block>| slide_of(self.theme@, g),
                ),
            decreases slide_blocks@.len() - i,
        {
            let slide = self.build_slide(&slide_blocks[i]);
            let ghost before = slides@;
            slides.push(slide);
            proof {
                let gv = groups_view(slide_blocks@);
                assert(gv[i as int] == slide_blocks@[i as int]@);
                assert(gv.take(i as int + 1) =~= gv.take(i as int).push(gv[i as int]));
                assert(slides_view(slides@) =~= slides_view(before).push(slide@));
                assert(slides_view(slides@) =~= gv.take(i as int + 1).map_values(
                    |g: Seq<Block>| slide_of(self.theme@, g),
                ));
            }
            i = i + 1;
        }
        proof {
            assert(groups_view(slide_blocks@).take(i as int) =~= groups_view(slide_blocks@));
        }
        slides
    }

    /// The slides of a tokenized document.
    pub fn parse(&self, tokens: Vec<Block>) -> (r: Vec<Slide>)
        requires
            self.wf(),
        ensures
            slides_view(r@) == segments(tokens@).map_values(
                |g: Seq<Block>| slide_of(self.theme@, g),
            ),
    {
        let slide_blocks = self.split_tokens_into_slides(tokens);
        self.build_slides(slide_blocks)
    }
}

} // verus!
