use slider::{
    Align, Block, ColorRole, DrawBox, ExecutableCode, FontKind, ListItem, MarkdownToSlides,
    Slide, Slides, Span, TextBox, TextBoxStyle, Theme,
};

fn theme() -> Theme {
    Theme {
        align: Align::Center,
        font_size_text: 20,
        font_size_header_slides: 30,
        font_size_header_title: 40,
        vertical_offset: 10,
        bullet: "* ".to_string(),
    }
}

fn text(s: &str) -> Span {
    Span::Text(s.to_string())
}

fn para(s: &str) -> Block {
    Block::Paragraph(vec![text(s)])
}

fn compiler() -> MarkdownToSlides {
    MarkdownToSlides::new(theme())
}

fn text_box(b: &DrawBox) -> &TextBox {
    match b {
        DrawBox::Text(t) => t,
        DrawBox::Image(_) => panic!("expected a text box"),
    }
}

fn line_texts(t: &TextBox) -> Vec<String> {
    t.lines
        .iter()
        .map(|l| l.partials.iter().map(|p| p.text.clone()).collect::<String>())
        .collect()
}

fn deck(n: usize, automatic: i64) -> Slides {
    let slides: Vec<Slide> = (0..n)
        .map(|i| compiler().build_slide(&vec![para(&format!("slide {}", i))]))
        .collect();
    Slides::from_slides(slides, theme(), automatic)
}

#[test]
fn sanitize_leaves_plain_text() {
    let t = "# Title\n\nSome text: here\n---\nmore\n".to_string();
    assert_eq!(Slides::sanitize_markdown(t.clone()), t);
}

#[test]
fn sanitize_removes_leading_header() {
    let t = "---\ntitle: Talk\nauthor: Me\n---\n# Title\n".to_string();
    assert_eq!(Slides::sanitize_markdown(t), "# Title\n");
}

#[test]
fn header_with_crlf_lines_is_removed() {
    let t = "---\r\ntitle: Talk\r\n---\r\nbody".to_string();
    assert_eq!(Slides::strip_yaml_header(t), "body");
}

#[test]
fn header_not_at_start_is_kept() {
    let t = "Intro\n---\ntitle: Talk\n---\nbody\n".to_string();
    assert_eq!(Slides::strip_yaml_header(t.clone()), t);
}

#[test]
fn header_without_entries_is_kept() {
    let t = "---\n---\nbody\n".to_string();
    assert_eq!(Slides::strip_yaml_header(t.clone()), t);
}

#[test]
fn comments_are_removed_across_lines() {
    let t = "a<!-- one\ntwo -->b<!-- three -- >c".to_string();
    assert_eq!(Slides::strip_comments(t), "abc");
}

#[test]
fn comments_then_header() {
    let t = "<!-- note -->---\nk: v\n---\nrest".to_string();
    assert_eq!(Slides::sanitize_markdown(t), "rest");
}

#[test]
fn rules_split_into_groups() {
    let blocks = vec![para("a"), Block::Hr, para("b"), Block::Hr, para("c")];
    let groups = compiler().split_tokens_into_slides(blocks);
    assert_eq!(groups.len(), 3);
    assert!(groups.iter().all(|g| g.len() == 1));
    assert!(groups.iter().flatten().all(|b| !matches!(b, Block::Hr)));
}

#[test]
fn trailing_rule_adds_no_group() {
    let blocks = vec![para("a"), Block::Hr];
    assert_eq!(compiler().split_tokens_into_slides(blocks).len(), 1);
}

#[test]
fn leading_rule_gives_empty_slide() {
    let c = compiler();
    let slides = c.parse(vec![Block::Hr, para("a")]);
    assert_eq!(slides.len(), 2);
    assert!(slides[0].draw_boxes.is_empty());
    assert!(slides[0].code_block.is_none());
    assert_eq!(slides[1].draw_boxes.len(), 1);
}

#[test]
fn paragraphs_share_one_box() {
    let boxes = compiler().blocks_to_draw_boxes(
        &vec![para("one"), para("two"), para("three")],
        None,
        TextBoxStyle::Standard,
    );
    assert_eq!(boxes.len(), 1);
    let t = text_box(&boxes[0]);
    assert_eq!(line_texts(t), vec!["one", "two", "three"]);
    assert_eq!(t.style, TextBoxStyle::Standard);
    assert_eq!(t.offset, 10);
}

#[test]
fn title_is_its_own_box() {
    let boxes = compiler().blocks_to_draw_boxes(
        &vec![para("before"), Block::Header(vec![text("Title")], 1)],
        None,
        TextBoxStyle::Standard,
    );
    assert_eq!(boxes.len(), 2);
    assert_eq!(line_texts(text_box(&boxes[0])), vec!["before"]);
    let title = text_box(&boxes[1]);
    assert_eq!(title.style, TextBoxStyle::Title);
    assert_eq!(line_texts(title), vec!["Title"]);
    assert_eq!(title.lines[0].partials[0].size, 40);
    assert_eq!(title.lines[0].partials[0].color, ColorRole::Heading);
}

#[test]
fn lower_heading_joins_pending_lines() {
    let boxes = compiler().blocks_to_draw_boxes(
        &vec![para("a"), Block::Header(vec![text("Sub")], 2), para("b")],
        None,
        TextBoxStyle::Standard,
    );
    assert_eq!(boxes.len(), 1);
    let t = text_box(&boxes[0]);
    assert_eq!(line_texts(t), vec!["a", "Sub", "b"]);
    assert_eq!(t.lines[1].partials[0].size, 30);
}

#[test]
fn image_paragraph_gives_one_image_box() {
    let spans = vec![
        Span::Image("alt".to_string(), "pic.png".to_string(), None),
        text("dropped"),
    ];
    let boxes = compiler().blocks_to_draw_boxes(
        &vec![para("a"), Block::Paragraph(spans)],
        None,
        TextBoxStyle::Standard,
    );
    assert_eq!(boxes.len(), 2);
    assert_eq!(line_texts(text_box(&boxes[0])), vec!["a"]);
    match &boxes[1] {
        DrawBox::Image(i) => {
            assert_eq!(i.path, "pic.png");
            assert_eq!(i.offset, 0);
        }
        DrawBox::Text(_) => panic!("expected an image box"),
    }
}

#[test]
fn lists_get_bullets_and_numbers() {
    let items = vec![
        ListItem::Simple(vec![text("x")]),
        ListItem::Simple(vec![text("y")]),
    ];
    let numbered = vec![
        ListItem::Simple(vec![text("x")]),
        ListItem::Paragraph(vec![]),
        ListItem::Simple(vec![text("z")]),
    ];
    let boxes = compiler().blocks_to_draw_boxes(
        &vec![
            Block::UnorderedList(items),
            Block::OrderedList(numbered, "1".to_string()),
        ],
        None,
        TextBoxStyle::Standard,
    );
    assert_eq!(boxes.len(), 1);
    let t = text_box(&boxes[0]);
    assert_eq!(line_texts(t), vec!["* x", "* y", "1. x", "3. z"]);
    assert!(t.lines.iter().all(|l| l.align == Align::Left));
}

#[test]
fn numbers_past_nine() {
    let items: Vec<ListItem> = (0..12).map(|_| ListItem::Simple(vec![text("i")])).collect();
    let lines = compiler().build_list_box(&items, None);
    assert_eq!(lines[11].partials[0].text, "12. ");
}

#[test]
fn emphasis_strong_and_code_fonts() {
    let spans = vec![
        Span::Emphasis(vec![text("it")]),
        Span::Strong(vec![text("bo"), Span::Code("c".to_string())]),
        Span::Link("l".to_string(), "u".to_string(), None),
        Span::Break,
    ];
    let p = compiler().spans_to_text_partials(&spans, FontKind::Text, 20, ColorRole::Heading);
    assert_eq!(p.len(), 3);
    assert_eq!(p[0].font, FontKind::Italic);
    assert_eq!(p[0].color, ColorRole::Heading);
    assert_eq!(p[1].font, FontKind::Bold);
    assert_eq!(p[2].font, FontKind::Code);
    assert_eq!(p[2].color, ColorRole::Text);
}

#[test]
fn blockquote_boxes_are_styled() {
    let boxes = compiler().blocks_to_draw_boxes(
        &vec![para("a"), Block::Blockquote(vec![para("q")]), para("b")],
        None,
        TextBoxStyle::Standard,
    );
    assert_eq!(boxes.len(), 3);
    let q = text_box(&boxes[1]);
    assert_eq!(q.background, Some(ColorRole::BlockquoteBackground));
    assert_eq!(
        q.style,
        TextBoxStyle::Blockquote { size: 80, font: FontKind::Text, color: ColorRole::Text }
    );
    assert_eq!(line_texts(text_box(&boxes[2])), vec!["b"]);
}

#[test]
fn code_block_box_and_first_code() {
    let blocks = vec![
        Block::CodeBlock(Some("cobol".to_string()), "x".to_string()),
        Block::CodeBlock(Some("bash".to_string()), "echo a\necho b".to_string()),
        Block::CodeBlock(Some("python".to_string()), "print(1)".to_string()),
    ];
    let slide = compiler().build_slide(&blocks);
    assert_eq!(slide.draw_boxes.len(), 3);
    let code = text_box(&slide.draw_boxes[1]);
    assert_eq!(line_texts(code), vec!["echo a", "echo b"]);
    assert_eq!(code.background, Some(ColorRole::CodeBackground));
    assert_eq!(code.lines[0].partials[0].font, FontKind::Code);
    let c = slide.code_block.expect("a runnable block");
    assert_eq!(c.language, "bash");
    assert_eq!(c.code, "echo a\necho b");
}

#[test]
fn executable_code_languages() {
    assert!(ExecutableCode::from("unsupported-lang", "x").is_none());
    let c = ExecutableCode::from("python", "print(1)").expect("python runs");
    assert_eq!(c.code, "print(1)");
}

#[test]
fn next_and_prev_are_clamped() {
    let mut d = deck(2, 0);
    d.prev();
    assert_eq!(d.active_slide(), 0);
    d.draw(5);
    assert_eq!(d.time(), 5);
    d.next();
    assert_eq!(d.active_slide(), 1);
    assert_eq!(d.time(), 0);
    d.draw(7);
    d.next();
    assert_eq!(d.active_slide(), 1);
    assert_eq!(d.time(), 7);
    d.prev();
    assert_eq!(d.active_slide(), 0);
    assert_eq!(d.time(), 0);
}

#[test]
fn auto_advance_after_duration() {
    let mut d = deck(3, 100);
    d.draw(60);
    d.draw(60);
    assert_eq!(d.active_slide(), 0);
    assert_eq!(d.time(), 120);
    d.draw(60);
    assert_eq!(d.active_slide(), 1);
    assert_eq!(d.time(), 0);
}

#[test]
fn no_auto_advance_without_duration() {
    let mut d = deck(3, 0);
    for _ in 0..10 {
        d.draw(1000);
    }
    assert_eq!(d.active_slide(), 0);
    assert_eq!(d.time(), 10000);
    let mut n = deck(3, -5);
    n.draw(50);
    n.draw(50);
    assert_eq!(n.active_slide(), 0);
}

#[test]
fn running_code_appends_a_box_each_time() {
    let c = compiler();
    let slide = c.build_slide(&vec![Block::CodeBlock(Some("bash".to_string()), "echo hi".to_string())]);
    let mut d = Slides::from_slides(vec![slide], theme(), 0);
    assert_eq!(d.active().draw_boxes.len(), 1);
    d.run_code_block("hi\n");
    assert_eq!(d.active().draw_boxes.len(), 2);
    d.run_code_block("hi\n");
    assert_eq!(d.active().draw_boxes.len(), 3);
    assert_eq!(line_texts(text_box(&d.active().draw_boxes[2])), vec!["hi", ""]);
}

#[test]
fn running_without_code_changes_nothing() {
    let mut d = deck(1, 0);
    assert!(d.active_code().is_none());
    d.run_code_block("out");
    assert_eq!(d.active().draw_boxes.len(), 1);
}
