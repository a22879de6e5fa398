use crate::boxes::{boxes_view, DrawBox, DrawBoxView, TextBox, Theme, ThemeView};
use crate::code::{code_box, CodeBoxBuilder, ExecutableCode};
use vstd::prelude::*;

verus! {

/// One slide: its display list and the first runnable code block of its
/// source, if any.
#[derive(Debug, Clone)]
pub struct Slide {
    pub draw_boxes: Vec<DrawBox>,
    pub code_block: Option<ExecutableCode>,
}

pub struct SlideView {
    pub boxes: Seq<DrawBoxView>,
    /// Language and code of the runnable block.
    pub code: Option<(Seq<char>, Seq<char>)>,
}

impl View for Slide {
    type V = SlideView;

    open spec fn view(&self) -> SlideView {
        SlideView {
            boxes: boxes_view(self.draw_boxes@),
            code: match self.code_block {
                Some(c) => Some((c.language@, c.code@)),
                None => None,
            },
        }
    }
}

pub open spec fn slides_view(s: Seq<Slide>) -> Seq<SlideView> {
    s.map_values(|x: Slide| x@)
}

impl Slide {
    pub fn add_text_box(&mut self, draw_box: TextBox)
        ensures
            final(self)@ == (SlideView {
                boxes: old(self)@.boxes.push(DrawBoxView::Text(draw_box@)),
                code: old(self)@.code,
            }),
    {
        let ghost before = self.draw_boxes@;
        self.draw_boxes.push(DrawBox::Text(draw_box));
        proof {
            assert(boxes_view(self.draw_boxes@) =~= boxes_view(before).push(
                DrawBoxView::Text(draw_box@),
            ));
        }
    }
}

/// The state of a running presentation.
pub struct Slides {
    slides: Vec<Slide>,
    theme: Theme,
    automatic: i64,
    active_slide: usize,
    time: u64,
}

pub struct SlidesView {
    pub slides: Seq<SlideView>,
    pub theme: ThemeView,
    /// Time in milliseconds after which the next slide is shown; 0 or less
    /// means that slides change only on request.
    pub automatic: i64,
    /// Index of the slide on screen.
    pub active: int,
    /// Milliseconds since the active slide came on screen.
    pub time: u64,
}

impl View for Slides {
    type V = SlidesView;

    closed spec fn view(&self) -> SlidesView {
        SlidesView {
            slides: slides_view(self.slides@),
            theme: self.theme@,
            automatic: self.automatic,
            active: self.active_slide as int,
            time: self.time,
        }
    }
}

/// The deck after a move to another slide.
pub open spec fn moved_to(d: SlidesView, active: int) -> SlidesView {
    SlidesView { active, time: 0, ..d }
}

/// The deck after the output of the active slide's code was appended to it.
pub open spec fn with_output(d: SlidesView, output: Seq<char>) -> SlidesView {
    if d.slides[d.active].code is Some {
        SlidesView {
            slides: d.slides.update(
                d.active,
                SlideView {
                    boxes: d.slides[d.active].boxes.push(
                        DrawBoxView::Text(code_box(d.theme, output)),
                    ),
                    code: d.slides[d.active].code,
                },
            ),
            ..d
        }
    } else {
        d
    }
}

/// Each run of a slide's code adds exactly one box to that slide and keeps
/// its code, so that a second run adds another.
pub proof fn lemma_output_adds_one_box(d: SlidesView, output: Seq<char>)
    requires
        0 <= d.active < d.slides.len(),
        d.slides[d.active].code is Some,
    ensures
        with_output(d, output).active == d.active,
        with_output(d, output).slides.len() == d.slides.len(),
        with_output(d, output).slides[d.active].boxes.len() == d.slides[d.active].boxes.len() + 1,
        with_output(d, output).slides[d.active].code == d.slides[d.active].code,
        forall|j: int|
            0 <= j < d.slides.len() && j != d.active ==> #[trigger] with_output(d, output).slides[j]
                == d.slides[j],
{
}

impl Slides {
    /// The active slide is one of the slides.
    pub open spec fn wf(&self) -> bool {
        0 <= self@.active < self@.slides.len()
    }

    pub fn from_slides(slides: Vec<Slide>, theme: Theme, automatic: i64) -> (r: Slides)
        requires
            slides@.len() > 0,
        ensures
            r.wf(),
            r@ == (SlidesView {
                slides: slides_view(slides@),
                theme: theme@,
                automatic,
                active: 0,
                time: 0,
            }),
    {
        Slides { slides, theme, automatic, active_slide: 0, time: 0 }
    }

    /// Index of the slide on screen.
    pub fn active_slide(&self) -> (r: usize)
        ensures
            r == self@.active,
    {
        self.active_slide
    }

    /// Number of slides.
    pub fn len(&self) -> (r: usize)
        ensures
            r == self@.slides.len(),
    {
        self.slides.len()
    }

    /// The slide on screen.
    pub fn active(&self) -> (r: &Slide)
        requires
            self.wf(),
        ensures
            r@ == self@.slides[self@.active],
    {
        &self.slides[self.active_slide]
    }

    pub fn theme(&self) -> (r: &Theme)
        ensures
            r@ == self@.theme,
    {
        &self.theme
    }

    /// Milliseconds since the active slide came on screen.
    pub fn time(&self) -> (r: u64)
        ensures
            r == self@.time,
    {
        self.time
    }

    /// Shows the next slide; on the last slide nothing changes.
    pub fn next(&mut self)
        requires
            old(self).wf(),
        ensures
            final(self).wf(),
            final(self)@ == if old(self)@.active + 1 < old(self)@.slides.len() {
                moved_to(old(self)@, old(self)@.active + 1)
            } else {
                old(self)@
            },
    {
        if self.active_slide < self.slides.len() - 1 {
            self.time = 0;
            self.active_slide = self.active_slide + 1;
        }
    }

    /// Shows the previous slide; on the first slide nothing changes.
    pub fn prev(&mut self)
        requires
            old(self).wf(),
        ensures
            final(self).wf(),
            final(self)@ == if old(self)@.active > 0 {
                moved_to(old(self)@, old(self)@.active - 1)
            } else {
                old(self)@
            },
    {
        if self.active_slide > 0 {
            self.time = 0;
            self.active_slide = self.active_slide - 1;
        }
    }

    /// Advances the clock by one frame of `delta` milliseconds: once the
    /// active slide has been shown longer than the automatic duration (when
    /// that is positive), the next slide comes instead. Drawing the active
    /// slide is left to the host.
    pub fn draw(&mut self, delta: u64)
        requires
            old(self).wf(),
        ensures
            final(self).wf(),
            final(self)@ == if old(self)@.automatic > 0 && old(self)@.time > old(self)@.automatic {
                if old(self)@.active + 1 < old(self)@.slides.len() {
                    moved_to(old(self)@, old(self)@.active + 1)
                } else {
                    old(self)@
                }
            } else {
                SlidesView {
                    time: if old(self)@.time + delta <= u64::MAX {
                        (old(self)@.time + delta) as u64
                    } else {
                        u64::MAX
                    },
                    ..old(self)@
                }
            },
    {
        if self.automatic > 0 && self.time > self.automatic as u64 {
            self.next();
        } else {
            self.time = self.time.saturating_add(delta);
        }
    }

    /// The runnable code of the active slide, if it has one.
    pub fn active_code(&self) -> (r: Option<&ExecutableCode>)
        requires
            self.wf(),
        ensures
            match r {
                Some(c) => self@.slides[self@.active].code == Some((c.language@, c.code@)),
                None => self@.slides[self@.active].code is None,
            },
    {
        match &self.slides[self.active_slide].code_block {
            Some(c) => Some(c),
            None => None,
        }
    }

    /// Appends `output`, what running the active slide's code printed, to
    /// that slide as a code box; a slide without runnable code stays as it
    /// is. Each call appends one more box.
    pub fn run_code_block(&mut self, output: &str)
        requires
            old(self).wf(),
        ensures
            final(self).wf(),
            final(self)@ == with_output(old(self)@, output@),
    {
        let i = self.active_slide;
        if self.slides[i].code_block.is_some() {
            let code_box_builder = CodeBoxBuilder::new(self.theme.duplicate());
            let code_text = code_box_builder.build_draw_box(&None, output);
            let ghost before = self.slides@;
            let mut slide = self.slides.remove(i);
            slide.add_text_box(code_text);
            self.slides.insert(i, slide);
            proof {
                assert(self.slides@ =~= before.update(i as int, slide));
                assert(slides_view(self.slides@) =~= slides_view(before).update(i as int, slide@));
            }
        }
    }
}

} // verus!
