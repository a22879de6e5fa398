use crate::boxes::{
    lines_view, partials_view, Align, ColorRole, FontKind, LineView, PartialView, TextBox, TextBoxStyle,
    TextBoxView, TextLine, TextPartial, Theme, ThemeView,
};
use vstd::prelude::*;
use vstd::string::{StrSliceExecFns, StringExecFns};

verus! {

/// The languages whose code blocks can be run.
pub open spec fn is_supported_language(l: Seq<char>) -> bool {
    l == "bash"@ || l == "python"@ || l == "ruby"@ || l == "perl"@
}

/// A code block that can be handed to an interpreter.
#[derive(Debug, Clone)]
pub struct ExecutableCode {
    pub language: String,
    pub code: String,
}

fn same_text(a: &str, b: &str) -> (r: bool)
    ensures
        r == (a@ == b@),
{
    String::from_str(a) == String::from_str(b)
}

impl ExecutableCode {
    /// The code block, if its language is one that can be run.
    pub fn from(language: &str, code: &str) -> (r: Option<ExecutableCode>)
        ensures
            r is Some <==> is_supported_language(language@),
            r matches Some(c) ==> c.language@ == language@ && c.code@ == code@,
    {
        if same_text(language, "bash") || same_text(language, "python") || same_text(
            language,
            "ruby",
        ) || same_text(language, "perl") {
            Some(ExecutableCode { language: String::from_str(language), code: String::from_str(code) })
        } else {
            None
        }
    }
}

/// The text split at each newline; a final newline leaves an empty last line.
pub open spec fn split_lines(s: Seq<char>) -> Seq<Seq<char>>
    decreases s.len(),
{
    if s.len() == 0 {
        seq![Seq::<char>::empty()]
    } else {
        let p = split_lines(s.drop_last());
        if s.last() == '\n' {
            p.push(Seq::<char>::empty())
        } else {
            p.update(p.len() - 1, p.last().push(s.last()))
        }
    }
}

pub proof fn lemma_split_lines_nonempty(s: Seq<char>)
    ensures
        split_lines(s).len() >= 1,
    decreases s.len(),
{
    if s.len() > 0 {
        lemma_split_lines_nonempty(s.drop_last());
    }
}

/// One line of a code box.
pub open spec fn code_line(theme: ThemeView, l: Seq<char>) -> LineView {
    LineView {
        align: Align::Left,
        partials: seq![
            PartialView {
                text: l,
                font: FontKind::Code,
                size: theme.font_size_text as u32,
                color: ColorRole::Text,
            },
        ],
    }
}

/// The box that shows a piece of code or the output of running it.
pub open spec fn code_box(theme: ThemeView, text: Seq<char>) -> TextBoxView {
    TextBoxView {
        lines: split_lines(text).map_values(|l: Seq<char>| code_line(theme, l)),
        offset: theme.vertical_offset,
        background: Some(ColorRole::CodeBackground),
        style: TextBoxStyle::Standard,
    }
}

pub open spec fn strings_view(v: Seq<String>) -> Seq<Seq<char>> {
    v.map_values(|s: String| s@)
}

fn split_text(text: &str) -> (r: Vec<String>)
    ensures
        strings_view(r@) == split_lines(text@),
{
    let n = text.unicode_len();
    let mut pieces: Vec<String> = Vec::new();
    let mut start: usize = 0;
    let mut i: usize = 0;
    proof {
        assert(text@.take(0) =~= Seq::<char>::empty());
        assert(strings_view(pieces@).push(text@.subrange(0, 0)) =~= seq![Seq::<char>::empty()]);
    }
    while i < n
        invariant
            n == text@.len(),
            start <= i <= n,
            strings_view(pieces@).push(text@.subrange(start as int, i as int)) == split_lines(
                text@.take(i as int),
            ),
        decreases n - i,
    {
        let c = text.get_char(i);
        proof {
            let t = text@.take(i as int + 1);
            assert(t.drop_last() == text@.take(i as int));
            assert(t.last() == c);
            lemma_split_lines_nonempty(text@.take(i as int));
        }
        if c == '\n' {
            let piece = text.substring_char(start, i).to_owned();
            let ghost before = pieces@;
            pieces.push(piece);
            start = i + 1;
            proof {
                assert(strings_view(pieces@) == strings_view(before).push(piece@));
                assert(text@.subrange(start as int, i as int + 1) == Seq::<char>::empty());
            }
        } else {
            proof {
                assert(text@.subrange(start as int, i as int + 1) == text@.subrange(
                    start as int,
                    i as int,
                ).push(c));
            }
        }
        i = i + 1;
    }
    let last = text.substring_char(start, n).to_owned();
    pieces.push(last);
    proof {
        assert(text@.take(n as int) == text@);
    }
    pieces
}

/// Builds the boxes that show code text.
#[derive(Debug, Clone)]
pub struct CodeBoxBuilder {
    pub theme: Theme,
}

impl CodeBoxBuilder {
    pub fn new(theme: Theme) -> (r: CodeBoxBuilder)
        ensures
            r.theme@ == theme@,
    {
        CodeBoxBuilder { theme }
    }

    /// A box with one line in the code font for each line of `text`; the
    /// language tag does not change the layout.
    pub fn build_draw_box(&self, _language: &Option<String>, text: &str) -> (r: TextBox)
        ensures
            r@ == code_box(self.theme@, text@),
    {
        let pieces = split_text(text);
        let mut lines: Vec<TextLine> = Vec::new();
        let mut i: usize = 0;
        while i < pieces.len()
            invariant
                i <= pieces@.len(),
                strings_view(pieces@) == split_lines(text@),
                lines_view(lines@) == strings_view(pieces@).take(i as int).map_values(
                    |l: Seq<char>| code_line(self.theme@, l),
                ),
            decreases pieces@.len() - i,
        {
            let partial = TextPartial::new(
                pieces[i].clone(),
                FontKind::Code,
                self.theme.font_size_text as u32,
                ColorRole::Text,
            );
            let mut one: Vec<TextPartial> = Vec::new();
            one.push(partial);
            let line = TextLine::new(Align::Left, one);
            let ghost before = lines@;
            lines.push(line);
            proof {
                let sv = strings_view(pieces@);
                assert(sv[i as int] == pieces@[i as int]@);
                assert(partials_view(one@) =~= seq![partial@]);
                assert(line@.partials =~= code_line(self.theme@, sv[i as int]).partials);
                assert(line@ == code_line(self.theme@, sv[i as int]));
                assert(lines_view(lines@) =~= lines_view(before).push(line@));
                assert(sv.take(i as int + 1) =~= sv.take(i as int).push(sv[i as int]));
                assert(lines_view(lines@) =~= sv.take(i as int + 1).map_values(
                    |l: Seq<char>| code_line(self.theme@, l),
                ));
            }
            i = i + 1;
        }
        proof {
            assert(strings_view(pieces@).take(i as int) == strings_view(pieces@));
        }
        TextBox::new(
            lines,
            self.theme.vertical_offset,
            Some(ColorRole::CodeBackground),
            TextBoxStyle::Standard,
        )
    }
}

} // verus!
