use crate::deck::Slides;
use vstd::prelude::*;
use vstd::string::StrSliceExecFns;

verus! {

/// `pat` occurs somewhere in `s`.
pub open spec fn contains(s: Seq<char>, pat: Seq<char>) -> bool {
    exists|i: int| 0 <= i && i + pat.len() <= s.len() && #[trigger] s.subrange(i, i + pat.len()) == pat
}

/// The text with every `<!-- ... -->` comment removed, as the regex crate
/// computes it.
pub uninterp spec fn without_comments(s: Seq<char>) -> Seq<char>;

/// Relies on `regex::Regex::replace_all` with the pattern
/// `(?sm)<!--.*?--\s*>` and an empty replacement: every match is removed, and
/// a text without a match (none can match without `<!--`) comes back
/// unchanged. The pattern is a valid constant, so `Regex::new` succeeds.
#[verifier::external_body]
fn remove_comments(text: &str) -> (r: String)
    ensures
        r@ == without_comments(text@),
        !contains(text@, "<!--"@) ==> r@ == text@,
{
    regex::Regex::new(r"(?sm)<!--.*?--\s*>").unwrap().replace_all(text, "").into_owned()
}

pub open spec fn is_word_char(c: char) -> bool {
    ('a' <= c && c <= 'z') || ('A' <= c && c <= 'Z') || ('0' <= c && c <= '9') || c == '_'
}

/// A line that holds only the header delimiter `---`.
pub open spec fn is_delimiter_line(l: Seq<char>) -> bool {
    (l.len() == 3 || (l.len() == 4 && l[3] == '\r')) && l[0] == '-' && l[1] == '-' && l[2] == '-'
}

/// A `key: value` line: a non-empty key of word characters, a colon, a
/// space and a non-empty value.
pub open spec fn is_entry_line(l: Seq<char>) -> bool {
    exists|k: int|
        1 <= k && k + 2 < l.len() && #[trigger] l[k] == ':' && l[k + 1] == ' ' && (forall|j: int|
            0 <= j < k ==> #[trigger] is_word_char(l[j]))
}

/// Index of the first newline at or after `i`, or the length of `s`.
pub open spec fn next_newline(s: Seq<char>, i: int) -> int
    decreases s.len() - i,
{
    if i < 0 || i >= s.len() {
        s.len() as int
    } else if s[i] == '\n' {
        i
    } else {
        next_newline(s, i + 1)
    }
}

pub proof fn lemma_next_newline_bounds(s: Seq<char>, i: int)
    requires
        0 <= i,
    ensures
        i <= next_newline(s, i) || i > s.len(),
        next_newline(s, i) <= s.len(),
    decreases s.len() - i,
{
    if i < s.len() && s[i] != '\n' {
        lemma_next_newline_bounds(s, i + 1);
    }
}

/// From the line that starts at `i`: entry lines, then a delimiter line;
/// the result is the index just after that delimiter line's newline.
pub open spec fn entries_end(s: Seq<char>, i: int) -> Option<int>
    decreases s.len() - i,
    via entries_end_decreases
{
    if i < 0 || i >= s.len() {
        None
    } else {
        let e = next_newline(s, i);
        if e >= s.len() {
            None
        } else if is_delimiter_line(s.subrange(i, e)) {
            Some(e + 1)
        } else if is_entry_line(s.subrange(i, e)) {
            entries_end(s, e + 1)
        } else {
            None
        }
    }
}

#[via_fn]
proof fn entries_end_decreases(s: Seq<char>, i: int) {
    if 0 <= i {
        lemma_next_newline_bounds(s, i);
    }
}

/// Length of the metadata header at the start of `s`, 0 where there is none:
/// a delimiter line, one or more entry lines and a delimiter line, each
/// ended by a newline.
pub open spec fn header_len(s: Seq<char>) -> int {
    let e = next_newline(s, 0);
    if e < s.len() && is_delimiter_line(s.subrange(0, e)) {
        let f = next_newline(s, e + 1);
        if f < s.len() && is_entry_line(s.subrange(e + 1, f)) {
            match entries_end(s, f + 1) {
                Some(n) => n,
                None => 0,
            }
        } else {
            0
        }
    } else {
        0
    }
}

/// The text without its leading metadata header.
pub open spec fn without_header(s: Seq<char>) -> Seq<char> {
    s.skip(header_len(s))
}

fn word_char(c: char) -> (r: bool)
    ensures
        r == is_word_char(c),
{
    ('a' <= c && c <= 'z') || ('A' <= c && c <= 'Z') || ('0' <= c && c <= '9') || c == '_'
}

fn find_newline(s: &str, n: usize, i: usize) -> (r: usize)
    requires
        n == s@.len(),
        i <= n,
    ensures
        r == next_newline(s@, i as int),
        i <= r <= n,
{
    let mut j = i;
    while j < n && s.get_char(j) != '\n'
        invariant
            n == s@.len(),
            i <= j <= n,
            next_newline(s@, i as int) == next_newline(s@, j as int),
        decreases n - j,
    {
        j = j + 1;
    }
    j
}

fn delimiter_line(s: &str, from: usize, to: usize) -> (r: bool)
    requires
        from <= to <= s@.len(),
    ensures
        r == is_delimiter_line(s@.subrange(from as int, to as int)),
{
    let len = to - from;
    if len == 3 || (len == 4 && s.get_char(from + 3) == '\r') {
        s.get_char(from) == '-' && s.get_char(from + 1) == '-' && s.get_char(from + 2) == '-'
    } else {
        false
    }
}

fn entry_line(s: &str, from: usize, to: usize) -> (r: bool)
    requires
        from <= to <= s@.len(),
    ensures
        r == is_entry_line(s@.subrange(from as int, to as int)),
{
    let ghost l = s@.subrange(from as int, to as int);
    let mut k = from;
    let mut scanning = true;
    while scanning && k < to
        invariant
            from <= k <= to <= s@.len(),
            l == s@.subrange(from as int, to as int),
            forall|j: int| 0 <= j < k - from ==> #[trigger] is_word_char(l[j]),
            !scanning ==> k < to && !is_word_char(l[k - from]),
        decreases to - k + (if scanning { 1int } else { 0int }),
    {
        if word_char(s.get_char(k)) {
            k = k + 1;
        } else {
            scanning = false;
        }
    }
    let r = k > from && to - k > 2 && s.get_char(k) == ':' && s.get_char(k + 1) == ' ';
    proof {
        if r {
            assert(l[k - from] == ':');
        } else if is_entry_line(l) {
            let w = choose|w: int|
                1 <= w && w + 2 < l.len() && #[trigger] l[w] == ':' && l[w + 1] == ' ' && (forall|j: int|
                    0 <= j < w ==> #[trigger] is_word_char(l[j]));
            assert(!is_word_char(l[w]));
            if w < k - from {
                assert(is_word_char(l[w]));
            } else if w > k - from {
                assert(is_word_char(l[k - from]));
            }
        }
    }
    r
}

fn header_length(s: &str, n: usize) -> (r: usize)
    requires
        n == s@.len(),
    ensures
        r == header_len(s@),
{
    let e = find_newline(s, n, 0);
    if e >= n || !delimiter_line(s, 0, e) {
        return 0;
    }
    let f = find_newline(s, n, e + 1);
    if f >= n || !entry_line(s, e + 1, f) {
        return 0;
    }
    let mut i = f + 1;
    while i < n
        invariant
            n == s@.len(),
            f + 1 <= i <= n,
            header_len(s@) == match entries_end(s@, i as int) {
                Some(m) => m,
                None => 0,
            },
        decreases n - i,
    {
        let g = find_newline(s, n, i);
        if g >= n {
            return 0;
        }
        if delimiter_line(s, i, g) {
            return g + 1;
        }
        if !entry_line(s, i, g) {
            return 0;
        }
        i = g + 1;
    }
    0
}

impl Slides {
    /// Removes the comments, then the leading metadata header.
    pub fn sanitize_markdown(text: String) -> (r: String)
        ensures
            r@ == without_header(without_comments(text@)),
            !contains(text@, "<!--"@) && header_len(text@) == 0 ==> r@ == text@,
    {
        let no_comments = Self::strip_comments(text);
        Self::strip_yaml_header(no_comments)
    }

    /// Removes every `<!-- ... -->` comment, across lines.
    pub fn strip_comments(text: String) -> (r: String)
        ensures
            r@ == without_comments(text@),
            !contains(text@, "<!--"@) ==> r@ == text@,
    {
        remove_comments(text.as_str())
    }

    /// Removes the metadata header if the text starts with one; elsewhere in
    /// the text such lines stay.
    pub fn strip_yaml_header(text: String) -> (r: String)
        ensures
            r@ == without_header(text@),
            header_len(text@) == 0 ==> r@ == text@,
    {
        let n = text.as_str().unicode_len();
        let len = header_length(text.as_str(), n);
        if len == 0 {
            proof {
                assert(text@.skip(0) =~= text@);
            }
            text
        } else {
            proof {
                lemma_header_len_bound(text@);
            }
            text.as_str().substring_char(len, n).to_owned()
        }
    }
}

pub proof fn lemma_entries_end_bound(s: Seq<char>, i: int)
    ensures
        entries_end(s, i) matches Some(m) ==> 0 <= i < m <= s.len(),
    decreases s.len() - i,
{
    if 0 <= i < s.len() {
        lemma_next_newline_bounds(s, i);
        if next_newline(s, i) < s.len() {
            lemma_entries_end_bound(s, next_newline(s, i) + 1);
        }
    }
}

pub proof fn lemma_header_len_bound(s: Seq<char>)
    ensures
        0 <= header_len(s) <= s.len(),
{
    let e = next_newline(s, 0);
    lemma_next_newline_bounds(s, 0);
    if e < s.len() {
        lemma_next_newline_bounds(s, e + 1);
        lemma_entries_end_bound(s, next_newline(s, e + 1) + 1);
    }
}

/// A delimiter line with its newline.
pub open spec fn delimiter() -> Seq<char> {
    seq!['-', '-', '-', '\n']
}

/// The lines, each followed by a newline.
pub open spec fn joined_lines(lines: Seq<Seq<char>>) -> Seq<char>
    decreases lines.len(),
{
    if lines.len() == 0 {
        Seq::empty()
    } else {
        lines[0] + seq!['\n'] + joined_lines(lines.skip(1))
    }
}

/// A metadata header made of the given entry lines.
pub open spec fn header_text(entries: Seq<Seq<char>>) -> Seq<char> {
    delimiter() + joined_lines(entries) + delimiter()
}

pub open spec fn is_entry(e: Seq<char>) -> bool {
    is_entry_line(e) && forall|j: int| 0 <= j < e.len() ==> #[trigger] e[j] != '\n'
}

proof fn lemma_line_end(s: Seq<char>, i: int, l: Seq<char>)
    requires
        0 <= i,
        i + l.len() < s.len(),
        s.subrange(i, i + l.len()) == l,
        forall|j: int| 0 <= j < l.len() ==> #[trigger] l[j] != '\n',
        s[i + l.len()] == '\n',
    ensures
        next_newline(s, i) == i + l.len(),
    decreases l.len(),
{
    if l.len() > 0 {
        assert(s[i] == s.subrange(i, i + l.len())[0]);
        let m = l.skip(1);
        assert(s.subrange(i + 1, i + 1 + m.len()) =~= m);
        lemma_line_end(s, i + 1, m);
    }
}

proof fn lemma_entry_not_delimiter(l: Seq<char>)
    requires
        is_entry_line(l),
    ensures
        !is_delimiter_line(l),
{
    let k = choose|k: int|
        1 <= k && k + 2 < l.len() && #[trigger] l[k] == ':' && l[k + 1] == ' ' && (forall|j: int|
            0 <= j < k ==> #[trigger] is_word_char(l[j]));
    assert(is_word_char(l[0]));
}

proof fn lemma_entries_end(s: Seq<char>, i: int, entries: Seq<Seq<char>>)
    requires
        0 <= i,
        forall|k: int| 0 <= k < entries.len() ==> is_entry(#[trigger] entries[k]),
        i + joined_lines(entries).len() + 4 <= s.len(),
        s.subrange(i, i + joined_lines(entries).len() + 4) == joined_lines(entries) + delimiter(),
    ensures
        entries_end(s, i) == Some(i + joined_lines(entries).len() + 4),
    decreases entries.len(),
{
    let t = s.subrange(i, i + joined_lines(entries).len() + 4);
    if entries.len() == 0 {
        assert(joined_lines(entries) =~= Seq::<char>::empty());
        let l = seq!['-', '-', '-'];
        assert(s.subrange(i, i + 3) =~= l);
        assert(s[i + 3] == t[3]);
        lemma_line_end(s, i, l);
    } else {
        let l = entries[0];
        let rest = entries.skip(1);
        assert(is_entry(l));
        let n = l.len() as int;
        assert(joined_lines(entries) == l + seq!['\n'] + joined_lines(rest));
        assert(t =~= l + seq!['\n'] + (joined_lines(rest) + delimiter()));
        assert(t.subrange(n + 1, t.len() as int) =~= joined_lines(rest) + delimiter());
        assert(s.subrange(i, i + n) =~= t.subrange(0, n));
        assert(s.subrange(i, i + n) =~= l);
        assert(s[i + n] == t[n]);
        lemma_line_end(s, i, l);
        lemma_entry_not_delimiter(l);
        assert forall|k: int| 0 <= k < rest.len() implies is_entry(#[trigger] rest[k]) by {
            assert(rest[k] == entries[k + 1]);
        }
        assert(s.subrange(i + n + 1, i + n + 1 + joined_lines(rest).len() + 4) =~= t.subrange(
            n + 1,
            t.len() as int,
        ));
        lemma_entries_end(s, i + n + 1, rest);
    }
}

/// A header at the very start of the text, made of a delimiter line, one or
/// more `key: value` lines and a delimiter line, is removed and nothing else.
pub proof fn lemma_header_removed(entries: Seq<Seq<char>>, rest: Seq<char>)
    requires
        entries.len() > 0,
        forall|k: int| 0 <= k < entries.len() ==> is_entry(#[trigger] entries[k]),
    ensures
        without_header(header_text(entries) + rest) == rest,
{
    let s = header_text(entries) + rest;
    let h = header_text(entries);
    let body = joined_lines(entries);
    let l = seq!['-', '-', '-'];
    assert(s.subrange(0, 3) =~= l);
    assert(s[3] == '\n');
    lemma_line_end(s, 0, l);
    let first = entries[0];
    let others = entries.skip(1);
    let n = first.len() as int;
    assert(is_entry(first));
    assert(body =~= first + seq!['\n'] + joined_lines(others));
    assert(s.subrange(4, 4 + n) =~= first);
    assert(s[4 + n] == '\n');
    lemma_line_end(s, 4, first);
    assert forall|k: int| 0 <= k < others.len() implies is_entry(#[trigger] others[k]) by {
        assert(others[k] == entries[k + 1]);
    }
    assert(s.subrange(5 + n, 5 + n + joined_lines(others).len() + 4) =~= joined_lines(others)
        + delimiter());
    lemma_entries_end(s, 5 + n, others);
    assert(header_len(s) == h.len());
    assert(s.skip(h.len() as int) =~= rest);
}

/// Text whose first line is not a delimiter line has no header to remove.
pub proof fn lemma_no_leading_header(s: Seq<char>)
    requires
        !is_delimiter_line(s.subrange(0, next_newline(s, 0))),
    ensures
        without_header(s) == s,
{
    assert(s.skip(0) =~= s);
}

} // verus!
