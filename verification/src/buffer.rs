//! A text buffer held in a rope, and the window of lines shown from it.
//!
//! Lines follow the rope's rules: a line ends after a line break, which is
//! part of the line it ends; CRLF counts as one break; the text after the
//! last break is the last line, even when empty.

use vstd::prelude::*;

verus! {

#[verifier::external_type_specification]
#[verifier::external_body]
pub struct ExRope(ropey::Rope);

#[verifier::external_type_specification]
#[verifier::external_body]
pub struct ExIoError(std::io::Error);

/// The characters a rope holds.
pub uninterp spec fn rope_text(r: ropey::Rope) -> Seq<char>;

/// `Rope::clone` (derived): a rope sharing the same tree, so holding the same
/// characters.
pub assume_specification[<ropey::Rope as std::clone::Clone>::clone](r: &ropey::Rope) -> (res: ropey::Rope)
    ensures
        rope_text(res) == rope_text(*r),
;

/// Whether `c` is a line break on its own (LF, VT, FF, CR, NEL, LS, PS).
pub open spec fn is_break_char(c: char) -> bool {
    c == '\n' || c == '\u{0B}' || c == '\u{0C}' || c == '\r' || c == '\u{85}' || c == '\u{2028}'
        || c == '\u{2029}'
}

/// Whether a line ends right after position `i` (a CR followed by LF ends
/// its line only with the LF).
pub open spec fn ends_line(s: Seq<char>, i: int) -> bool {
    is_break_char(s[i]) && !(s[i] == '\r' && i + 1 < s.len() && s[i + 1] == '\n')
}

/// The lines of `s` from position `i` on, the current one starting at `start`.
pub open spec fn lines_from(s: Seq<char>, i: int, start: int) -> Seq<Seq<char>>
    decreases s.len() - i,
{
    if i >= s.len() {
        seq![s.subrange(start, s.len() as int)]
    } else if ends_line(s, i) {
        seq![s.subrange(start, i + 1)] + lines_from(s, i + 1, i + 1)
    } else {
        lines_from(s, i + 1, start)
    }
}

/// The lines of a text, each with its line break.
pub open spec fn text_lines(s: Seq<char>) -> Seq<Seq<char>> {
    lines_from(s, 0, 0)
}

/// `Rope::new`: an empty rope.
#[verifier::external_body]
fn rope_new() -> (r: ropey::Rope)
    ensures
        rope_text(r) == Seq::<char>::empty(),
{
    ropey::Rope::new()
}

/// `Rope::from_str`: a rope holding `text`.
#[verifier::external_body]
fn rope_from_str(text: &str) -> (r: ropey::Rope)
    ensures
        rope_text(r) == text@,
{
    ropey::Rope::from_str(text)
}

/// `Rope::len_chars`: the number of characters.
#[verifier::external_body]
fn rope_len_chars(r: &ropey::Rope) -> (n: usize)
    ensures
        n == rope_text(*r).len(),
{
    r.len_chars()
}

/// `Rope::len_lines`: the number of lines.
#[verifier::external_body]
fn rope_len_lines(r: &ropey::Rope) -> (n: usize)
    ensures
        n == text_lines(rope_text(*r)).len(),
{
    r.len_lines()
}

/// `Rope::line(i).to_string()`: the line at `line_idx`, with its break.
#[verifier::external_body]
fn rope_line_string(r: &ropey::Rope, line_idx: usize) -> (s: String)
    requires
        line_idx < text_lines(rope_text(*r)).len(),
    ensures
        s@ == text_lines(rope_text(*r))[line_idx as int],
{
    r.line(line_idx).to_string()
}

/// `Rope::line(i).as_str()`: the line at `line_idx` when the rope stores it
/// in one piece. Whether it does depends on how the rope split its text into
/// chunks, which no clause here states.
#[verifier::external_body]
fn rope_line_str<'a>(r: &'a ropey::Rope, line_idx: usize) -> (s: Option<&'a str>)
    requires
        line_idx < text_lines(rope_text(*r)).len(),
    ensures
        s matches Some(x) ==> x@ == text_lines(rope_text(*r))[line_idx as int],
{
    r.line(line_idx).as_str()
}

/// The rope's text as a string.
#[verifier::external_body]
fn rope_to_string(r: &ropey::Rope) -> (s: String)
    ensures
        s@ == rope_text(*r),
{
    r.to_string()
}

/// `Rope::insert`: `text` inserted at character `char_idx`.
#[verifier::external_body]
fn rope_insert(r: &mut ropey::Rope, char_idx: usize, text: &str)
    requires
        char_idx <= rope_text(*old(r)).len(),
    ensures
        rope_text(*final(r)) == rope_text(*old(r)).take(char_idx as int) + text@
            + rope_text(*old(r)).skip(char_idx as int),
{
    r.insert(char_idx, text)
}

/// `Rope::remove`: the characters `start..end` removed.
#[verifier::external_body]
fn rope_remove(r: &mut ropey::Rope, start: usize, end: usize)
    requires
        start <= end <= rope_text(*old(r)).len(),
    ensures
        rope_text(*final(r)) == rope_text(*old(r)).take(start as int) + rope_text(*old(r)).skip(end as int),
{
    r.remove(start..end)
}

/// Why a buffer operation failed.
#[derive(Debug)]
pub enum BufferError {
    /// The file could not be read.
    IoError(std::io::Error),
    /// There is no line at this index.
    LineOutOfBounds(usize),
}

/// A text buffer and whether it was edited since it was loaded.
#[derive(Debug, Clone)]
pub struct TextBuffer {
    rope: ropey::Rope,
    modified: bool,
}

/// What a buffer is: its text and whether it was edited.
pub struct BufferView {
    pub text: Seq<char>,
    pub modified: bool,
}

impl View for TextBuffer {
    type V = BufferView;

    closed spec fn view(&self) -> BufferView {
        BufferView { text: rope_text(self.rope), modified: self.modified }
    }
}

/// `s` with `t` inserted at `i`.
pub open spec fn inserted(s: Seq<char>, i: int, t: Seq<char>) -> Seq<char> {
    s.take(i) + t + s.skip(i)
}

/// `s` without the characters `start..end`.
pub open spec fn removed(s: Seq<char>, start: int, end: int) -> Seq<char> {
    s.take(start) + s.skip(end)
}

/// The lines `start..end` of `s`, with the bounds clamped to the text.
pub open spec fn line_range(s: Seq<char>, start: int, end: int) -> Seq<Seq<char>> {
    let n = text_lines(s).len() as int;
    let e = if end < n { end } else { n };
    let b = if start < e { start } else { e };
    text_lines(s).subrange(b, e)
}

impl TextBuffer {
    /// An empty, unmodified buffer.
    pub fn new() -> (b: Self)
        ensures
            b@.text == Seq::<char>::empty(),
            !b@.modified,
    {
        TextBuffer { rope: rope_new(), modified: false }
    }

    /// An unmodified buffer holding `text`.
    pub fn from_str(text: &str) -> (b: Self)
        ensures
            b@.text == text@,
            !b@.modified,
    {
        TextBuffer { rope: rope_from_str(text), modified: false }
    }

    /// Whether the buffer was edited.
    pub fn is_modified(&self) -> (r: bool)
        ensures
            r == self@.modified,
    {
        self.modified
    }

    /// The number of lines (an empty text has one, empty, line).
    pub fn len_lines(&self) -> (n: usize)
        ensures
            n == text_lines(self@.text).len(),
    {
        rope_len_lines(&self.rope)
    }

    /// Whether the buffer holds no character.
    pub fn is_empty(&self) -> (r: bool)
        ensures
            r == (self@.text.len() == 0),
    {
        rope_len_chars(&self.rope) == 0
    }

    /// The line at `line_idx`, borrowed when the rope holds it in one piece,
    /// else empty; out of range, an error.
    pub fn line(&self, line_idx: usize) -> (r: Result<&str, BufferError>)
        ensures
            line_idx >= text_lines(self@.text).len() ==> (r matches Err(BufferError::LineOutOfBounds(i)) && i == line_idx),
            line_idx < text_lines(self@.text).len() ==> (r matches Ok(s)
                && (s@ == text_lines(self@.text)[line_idx as int] || s@ == Seq::<char>::empty())),
    {
        if line_idx >= self.len_lines() {
            return Err(BufferError::LineOutOfBounds(line_idx));
        }
        match rope_line_str(&self.rope, line_idx) {
            Some(s) => Ok(s),
            None => {
                proof {
                    reveal_strlit("");
                }
                Ok("")
            },
        }
    }

    /// The line at `line_idx`, with its line break; out of range, an error.
    pub fn line_to_string(&self, line_idx: usize) -> (r: Result<String, BufferError>)
        ensures
            line_idx >= text_lines(self@.text).len() ==> (r matches Err(BufferError::LineOutOfBounds(i)) && i == line_idx),
            line_idx < text_lines(self@.text).len() ==> (r matches Ok(s) && s@ == text_lines(self@.text)[line_idx as int]),
    {
        if line_idx >= self.len_lines() {
            return Err(BufferError::LineOutOfBounds(line_idx));
        }
        Ok(rope_line_string(&self.rope, line_idx))
    }

    /// The lines `start..end`, the range clamped to the buffer.
    pub fn lines_range(&self, start: usize, end: usize) -> (r: Vec<String>)
        ensures
            r@.len() == line_range(self@.text, start as int, end as int).len(),
            forall|k: int| 0 <= k < r@.len() ==> #[trigger] r@[k]@ == line_range(self@.text, start as int, end as int)[k],
    {
        let n = self.len_lines();
        let end = if end < n { end } else { n };
        let start = if start < end { start } else { end };
        let mut r: Vec<String> = Vec::new();
        let mut i = start;
        while i < end
            invariant
                start <= i <= end,
                end <= n,
                n == text_lines(self@.text).len(),
                r@.len() == i - start,
                forall|k: int| 0 <= k < r@.len() ==> #[trigger] r@[k]@ == text_lines(self@.text)[start + k],
            decreases end - i,
        {
            match self.line_to_string(i) {
                Ok(s) => r.push(s),
                Err(_) => {},
            }
            i += 1;
        }
        r
    }

    /// The whole text.
    pub fn text(&self) -> (s: String)
        ensures
            s@ == self@.text,
    {
        rope_to_string(&self.rope)
    }

    /// Inserts `text` at character `char_idx` and marks the buffer edited.
    pub fn insert(&mut self, char_idx: usize, text: &str)
        requires
            char_idx <= old(self)@.text.len(),
        ensures
            final(self)@.text == inserted(old(self)@.text, char_idx as int, text@),
            final(self)@.modified,
    {
        rope_insert(&mut self.rope, char_idx, text);
        self.modified = true;
    }

    /// Removes the characters `start..end` and marks the buffer edited.
    pub fn remove(&mut self, start: usize, end: usize)
        requires
            start <= end <= old(self)@.text.len(),
        ensures
            final(self)@.text == removed(old(self)@.text, start as int, end as int),
            final(self)@.modified,
    {
        rope_remove(&mut self.rope, start, end);
        self.modified = true;
    }
}

impl Default for TextBuffer {
    fn default() -> (b: Self)
        ensures
            b@.text == Seq::<char>::empty(),
            !b@.modified,
    {
        TextBuffer::new()
    }
}

/// Removing what was just inserted restores the text.
pub proof fn lemma_remove_undoes_insert(s: Seq<char>, i: int, t: Seq<char>)
    requires
        0 <= i <= s.len(),
    ensures
        removed(inserted(s, i, t), i, i + t.len()) == s,
{
    assert(removed(inserted(s, i, t), i, i + t.len()) =~= s);
}

// ---------------------------------------------------------------------------
// Viewport
// ---------------------------------------------------------------------------

/// The window of lines shown: the first line and how many lines fit.
#[derive(Debug)]
pub struct VirtualViewport {
    pub start_line: usize,
    pub visible_lines: usize,
}

/// The highest first line that still fills the window.
pub open spec fn max_start(visible: int, total: int) -> int {
    if total > visible { total - visible } else { 0 }
}

/// The smaller of two numbers.
pub open spec fn min_of(a: int, b: int) -> int {
    if a < b { a } else { b }
}

impl VirtualViewport {
    /// A window starting at `start_line` showing `visible_lines` lines.
    pub fn new(start_line: usize, visible_lines: usize) -> (v: Self)
        ensures
            v.start_line == start_line,
            v.visible_lines == visible_lines,
    {
        VirtualViewport { start_line, visible_lines }
    }

    /// The line after the last one shown, within `total_lines`.
    pub fn end_line(&self, total_lines: usize) -> (e: usize)
        requires
            self.start_line + self.visible_lines <= usize::MAX,
        ensures
            e == min_of(self.start_line + self.visible_lines, total_lines as int),
    {
        let e = self.start_line + self.visible_lines;
        if e < total_lines { e } else { total_lines }
    }

    /// Starts the window at `line`, or as low as it can go while still
    /// filling the window.
    pub fn scroll_to(&mut self, line: usize, total_lines: usize)
        ensures
            final(self).visible_lines == old(self).visible_lines,
            final(self).start_line == min_of(line as int, max_start(old(self).visible_lines as int, total_lines as int)),
    {
        let max = total_lines.saturating_sub(self.visible_lines);
        self.start_line = if line < max { line } else { max };
    }

    /// Moves the window by `delta` lines, stopping at the top and where the
    /// window would run past the end.
    pub fn scroll_by(&mut self, delta: isize, total_lines: usize)
        requires
            delta > isize::MIN,
        ensures
            final(self).visible_lines == old(self).visible_lines,
            final(self).start_line == min_of(
                ({
                    let s = old(self).start_line + delta;
                    if s < 0 { 0 } else if s > usize::MAX { usize::MAX as int } else { s }
                }),
                max_start(old(self).visible_lines as int, total_lines as int),
            ),
    {
        let new_start = if delta < 0 {
            let back = (-delta) as usize;
            self.start_line.saturating_sub(back)
        } else {
            let ahead = delta as usize;
            self.start_line.saturating_add(ahead)
        };
        self.scroll_to(new_start, total_lines);
    }

    /// Moves the window as little as needed for `line` to be in it, then
    /// keeps it from running past the end.
    pub fn ensure_visible(&mut self, line: usize, total_lines: usize)
        requires
            line < old(self).start_line || (old(self).visible_lines > 0
                && old(self).start_line + old(self).visible_lines <= usize::MAX),
        ensures
            final(self).visible_lines == old(self).visible_lines,
            final(self).start_line == min_of(
                if line < old(self).start_line {
                    line as int
                } else if line >= old(self).start_line + old(self).visible_lines {
                    line - old(self).visible_lines + 1
                } else {
                    old(self).start_line as int
                },
                max_start(old(self).visible_lines as int, total_lines as int),
            ),
            line < total_lines && final(self).visible_lines > 0 ==> final(self).start_line <= line
                < final(self).start_line + final(self).visible_lines,
    {
        if line < self.start_line {
            self.start_line = line;
        } else if line >= self.start_line + self.visible_lines {
            self.start_line = line.saturating_sub(self.visible_lines - 1);
        }
        let max = total_lines.saturating_sub(self.visible_lines);
        if max < self.start_line {
            self.start_line = max;
        }
    }

    /// The lines shown from `buffer`, each with its index.
    pub fn get_visible_lines(&self, buffer: &TextBuffer) -> (r: Vec<(usize, String)>)
        requires
            self.start_line + self.visible_lines <= usize::MAX,
        ensures
            r@.len() == line_range(buffer@.text, self.start_line as int, self.start_line + self.visible_lines).len(),
            forall|k: int| 0 <= k < r@.len() ==> (#[trigger] r@[k]).0 == self.start_line + k
                && r@[k].1@ == text_lines(buffer@.text)[self.start_line + k],
    {
        let end = self.end_line(buffer.len_lines());
        let mut r: Vec<(usize, String)> = Vec::new();
        let mut i = self.start_line;
        let ghost n = text_lines(buffer@.text).len() as int;
        while i < end
            invariant
                self.start_line <= i <= end || (end < self.start_line && i == self.start_line),
                end as int == min_of(self.start_line + self.visible_lines, n),
                n == text_lines(buffer@.text).len(),
                r@.len() == i - self.start_line,
                forall|k: int| 0 <= k < r@.len() ==> (#[trigger] r@[k]).0 == self.start_line + k
                    && r@[k].1@ == text_lines(buffer@.text)[self.start_line + k],
            decreases end - i,
        {
            match buffer.line_to_string(i) {
                Ok(s) => r.push((i, s)),
                Err(_) => {},
            }
            i += 1;
        }
        r
    }
}

} // verus!
