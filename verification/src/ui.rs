//! Small pieces of view state: which files the sidebar lists and how, which
//! menu and main view are open, how panes split, what a terminal reports,
//! and the terminal widget's input state.

use vstd::prelude::*;

verus! {

/// Which files the sidebar lists.
#[derive(Debug, Clone, Copy, PartialEq, Eq, Structural)]
pub enum FileSource {
    /// The files git reports as changed.
    Git,
    /// All files of the worktree.
    All,
}

impl Default for FileSource {
    fn default() -> (s: FileSource)
        ensures
            s == FileSource::Git,
    {
        FileSource::Git
    }
}

impl FileSource {
    /// Switches to the other source.
    pub fn toggle(&mut self)
        ensures
            *old(self) == FileSource::Git ==> *final(self) == FileSource::All,
            *old(self) == FileSource::All ==> *final(self) == FileSource::Git,
    {
        *self = match self {
            FileSource::Git => FileSource::All,
            FileSource::All => FileSource::Git,
        };
    }

    /// The label of the source's button.
    pub fn label(&self) -> (l: &'static str)
        ensures
            *self == FileSource::Git ==> l@ == "Git"@,
            *self == FileSource::All ==> l@ == "Files"@,
    {
        match self {
            FileSource::Git => "Git",
            FileSource::All => "Files",
        }
    }
}

/// How the file list is laid out.
#[derive(Debug, Clone, Copy, PartialEq, Eq, Structural)]
pub enum FileListMode {
    Flat,
    Tree,
}

impl Default for FileListMode {
    fn default() -> (m: FileListMode)
        ensures
            m == FileListMode::Flat,
    {
        FileListMode::Flat
    }
}

impl FileListMode {
    /// Switches to the other layout.
    pub fn toggle(&mut self)
        ensures
            *old(self) == FileListMode::Flat ==> *final(self) == FileListMode::Tree,
            *old(self) == FileListMode::Tree ==> *final(self) == FileListMode::Flat,
    {
        *self = match self {
            FileListMode::Flat => FileListMode::Tree,
            FileListMode::Tree => FileListMode::Flat,
        };
    }

    /// The icon of the layout's button.
    pub fn icon(&self) -> (i: &'static str)
        ensures
            *self == FileListMode::Flat ==> i@ == "≡"@,
            *self == FileListMode::Tree ==> i@ == "⊞"@,
    {
        match self {
            FileListMode::Flat => "≡",
            FileListMode::Tree => "⊞",
        }
    }
}

/// The menu that is open.
#[derive(Debug, Clone, Copy, PartialEq, Eq, Structural)]
pub enum MenuId {
    App,
    File,
    View,
}

/// What the main area shows.
#[derive(Debug, Clone)]
pub enum ViewState {
    Welcome,
    ChangedFiles,
    File { path: String, content: String },
    Editor { path: String },
    Diff { path: String },
}

impl Default for ViewState {
    fn default() -> (v: ViewState)
        ensures
            v is Welcome,
    {
        ViewState::Welcome
    }
}

/// How two panes share space.
#[derive(Debug, Clone, Copy, PartialEq, Eq, Structural)]
pub enum SplitDirection {
    /// Side by side (a vertical divider).
    Horizontal,
    /// One above the other (a horizontal divider).
    Vertical,
}

/// What a running terminal reports.
#[derive(Debug, Clone)]
pub enum TerminalEvent {
    /// A new frame is available.
    Wakeup,
    Bell,
    Exit,
    Title(String),
    /// The program in the terminal asked for text to go to the clipboard.
    ClipboardWrite(String),
    /// The text of a selection that was copied.
    Copy(String),
}

/// The last grid size sent to a terminal, so that layout passes that
/// produce the same size do not resend it.
#[derive(Debug, Clone, Copy)]
pub struct GridSize {
    pub cols: u16,
    pub rows: u16,
}

impl GridSize {
    /// No size sent yet.
    pub fn new() -> (g: GridSize)
        ensures
            g.cols == 0 && g.rows == 0,
    {
        GridSize { cols: 0, rows: 0 }
    }

    /// Whether a resize to `cols` x `rows` has to be sent; when it does, it
    /// becomes the last size sent.
    pub fn update(&mut self, cols: u16, rows: u16) -> (send: bool)
        ensures
            send == !(old(self).cols == cols && old(self).rows == rows),
            final(self).cols == cols && final(self).rows == rows,
    {
        if self.cols == cols && self.rows == rows {
            return false;
        }
        self.cols = cols;
        self.rows = rows;
        true
    }
}

/// The displayed width of a character in columns, `None` for a control
/// character, as `unicode-width` reports it.
pub uninterp spec fn char_columns(c: char) -> Option<usize>;

/// `UnicodeWidthChar::width`.
#[verifier::external_body]
fn unicode_char_width(c: char) -> (w: Option<usize>)
    ensures
        w == char_columns(c),
{
    unicode_width::UnicodeWidthChar::width(c)
}

/// The columns a character of composing (IME) text takes: its displayed
/// width, or 1 for a control character.
pub open spec fn preedit_columns(c: char) -> usize {
    match char_columns(c) {
        Some(w) => w,
        None => 1,
    }
}

/// A terminal's text widget: its content, whether it has focus, where the
/// cursor is, and the text being composed by an input method.
pub struct TerminalWidget<'a, P> {
    pub content: String,
    pub focused: bool,
    pub palette: &'a P,
    /// Cursor position (row, column).
    pub cursor_pos: (usize, usize),
    /// Composition in progress.
    pub preedit_text: &'a str,
}

impl<'a, P> TerminalWidget<'a, P> {
    /// A widget with the given state.
    pub fn new(
        content: String,
        focused: bool,
        palette: &'a P,
        cursor_pos: (usize, usize),
        preedit_text: &'a str,
    ) -> (w: Self)
        ensures
            w.content@ == content@,
            w.focused == focused,
            w.palette == palette,
            w.cursor_pos == cursor_pos,
            w.preedit_text@ == preedit_text@,
    {
        TerminalWidget { content, focused, palette, cursor_pos, preedit_text }
    }

    /// Where the cursor (or the composition) is drawn: only a focused widget
    /// draws one.
    pub fn cursor_cell(&self) -> (c: Option<(usize, usize)>)
        ensures
            c == (if self.focused { Some(self.cursor_pos) } else { None::<(usize, usize)> }),
    {
        if self.focused {
            Some(self.cursor_pos)
        } else {
            None
        }
    }

    /// The columns each character of the composition takes, in order.
    pub fn preedit_widths(&self) -> (w: Vec<usize>)
        ensures
            w@.len() == self.preedit_text@.len(),
            forall|i: int| 0 <= i < w@.len() ==> #[trigger] w@[i] == preedit_columns(self.preedit_text@[i]),
    {
        let cs = crate::text::chars_of(self.preedit_text);
        let mut w: Vec<usize> = Vec::new();
        let mut i: usize = 0;
        while i < cs.len()
            invariant
                cs@ == self.preedit_text@,
                i <= cs@.len(),
                w@.len() == i,
                forall|j: int| 0 <= j < i ==> #[trigger] w@[j] == preedit_columns(cs@[j]),
            decreases cs@.len() - i,
        {
            let cw = match unicode_char_width(cs[i]) {
                Some(x) => x,
                None => 1,
            };
            w.push(cw);
            i += 1;
        }
        w
    }
}

/// A terminal widget with the given state.
pub fn terminal_widget<'a, P>(
    content: String,
    focused: bool,
    palette: &'a P,
    cursor_pos: (usize, usize),
    preedit_text: &'a str,
) -> (w: TerminalWidget<'a, P>)
    ensures
        w.content@ == content@,
        w.focused == focused,
        w.palette == palette,
        w.cursor_pos == cursor_pos,
        w.preedit_text@ == preedit_text@,
{
    TerminalWidget::new(content, focused, palette, cursor_pos, preedit_text)
}

} // verus!
