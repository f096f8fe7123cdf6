//! Actions triggered by clicking on elements (file paths, line numbers,
//! selected text), and the formats in which a path is inserted into a terminal.

use vstd::prelude::*;
use crate::path::{file_name, file_name_of, strip_prefix, strip_prefix_of};
use crate::text::{chars_of, contains_char, decimal, push_chars, string_from_chars, usize_to_chars};

verus! {

/// Actions that can be triggered by user interaction.
#[derive(Debug, Clone)]
pub enum Action {
    /// Insert text into the active terminal (without executing).
    InsertToTerminal(String),
    /// Execute a command in the active terminal (insert + enter).
    ExecuteInTerminal(String),
    /// Show the diff of a file.
    ShowDiff(String),
    /// Copy text to the clipboard.
    CopyToClipboard(String),
    /// No action.
    Noop,
}

/// `path:line`.
pub open spec fn location_text(path: Seq<char>, line: nat) -> Seq<char> {
    path.push(':') + decimal(line)
}

impl Action {
    /// Whether the action needs a terminal.
    pub open spec fn spec_needs_terminal(&self) -> bool {
        self is InsertToTerminal || self is ExecuteInTerminal
    }

    /// An action that inserts a file path into the terminal.
    pub fn insert_path(path: &str) -> (a: Action)
        ensures
            a matches Action::InsertToTerminal(s) && s@ == path@,
    {
        Action::InsertToTerminal(path.to_owned())
    }

    /// An action that inserts `path:line` into the terminal.
    pub fn insert_location(path: &str, line: usize) -> (a: Action)
        ensures
            a matches Action::InsertToTerminal(s) && s@ == location_text(path@, line as nat),
    {
        let mut v = chars_of(path);
        v.push(':');
        let digits = usize_to_chars(line);
        push_chars(&mut v, &digits);
        Action::InsertToTerminal(string_from_chars(&v))
    }

    /// Whether this action requires a terminal.
    pub fn needs_terminal(&self) -> (r: bool)
        ensures
            r == self.spec_needs_terminal(),
    {
        match self {
            Action::InsertToTerminal(_) | Action::ExecuteInTerminal(_) => true,
            _ => false,
        }
    }
}

/// Formats for inserting paths into a terminal.
#[derive(Debug, Clone, Copy, PartialEq, Eq, Structural)]
pub enum PathFormat {
    /// Absolute path.
    Absolute,
    /// Relative to the worktree root.
    Relative,
    /// Just the file name.
    FileName,
    /// `file:line` format.
    WithLine,
}

impl Default for PathFormat {
    fn default() -> (f: PathFormat)
        ensures
            f == PathFormat::Absolute,
    {
        PathFormat::Absolute
    }
}

/// `path` relative to `base` when it lies under it, otherwise `path` itself.
pub open spec fn relative_display(path: Seq<char>, base: Option<Seq<char>>) -> Seq<char> {
    match base {
        Some(b) => match strip_prefix_of(path, b) {
            Some(r) => r,
            None => path,
        },
        None => path,
    }
}

/// Wraps text that holds a space in double quotes.
pub open spec fn quote_if_spaced(s: Seq<char>) -> Seq<char> {
    if s.contains(' ') {
        seq!['"'] + s.push('"')
    } else {
        s
    }
}

/// The text that `format_path` produces.
pub open spec fn formatted_path(
    fmt: PathFormat,
    path: Seq<char>,
    base: Option<Seq<char>>,
    line: Option<usize>,
) -> Seq<char> {
    let s = match fmt {
        PathFormat::Absolute => path,
        PathFormat::Relative => relative_display(path, base),
        PathFormat::FileName => match file_name_of(path) {
            Some(n) => n,
            None => path,
        },
        PathFormat::WithLine => {
            let b = relative_display(path, base);
            match line {
                Some(l) => location_text(b, l as nat),
                None => b,
            }
        },
    };
    quote_if_spaced(s)
}

/// `path` relative to `base` when it lies under it, otherwise `path` itself.
fn relative_chars(path: &Vec<char>, base: Option<&str>) -> (out: Vec<char>)
    ensures
        out@ == relative_display(path@, match base {
            Some(b) => Some(b@),
            None => None,
        }),
{
    match base {
        Some(b) => {
            let bc = chars_of(b);
            match strip_prefix(path, &bc) {
                Some(r) => r,
                None => path.clone(),
            }
        },
        None => path.clone(),
    }
}

impl PathFormat {
    /// Formats `path` for insertion into a terminal; text holding a space is
    /// quoted.
    pub fn format_path(&self, path: &str, base: Option<&str>, line: Option<usize>) -> (s: String)
        ensures
            s@ == formatted_path(*self, path@, match base {
                Some(b) => Some(b@),
                None => None,
            }, line),
    {
        let p = chars_of(path);
        let s: Vec<char> = match self {
            PathFormat::Absolute => p,
            PathFormat::Relative => relative_chars(&p, base),
            PathFormat::FileName => match file_name(&p) {
                Some(n) => n,
                None => p,
            },
            PathFormat::WithLine => {
                let mut b = relative_chars(&p, base);
                match line {
                    Some(l) => {
                        b.push(':');
                        let d = usize_to_chars(l);
                        push_chars(&mut b, &d);
                        b
                    },
                    None => b,
                }
            },
        };
        if contains_char(&s, ' ') {
            let mut q: Vec<char> = Vec::new();
            q.push('"');
            push_chars(&mut q, &s);
            q.push('"');
            proof {
                assert(q@ =~= seq!['"'] + s@.push('"'));
            }
            string_from_chars(&q)
        } else {
            string_from_chars(&s)
        }
    }
}

/// A queue of pending actions, without `Action::Noop`.
pub struct ActionQueue {
    pending: Vec<Action>,
}

impl View for ActionQueue {
    type V = Seq<Action>;

    closed spec fn view(&self) -> Seq<Action> {
        self.pending@
    }
}

impl ActionQueue {
    /// An empty queue.
    pub fn new() -> (q: ActionQueue)
        ensures
            q@ == Seq::<Action>::empty(),
    {
        ActionQueue { pending: Vec::new() }
    }

    /// Queues an action; `Action::Noop` is dropped.
    pub fn push(&mut self, action: Action)
        ensures
            final(self)@ == (if action is Noop {
                old(self)@
            } else {
                old(self)@.push(action)
            }),
    {
        match action {
            Action::Noop => {},
            _ => {
                self.pending.push(action);
            },
        }
    }

    /// Takes all pending actions, in order, leaving the queue empty.
    pub fn take(&mut self) -> (taken: Vec<Action>)
        ensures
            taken@ == old(self)@,
            final(self)@ == Seq::<Action>::empty(),
    {
        let mut out: Vec<Action> = Vec::new();
        core::mem::swap(&mut out, &mut self.pending);
        out
    }

    /// Whether any action is pending.
    pub fn has_pending(&self) -> (r: bool)
        ensures
            r == (self@.len() > 0),
    {
        self.pending.len() > 0
    }
}

impl Default for ActionQueue {
    fn default() -> (q: ActionQueue)
        ensures
            q@ == Seq::<Action>::empty(),
    {
        ActionQueue::new()
    }
}

} // verus!
