//! Sessions: one per worktree, each with its own terminals, and the manager
//! that keeps them in step with the repository's worktrees.
//!
//! A terminal is whatever handle the caller uses for one (`T`); the library
//! only decides which terminals exist, which one is active, and in which
//! directory a new one starts.

use vstd::prelude::*;
use crate::git::{worktree_views, Worktree, WorktreeView};
use crate::path::{path_eq, same_path};
use crate::text::chars_of;
use crate::theme;

verus! {

// ---------------------------------------------------------------------------
// Colors, statuses, layout
// ---------------------------------------------------------------------------

/// Number of colors that sessions cycle through.
pub const PALETTE_LEN: usize = 8;

/// The palette, in order.
pub open spec fn palette(i: int) -> u32 {
    if i == 0 {
        theme::BLUE
    } else if i == 1 {
        theme::GREEN
    } else if i == 2 {
        theme::YELLOW
    } else if i == 3 {
        theme::RED
    } else if i == 4 {
        theme::MAUVE
    } else if i == 5 {
        theme::TEAL
    } else if i == 6 {
        theme::PEACH
    } else {
        theme::PINK
    }
}

/// Color for visual identification of sessions.
#[derive(Debug, Clone, Copy, PartialEq, Eq, Structural)]
pub struct SessionColor {
    pub primary: u32,
}

/// The color of the session at `index`: the palette, cycled.
pub open spec fn color_for(index: int) -> SessionColor {
    SessionColor { primary: palette(index % (PALETTE_LEN as int)) }
}

impl SessionColor {
    /// The color for the session at `index`.
    pub fn for_index(index: usize) -> (c: SessionColor)
        ensures
            c == color_for(index as int),
    {
        let i = index % PALETTE_LEN;
        let primary = if i == 0 {
            theme::BLUE
        } else if i == 1 {
            theme::GREEN
        } else if i == 2 {
            theme::YELLOW
        } else if i == 3 {
            theme::RED
        } else if i == 4 {
            theme::MAUVE
        } else if i == 5 {
            theme::TEAL
        } else if i == 6 {
            theme::PEACH
        } else {
            theme::PINK
        };
        SessionColor { primary }
    }
}

/// The colors cycle with the palette's length.
pub proof fn lemma_color_cycles(index: int)
    requires
        index >= 0,
    ensures
        color_for(index) == color_for(index + PALETTE_LEN as int),
{
    assert((index + 8) % 8 == index % 8) by (nonlinear_arith)
        requires
            index >= 0,
    ;
}

/// Sessions at indices less than a palette apart have distinct colors.
pub proof fn lemma_colors_distinct(i: int, j: int)
    requires
        0 <= i < j,
        j - i < PALETTE_LEN as int,
    ensures
        color_for(i) != color_for(j),
{
    assert(i % 8 != j % 8) by (nonlinear_arith)
        requires
            0 <= i < j,
            j - i < 8,
    ;
    assert(0 <= i % 8 < 8 && 0 <= j % 8 < 8) by (nonlinear_arith)
        requires
            0 <= i < j,
    ;
}

/// Session status.
#[derive(Debug, Clone, Copy, PartialEq, Eq, Structural)]
pub enum SessionStatus {
    /// Terminal is open and currently focused.
    Focused,
    /// Terminal is open but not focused.
    Running,
    /// Terminal is closed or not started.
    Stopped,
}

impl SessionStatus {
    /// The symbol shown for the status.
    pub fn symbol(&self) -> (s: &'static str)
        ensures
            *self == SessionStatus::Focused ==> s@ == "●"@,
            *self == SessionStatus::Running ==> s@ == "○"@,
            *self == SessionStatus::Stopped ==> s@ == "◌"@,
    {
        match self {
            SessionStatus::Focused => "●",
            SessionStatus::Running => "○",
            SessionStatus::Stopped => "◌",
        }
    }
}

/// Layout mode for terminal operation.
#[derive(Debug, Clone, Copy, PartialEq, Eq, Structural)]
pub enum LayoutMode {
    /// Focus on a single session.
    Single,
    /// View and interact with several sessions' terminals at once.
    Parallel,
}

impl Default for LayoutMode {
    fn default() -> (m: LayoutMode)
        ensures
            m == LayoutMode::Single,
    {
        LayoutMode::Single
    }
}

/// The other layout mode.
pub open spec fn toggled(m: LayoutMode) -> LayoutMode {
    match m {
        LayoutMode::Single => LayoutMode::Parallel,
        LayoutMode::Parallel => LayoutMode::Single,
    }
}

// ---------------------------------------------------------------------------
// Session
// ---------------------------------------------------------------------------

/// What a session is: its worktree, its terminals, and its display state.
pub struct SessionView<T> {
    pub worktree: WorktreeView,
    pub terminals: Seq<T>,
    pub active: int,
    pub color: SessionColor,
    pub status: SessionStatus,
    pub visible: bool,
}

/// A session's terminal bookkeeping is consistent: the active index points at
/// a terminal (or is 0 when there is none), and a session without terminals
/// is stopped.
pub open spec fn session_wf<T>(s: SessionView<T>) -> bool {
    if s.terminals.len() == 0 {
        s.active == 0 && s.status == SessionStatus::Stopped
    } else {
        0 <= s.active < s.terminals.len()
    }
}

/// A fresh session for a worktree, colored by `color_index`.
pub open spec fn fresh_session<T>(w: WorktreeView, color_index: int) -> SessionView<T> {
    SessionView {
        worktree: w,
        terminals: Seq::empty(),
        active: 0,
        color: color_for(color_index),
        status: SessionStatus::Stopped,
        visible: false,
    }
}

/// `s` with `t` added as its active terminal.
pub open spec fn with_terminal<T>(s: SessionView<T>, t: T) -> SessionView<T> {
    SessionView {
        worktree: s.worktree,
        terminals: s.terminals.push(t),
        active: s.terminals.len() as int,
        color: s.color,
        status: SessionStatus::Running,
        visible: s.visible,
    }
}

/// `s` after removing the terminal at `index`.
pub open spec fn without_terminal<T>(s: SessionView<T>, index: int) -> SessionView<T> {
    if index < 0 || index >= s.terminals.len() {
        s
    } else {
        let rest = s.terminals.remove(index);
        let active = if rest.len() == 0 {
            0
        } else if index < s.active {
            s.active - 1
        } else if index == s.active && s.active >= rest.len() {
            rest.len() - 1
        } else {
            s.active
        };
        SessionView {
            worktree: s.worktree,
            terminals: rest,
            active: active,
            color: s.color,
            status: if rest.len() == 0 { SessionStatus::Stopped } else { s.status },
            visible: s.visible,
        }
    }
}

/// `s` with its worktree's branch and lock state taken from `w`.
pub open spec fn with_worktree_info<T>(s: SessionView<T>, w: WorktreeView) -> SessionView<T> {
    SessionView {
        worktree: WorktreeView {
            name: s.worktree.name,
            path: s.worktree.path,
            branch: w.branch,
            is_main: s.worktree.is_main,
            locked: w.locked,
        },
        terminals: s.terminals,
        active: s.active,
        color: s.color,
        status: s.status,
        visible: s.visible,
    }
}

/// `s` with another status.
pub open spec fn with_status<T>(s: SessionView<T>, status: SessionStatus) -> SessionView<T> {
    SessionView {
        worktree: s.worktree,
        terminals: s.terminals,
        active: s.active,
        color: s.color,
        status: status,
        visible: s.visible,
    }
}

/// `s` with another parallel visibility.
pub open spec fn with_visible<T>(s: SessionView<T>, visible: bool) -> SessionView<T> {
    SessionView {
        worktree: s.worktree,
        terminals: s.terminals,
        active: s.active,
        color: s.color,
        status: s.status,
        visible: visible,
    }
}

/// The state of a session; the session keeps it consistent.
struct SessionCore<T> {
    worktree: Worktree,
    terminals: Vec<T>,
    active_terminal_index: usize,
    color: SessionColor,
    status: SessionStatus,
    visible_in_parallel: bool,
}

impl<T> View for SessionCore<T> {
    type V = SessionView<T>;

    closed spec fn view(&self) -> SessionView<T> {
        SessionView {
            worktree: self.worktree@,
            terminals: self.terminals@,
            active: self.active_terminal_index as int,
            color: self.color,
            status: self.status,
            visible: self.visible_in_parallel,
        }
    }
}

/// A copy of a string.
fn copy_string(s: &String) -> (r: String)
    ensures
        r@ == s@,
{
    s.clone()
}

/// A copy of an optional string.
fn copy_opt_string(s: &Option<String>) -> (r: Option<String>)
    ensures
        crate::git::opt_str(r) == crate::git::opt_str(*s),
{
    match s {
        Some(b) => Some(b.clone()),
        None => None,
    }
}

/// A copy of a worktree.
pub fn copy_worktree(w: &Worktree) -> (r: Worktree)
    ensures
        r@ == w@,
{
    Worktree {
        name: copy_string(&w.name),
        path: copy_string(&w.path),
        branch: copy_opt_string(&w.branch),
        is_main: w.is_main,
        locked: w.locked,
    }
}

impl<T> SessionCore<T> {
    /// The session's terminal bookkeeping is consistent.
    pub open spec fn wf(&self) -> bool {
        session_wf(self@)
    }

    /// A session of no worktree, standing in while a session is updated.
    fn placeholder() -> (s: Self)
        ensures
            s.wf(),
    {
        let w = Worktree { name: String::new(), path: String::new(), branch: None, is_main: false, locked: false };
        SessionCore::new(w, 0)
    }

    /// A new session for a worktree, with no terminals yet.
    pub fn new(worktree: Worktree, color_index: usize) -> (s: Self)
        ensures
            s@ == fresh_session::<T>(worktree@, color_index as int),
            s.wf(),
    {
        SessionCore {
            worktree,
            terminals: Vec::new(),
            active_terminal_index: 0,
            color: SessionColor::for_index(color_index),
            status: SessionStatus::Stopped,
            visible_in_parallel: false,
        }
    }

    /// Adds `terminal` and makes it the active one.
    pub fn push_terminal(&mut self, terminal: T)
        requires
            old(self).wf(),
        ensures
            final(self)@ == with_terminal(old(self)@, terminal),
            final(self).wf(),
    {
        self.terminals.push(terminal);
        self.active_terminal_index = self.terminals.len() - 1;
        self.status = SessionStatus::Running;
    }

    /// Adds a terminal started in the worktree's directory and makes it active.
    pub fn add_terminal<F: FnOnce(String) -> T>(&mut self, spawn: F)
        requires
            old(self).wf(),
            forall|dir: String| spawn.requires((dir,)),
        ensures
            final(self).wf(),
            exists|dir: String, t: T|
                dir@ == old(self)@.worktree.path && spawn.ensures((dir,), t)
                    && final(self)@ == with_terminal(old(self)@, t),
    {
        let dir = copy_string(&self.worktree.path);
        let ghost d = dir;
        let terminal = spawn(dir);
        self.push_terminal(terminal);
        assert(d@ == old(self)@.worktree.path && spawn.ensures((d,), terminal)
            && self@ == with_terminal(old(self)@, terminal));
    }

    /// Adds a terminal started in `directory` and makes it active.
    pub fn add_terminal_in_directory<F: FnOnce(String) -> T>(&mut self, directory: String, spawn: F)
        requires
            old(self).wf(),
            spawn.requires((directory,)),
        ensures
            final(self).wf(),
            exists|t: T| spawn.ensures((directory,), t)
                && final(self)@ == with_terminal(old(self)@, t),
    {
        let terminal = spawn(directory);
        self.push_terminal(terminal);
    }

    /// Starts a terminal in the worktree's directory if the session has none.
    pub fn ensure_terminal<F: FnOnce(String) -> T>(&mut self, spawn: F)
        requires
            old(self).wf(),
            forall|dir: String| spawn.requires((dir,)),
        ensures
            final(self).wf(),
            old(self)@.terminals.len() > 0 ==> final(self)@ == old(self)@,
            old(self)@.terminals.len() == 0 ==> exists|dir: String, t: T|
                dir@ == old(self)@.worktree.path && spawn.ensures((dir,), t)
                    && final(self)@ == with_terminal(old(self)@, t),
    {
        if self.terminals.len() == 0 {
            self.add_terminal(spawn);
        }
    }

    /// Removes the terminal at `index`; out-of-range indices are ignored.
    pub fn remove_terminal(&mut self, index: usize)
        requires
            old(self).wf(),
        ensures
            final(self)@ == without_terminal(old(self)@, index as int),
            final(self).wf(),
    {
        if index >= self.terminals.len() {
            return;
        }
        self.terminals.remove(index);
        if self.terminals.len() == 0 {
            self.active_terminal_index = 0;
            self.status = SessionStatus::Stopped;
        } else if index < self.active_terminal_index {
            self.active_terminal_index -= 1;
        } else if index == self.active_terminal_index {
            if self.active_terminal_index >= self.terminals.len() {
                self.active_terminal_index = self.terminals.len() - 1;
            }
        }
    }

    /// Removes all terminals.
    pub fn clear_terminals(&mut self)
        requires
            old(self).wf(),
        ensures
            final(self)@ == (SessionView {
                terminals: Seq::<T>::empty(),
                active: 0,
                status: SessionStatus::Stopped,
                ..old(self)@
            }),
            final(self).wf(),
    {
        self.terminals.clear();
        self.active_terminal_index = 0;
        self.status = SessionStatus::Stopped;
    }

    /// The active terminal, if the session has one.
    pub fn active_terminal(&self) -> (t: Option<&T>)
        requires
            self.wf(),
        ensures
            self@.terminals.len() == 0 ==> t is None,
            self@.terminals.len() > 0 ==> t == Some(&self@.terminals[self@.active]),
    {
        if self.active_terminal_index < self.terminals.len() {
            Some(&self.terminals[self.active_terminal_index])
        } else {
            None
        }
    }

    /// Makes the terminal at `index` active; out-of-range indices are ignored.
    pub fn switch_terminal(&mut self, index: usize)
        requires
            old(self).wf(),
        ensures
            final(self).wf(),
            index < old(self)@.terminals.len() ==> final(self)@ == (SessionView {
                active: index as int,
                ..old(self)@
            }),
            index >= old(self)@.terminals.len() ==> final(self)@ == old(self)@,
    {
        if index < self.terminals.len() {
            self.active_terminal_index = index;
        }
    }

    /// Makes the next terminal active, wrapping around.
    pub fn next_terminal(&mut self)
        requires
            old(self).wf(),
        ensures
            final(self).wf(),
            final(self)@ == (SessionView {
                active: next_index(old(self)@.active, old(self)@.terminals.len() as int),
                ..old(self)@
            }),
    {
        if self.terminals.len() > 0 {
            self.active_terminal_index = (self.active_terminal_index + 1) % self.terminals.len();
        }
    }

    /// Makes the previous terminal active, wrapping around.
    pub fn prev_terminal(&mut self)
        requires
            old(self).wf(),
        ensures
            final(self).wf(),
            final(self)@ == (SessionView {
                active: prev_index(old(self)@.active, old(self)@.terminals.len() as int),
                ..old(self)@
            }),
    {
        if self.terminals.len() > 0 {
            self.active_terminal_index = if self.active_terminal_index == 0 {
                self.terminals.len() - 1
            } else {
                self.active_terminal_index - 1
            };
        }
    }

    /// Whether the session has any terminal.
    pub fn has_terminals(&self) -> (r: bool)
        ensures
            r == (self@.terminals.len() > 0),
    {
        self.terminals.len() > 0
    }

    /// The number of terminals.
    pub fn terminal_count(&self) -> (n: usize)
        ensures
            n == self@.terminals.len(),
    {
        self.terminals.len()
    }

    /// The session's worktree.
    pub fn worktree(&self) -> (w: &Worktree)
        ensures
            w@ == self@.worktree,
    {
        &self.worktree
    }

    /// The worktree's path.
    pub fn worktree_path(&self) -> (p: &str)
        ensures
            p@ == self@.worktree.path,
    {
        self.worktree.path.as_str()
    }

    /// Takes the branch and lock state from `updated`, a newer record of the
    /// same worktree; the name, path and main flag stay.
    pub fn update_worktree_info(&mut self, updated: &Worktree)
        requires
            same_path(old(self)@.worktree.path, updated@.path),
        ensures
            final(self)@ == with_worktree_info(old(self)@, updated@),
    {
        self.worktree.branch = copy_opt_string(&updated.branch);
        self.worktree.locked = updated.locked;
    }

    /// The display name (the worktree's name).
    pub fn name(&self) -> (n: &str)
        ensures
            n@ == self@.worktree.name,
    {
        self.worktree.name.as_str()
    }

    /// The branch, if the worktree has one checked out.
    pub fn branch(&self) -> (b: Option<&str>)
        ensures
            match self@.worktree.branch {
                Some(x) => b is Some && b->0@ == x,
                None => b is None,
            },
    {
        match &self.worktree.branch {
            Some(b) => Some(b.as_str()),
            None => None,
        }
    }

    /// Whether this is the main worktree.
    pub fn is_main(&self) -> (r: bool)
        ensures
            r == self@.worktree.is_main,
    {
        self.worktree.is_main
    }

    /// Whether the worktree is locked.
    pub fn is_locked(&self) -> (r: bool)
        ensures
            r == self@.worktree.locked,
    {
        self.worktree.locked
    }

    /// The session's color.
    pub fn color(&self) -> (c: SessionColor)
        ensures
            c == self@.color,
    {
        self.color
    }

    /// The session's status.
    pub fn status(&self) -> (s: SessionStatus)
        ensures
            s == self@.status,
    {
        self.status
    }

    /// Whether the session is shown in parallel mode.
    pub fn is_visible_in_parallel(&self) -> (r: bool)
        ensures
            r == self@.visible,
    {
        self.visible_in_parallel
    }

    /// Sets the status; only a session with terminals can be running or focused.
    pub(crate) fn set_status(&mut self, status: SessionStatus)
        requires
            old(self).wf(),
            old(self)@.terminals.len() > 0 || status == SessionStatus::Stopped,
        ensures
            final(self)@ == with_status(old(self)@, status),
            final(self).wf(),
    {
        self.status = status;
    }

    /// Flips the parallel visibility.
    pub(crate) fn toggle_visibility(&mut self)
        ensures
            final(self)@ == with_visible(old(self)@, !old(self)@.visible),
    {
        self.visible_in_parallel = !self.visible_in_parallel;
    }

    /// Sets the parallel visibility.
    pub(crate) fn set_visible_in_parallel(&mut self, visible: bool)
        ensures
            final(self)@ == with_visible(old(self)@, visible),
    {
        self.visible_in_parallel = visible;
    }
}
/// A session represents a worktree with its associated terminals.
pub struct Session<T> {
    core: SessionCore<T>,
}

impl<T> View for Session<T> {
    type V = SessionView<T>;

    closed spec fn view(&self) -> SessionView<T> {
        self.core@
    }
}

impl<T> Session<T> {
    /// What every session keeps: its terminal bookkeeping is consistent.
    #[verifier::type_invariant]
    closed spec fn consistent(self) -> bool {
        self.core.wf()
    }

    /// The session's bookkeeping is consistent (always so, by its type
    /// invariant).
    pub open spec fn wf(&self) -> bool {
        session_wf(self@)
    }

    /// A new session for a worktree, with no terminals yet.
    pub fn new(worktree: Worktree, color_index: usize) -> (s: Self)
        ensures
            s@ == fresh_session::<T>(worktree@, color_index as int),
            s.wf(),
    {
        Session { core: SessionCore::new(worktree, color_index) }
    }

    /// Adds `terminal` and makes it the active one.
    pub fn push_terminal(&mut self, terminal: T)
        ensures
            final(self)@ == with_terminal(old(self)@, terminal),
            final(self).wf(),
    {
        proof {
            use_type_invariant(&*self);
        }
        let mut core = SessionCore::placeholder();
        std::mem::swap(&mut core, &mut self.core);
        core.push_terminal(terminal);
        std::mem::swap(&mut core, &mut self.core);
    }

    /// Adds a terminal started in the worktree's directory and makes it active.
    pub fn add_terminal<F: FnOnce(String) -> T>(&mut self, spawn: F)
        requires
            forall|dir: String| spawn.requires((dir,)),
        ensures
            final(self).wf(),
            exists|dir: String, t: T|
                dir@ == old(self)@.worktree.path && spawn.ensures((dir,), t)
                    && final(self)@ == with_terminal(old(self)@, t),
    {
        proof {
            use_type_invariant(&*self);
        }
        let mut core = SessionCore::placeholder();
        std::mem::swap(&mut core, &mut self.core);
        core.add_terminal(spawn);
        std::mem::swap(&mut core, &mut self.core);
    }

    /// Adds a terminal started in `directory` and makes it active.
    pub fn add_terminal_in_directory<F: FnOnce(String) -> T>(&mut self, directory: String, spawn: F)
        requires
            spawn.requires((directory,)),
        ensures
            final(self).wf(),
            exists|t: T| spawn.ensures((directory,), t)
                && final(self)@ == with_terminal(old(self)@, t),
    {
        proof {
            use_type_invariant(&*self);
        }
        let ghost before = self@;
        let ghost dir = directory;
        let mut core = SessionCore::placeholder();
        std::mem::swap(&mut core, &mut self.core);
        core.add_terminal_in_directory(directory, spawn);
        proof {
            let t = choose|t: T| spawn.ensures((dir,), t) && core@ == with_terminal(before, t);
            assert(spawn.ensures((dir,), t) && core@ == with_terminal(before, t));
        }
        std::mem::swap(&mut core, &mut self.core);
    }

    /// Starts a terminal in the worktree's directory if the session has none.
    pub fn ensure_terminal<F: FnOnce(String) -> T>(&mut self, spawn: F)
        requires
            forall|dir: String| spawn.requires((dir,)),
        ensures
            final(self).wf(),
            old(self)@.terminals.len() > 0 ==> final(self)@ == old(self)@,
            old(self)@.terminals.len() == 0 ==> exists|dir: String, t: T|
                dir@ == old(self)@.worktree.path && spawn.ensures((dir,), t)
                    && final(self)@ == with_terminal(old(self)@, t),
    {
        proof {
            use_type_invariant(&*self);
        }
        let mut core = SessionCore::placeholder();
        std::mem::swap(&mut core, &mut self.core);
        core.ensure_terminal(spawn);
        std::mem::swap(&mut core, &mut self.core);
    }

    /// Removes the terminal at `index`; out-of-range indices are ignored.
    pub fn remove_terminal(&mut self, index: usize)
        ensures
            final(self)@ == without_terminal(old(self)@, index as int),
            final(self).wf(),
    {
        proof {
            use_type_invariant(&*self);
        }
        let mut core = SessionCore::placeholder();
        std::mem::swap(&mut core, &mut self.core);
        core.remove_terminal(index);
        std::mem::swap(&mut core, &mut self.core);
    }

    /// Removes all terminals.
    pub fn clear_terminals(&mut self)
        ensures
            final(self)@ == (SessionView {
                terminals: Seq::<T>::empty(),
                active: 0,
                status: SessionStatus::Stopped,
                ..old(self)@
            }),
            final(self).wf(),
    {
        proof {
            use_type_invariant(&*self);
        }
        let mut core = SessionCore::placeholder();
        std::mem::swap(&mut core, &mut self.core);
        core.clear_terminals();
        std::mem::swap(&mut core, &mut self.core);
    }

    /// The active terminal, if the session has one.
    pub fn active_terminal(&self) -> (t: Option<&T>)
        ensures
            self@.terminals.len() == 0 ==> t is None,
            self@.terminals.len() > 0 ==> t == Some(&self@.terminals[self@.active]),
    {
        proof {
            use_type_invariant(self);
        }
        self.core.active_terminal()
    }

    /// Makes the terminal at `index` active; out-of-range indices are ignored.
    pub fn switch_terminal(&mut self, index: usize)
        ensures
            final(self).wf(),
            index < old(self)@.terminals.len() ==> final(self)@ == (SessionView {
                active: index as int,
                ..old(self)@
            }),
            index >= old(self)@.terminals.len() ==> final(self)@ == old(self)@,
    {
        proof {
            use_type_invariant(&*self);
        }
        let mut core = SessionCore::placeholder();
        std::mem::swap(&mut core, &mut self.core);
        core.switch_terminal(index);
        std::mem::swap(&mut core, &mut self.core);
    }

    /// Makes the next terminal active, wrapping around.
    pub fn next_terminal(&mut self)
        ensures
            final(self).wf(),
            final(self)@ == (SessionView {
                active: next_index(old(self)@.active, old(self)@.terminals.len() as int),
                ..old(self)@
            }),
    {
        proof {
            use_type_invariant(&*self);
        }
        let mut core = SessionCore::placeholder();
        std::mem::swap(&mut core, &mut self.core);
        core.next_terminal();
        std::mem::swap(&mut core, &mut self.core);
    }

    /// Makes the previous terminal active, wrapping around.
    pub fn prev_terminal(&mut self)
        ensures
            final(self).wf(),
            final(self)@ == (SessionView {
                active: prev_index(old(self)@.active, old(self)@.terminals.len() as int),
                ..old(self)@
            }),
    {
        proof {
            use_type_invariant(&*self);
        }
        let mut core = SessionCore::placeholder();
        std::mem::swap(&mut core, &mut self.core);
        core.prev_terminal();
        std::mem::swap(&mut core, &mut self.core);
    }

    /// Whether the session has any terminal.
    pub fn has_terminals(&self) -> (r: bool)
        ensures
            r == (self@.terminals.len() > 0),
    {
        proof {
            use_type_invariant(self);
        }
        self.core.has_terminals()
    }

    /// The number of terminals.
    pub fn terminal_count(&self) -> (n: usize)
        ensures
            n == self@.terminals.len(),
    {
        proof {
            use_type_invariant(self);
        }
        self.core.terminal_count()
    }

    /// The session's worktree.
    pub fn worktree(&self) -> (w: &Worktree)
        ensures
            w@ == self@.worktree,
    {
        proof {
            use_type_invariant(self);
        }
        self.core.worktree()
    }

    /// The worktree's path.
    pub fn worktree_path(&self) -> (p: &str)
        ensures
            p@ == self@.worktree.path,
    {
        proof {
            use_type_invariant(self);
        }
        self.core.worktree_path()
    }

    /// Takes the branch and lock state from `updated`, a newer record of the
    /// same worktree; the name, path and main flag stay.
    pub fn update_worktree_info(&mut self, updated: &Worktree)
        requires
            same_path(old(self)@.worktree.path, updated@.path),
        ensures
            final(self)@ == with_worktree_info(old(self)@, updated@),
    {
        proof {
            use_type_invariant(&*self);
        }
        let mut core = SessionCore::placeholder();
        std::mem::swap(&mut core, &mut self.core);
        core.update_worktree_info(updated);
        std::mem::swap(&mut core, &mut self.core);
    }

    /// The display name (the worktree's name).
    pub fn name(&self) -> (n: &str)
        ensures
            n@ == self@.worktree.name,
    {
        proof {
            use_type_invariant(self);
        }
        self.core.name()
    }

    /// The branch, if the worktree has one checked out.
    pub fn branch(&self) -> (b: Option<&str>)
        ensures
            match self@.worktree.branch {
                Some(x) => b is Some && b->0@ == x,
                None => b is None,
            },
    {
        proof {
            use_type_invariant(self);
        }
        self.core.branch()
    }

    /// Whether this is the main worktree.
    pub fn is_main(&self) -> (r: bool)
        ensures
            r == self@.worktree.is_main,
    {
        proof {
            use_type_invariant(self);
        }
        self.core.is_main()
    }

    /// Whether the worktree is locked.
    pub fn is_locked(&self) -> (r: bool)
        ensures
            r == self@.worktree.locked,
    {
        proof {
            use_type_invariant(self);
        }
        self.core.is_locked()
    }

    /// The session's color.
    pub fn color(&self) -> (c: SessionColor)
        ensures
            c == self@.color,
    {
        proof {
            use_type_invariant(self);
        }
        self.core.color()
    }

    /// The session's status.
    pub fn status(&self) -> (s: SessionStatus)
        ensures
            s == self@.status,
    {
        proof {
            use_type_invariant(self);
        }
        self.core.status()
    }

    /// Whether the session is shown in parallel mode.
    pub fn is_visible_in_parallel(&self) -> (r: bool)
        ensures
            r == self@.visible,
    {
        proof {
            use_type_invariant(self);
        }
        self.core.is_visible_in_parallel()
    }

    /// Sets the status; only a session with terminals can be running or focused.
    pub(crate) fn set_status(&mut self, status: SessionStatus)
        requires
            old(self)@.terminals.len() > 0 || status == SessionStatus::Stopped,
        ensures
            final(self)@ == with_status(old(self)@, status),
            final(self).wf(),
    {
        proof {
            use_type_invariant(&*self);
        }
        let mut core = SessionCore::placeholder();
        std::mem::swap(&mut core, &mut self.core);
        core.set_status(status);
        std::mem::swap(&mut core, &mut self.core);
    }

    /// Flips the parallel visibility.
    pub(crate) fn toggle_visibility(&mut self)
        ensures
            final(self)@ == with_visible(old(self)@, !old(self)@.visible),
    {
        proof {
            use_type_invariant(&*self);
        }
        let mut core = SessionCore::placeholder();
        std::mem::swap(&mut core, &mut self.core);
        core.toggle_visibility();
        std::mem::swap(&mut core, &mut self.core);
    }

    /// Sets the parallel visibility.
    pub(crate) fn set_visible_in_parallel(&mut self, visible: bool)
        ensures
            final(self)@ == with_visible(old(self)@, visible),
    {
        proof {
            use_type_invariant(&*self);
        }
        let mut core = SessionCore::placeholder();
        std::mem::swap(&mut core, &mut self.core);
        core.set_visible_in_parallel(visible);
        std::mem::swap(&mut core, &mut self.core);
    }
}


/// The index after `i` among `len`, wrapping around (unchanged when `len` is 0).
pub open spec fn next_index(i: int, len: int) -> int {
    if len > 0 {
        (i + 1) % len
    } else {
        i
    }
}

/// The index before `i` among `len`, wrapping around (unchanged when `len` is 0).
pub open spec fn prev_index(i: int, len: int) -> int {
    if len > 0 {
        if i == 0 {
            len - 1
        } else {
            i - 1
        }
    } else {
        i
    }
}

/// Stepping back undoes stepping forward.
pub proof fn lemma_prev_undoes_next(i: int, len: int)
    requires
        0 <= i < len,
    ensures
        prev_index(next_index(i, len), len) == i,
        next_index(prev_index(i, len), len) == i,
{
    if i + 1 == len {
        assert((i + 1) % len == 0) by (nonlinear_arith)
            requires
                i + 1 == len,
                len > 0,
        ;
    } else {
        assert((i + 1) % len == i + 1) by (nonlinear_arith)
            requires
                0 <= i + 1 < len,
        ;
    }
    if i == 0 {
        assert((len - 1 + 1) % len == 0) by (nonlinear_arith)
            requires
                len > 0,
        ;
    } else {
        assert(i % len == i) by (nonlinear_arith)
            requires
                0 <= i < len,
        ;
    }
}

// ---------------------------------------------------------------------------
// Session manager
// ---------------------------------------------------------------------------

/// What a session manager is: its sessions, the active one, and the layout.
pub struct ManagerView<T> {
    pub sessions: Seq<SessionView<T>>,
    pub active: int,
    pub layout: LayoutMode,
}

/// Every session is consistent, and the active index points at a session (or
/// is 0 when there is none).
pub open spec fn manager_wf<T>(m: ManagerView<T>) -> bool {
    &&& forall|i: int| 0 <= i < m.sessions.len() ==> #[trigger] session_wf(m.sessions[i])
    &&& if m.sessions.len() == 0 {
        m.active == 0
    } else {
        0 <= m.active < m.sessions.len()
    }
}

/// The views of a list of sessions.
pub open spec fn session_views<T>(v: Seq<Session<T>>) -> Seq<SessionView<T>> {
    Seq::new(v.len(), |i: int| v[i]@)
}

/// The index of the first session whose worktree is at path `p`.
pub open spec fn find_path<T>(s: Seq<SessionView<T>>, p: Seq<char>) -> Option<int>
    decreases s.len(),
{
    if s.len() == 0 {
        None
    } else {
        match find_path(s.drop_last(), p) {
            Some(i) => Some(i),
            None => if same_path(s.last().worktree.path, p) {
                Some(s.len() - 1)
            } else {
                None
            },
        }
    }
}

/// `find_path` is the first match.
pub proof fn lemma_find_path<T>(s: Seq<SessionView<T>>, p: Seq<char>)
    ensures
        match find_path(s, p) {
            Some(i) => 0 <= i < s.len() && same_path(s[i].worktree.path, p)
                && forall|j: int| 0 <= j < i ==> !same_path(#[trigger] s[j].worktree.path, p),
            None => forall|j: int| 0 <= j < s.len() ==> !same_path(#[trigger] s[j].worktree.path, p),
        },
    decreases s.len(),
{
    if s.len() > 0 {
        lemma_find_path(s.drop_last(), p);
        assert forall|j: int| 0 <= j < s.len() - 1 implies s.drop_last()[j] == s[j] by {}
    }
}

/// The sessions for a list of worktrees, colored by position.
pub open spec fn init_sessions<T>(w: Seq<WorktreeView>) -> Seq<SessionView<T>> {
    Seq::new(w.len(), |i: int| fresh_session::<T>(w[i], i))
}

/// The manager after switching to `index` (nothing happens out of range): the
/// old active session, if it has terminals, becomes running; the new one, if
/// it has terminals, becomes focused, and is shown in parallel mode.
pub open spec fn switch_view<T>(m: ManagerView<T>, index: int) -> ManagerView<T> {
    if 0 <= index < m.sessions.len() {
        let old_s = m.sessions[m.active];
        let s1 = if old_s.terminals.len() > 0 {
            m.sessions.update(m.active, with_status(old_s, SessionStatus::Running))
        } else {
            m.sessions
        };
        let t = s1[index];
        let t1 = if t.terminals.len() > 0 {
            with_status(t, SessionStatus::Focused)
        } else {
            t
        };
        ManagerView { sessions: s1.update(index, with_visible(t1, true)), active: index, layout: m.layout }
    } else {
        m
    }
}

/// The manager after removing the session at `index`; the last session, and
/// out-of-range indices, are never removed.
pub open spec fn remove_view<T>(m: ManagerView<T>, index: int) -> ManagerView<T> {
    if 0 <= index < m.sessions.len() && m.sessions.len() > 1 {
        let rest = m.sessions.remove(index);
        let active = if index < m.active {
            m.active - 1
        } else if index == m.active && m.active >= rest.len() {
            rest.len() - 1
        } else {
            m.active
        };
        ManagerView { sessions: rest, active: active, layout: m.layout }
    } else {
        m
    }
}

/// The indices of the sessions shown in parallel mode, in order.
pub open spec fn visible_indices<T>(s: Seq<SessionView<T>>) -> Seq<int>
    decreases s.len(),
{
    if s.len() == 0 {
        Seq::empty()
    } else if s.last().visible {
        visible_indices(s.drop_last()).push(s.len() - 1)
    } else {
        visible_indices(s.drop_last())
    }
}

/// The number of sessions with at least one terminal.
pub open spec fn running_count<T>(s: Seq<SessionView<T>>) -> nat
    decreases s.len(),
{
    if s.len() == 0 {
        0
    } else {
        running_count(s.drop_last()) + if s.last().terminals.len() > 0 { 1nat } else { 0nat }
    }
}

/// The number of terminals over all sessions.
pub open spec fn terminal_total<T>(s: Seq<SessionView<T>>) -> nat
    decreases s.len(),
{
    if s.len() == 0 {
        0
    } else {
        terminal_total(s.drop_last()) + s.last().terminals.len()
    }
}

/// `t` is `s` with one terminal added, spawned in a directory at path `dir`.
pub open spec fn spawned_in<T, F: FnOnce(String) -> T>(
    s: SessionView<T>,
    t: SessionView<T>,
    spawn: F,
    dir: Seq<char>,
) -> bool {
    exists|d: String, x: T| d@ == dir && spawn.ensures((d,), x) && t == with_terminal(s, x)
}

/// The first session from `k` on that satisfies being the main worktree
/// (`main`) or else differing from `index`.
pub open spec fn first_from<T>(s: Seq<SessionView<T>>, k: int, main: bool, index: int) -> Option<int>
    decreases s.len() - k,
{
    if k < 0 || k >= s.len() {
        None
    } else if (main && s[k].worktree.is_main) || (!main && k != index) {
        Some(k)
    } else {
        first_from(s, k + 1, main, index)
    }
}

/// The session to make active before the session at `index` is deleted:
/// none unless it is the active one; then the first main-worktree session,
/// else the first other session.
pub open spec fn replacement_of<T>(m: ManagerView<T>, index: int) -> Option<int> {
    if m.active != index {
        None
    } else {
        match first_from(m.sessions, 0, true, index) {
            Some(i) => Some(i),
            None => first_from(m.sessions, 0, false, index),
        }
    }
}

/// A replacement is a session, and not the one deleted unless it is the
/// main worktree.
pub proof fn lemma_first_from<T>(s: Seq<SessionView<T>>, k: int, main: bool, index: int)
    requires
        0 <= k,
    ensures
        first_from(s, k, main, index) matches Some(i) ==> k <= i < s.len()
            && (if main { s[i].worktree.is_main } else { i != index }),
    decreases s.len() - k,
{
    if k < s.len() {
        lemma_first_from(s, k + 1, main, index);
    }
}

/// Some session from `k` on differs from `index` when at least two remain.
proof fn lemma_other_exists<T>(s: Seq<SessionView<T>>, k: int, index: int)
    requires
        0 <= k,
        k + 2 <= s.len(),
    ensures
        first_from(s, k, false, index) is Some,
    decreases s.len() - k,
{
    if k == index {
        lemma_other_exists_after(s, k + 1, index);
    }
}

/// The session at `k` is another one when `k` is not `index`.
proof fn lemma_other_exists_after<T>(s: Seq<SessionView<T>>, k: int, index: int)
    requires
        0 <= k < s.len(),
        k != index,
    ensures
        first_from(s, k, false, index) is Some,
{
}

/// When the active session is deleted and another one remains, another
/// session takes its place: a main-worktree session, or else one that is
/// not being deleted.
pub proof fn lemma_replacement_for_deletion<T>(m: ManagerView<T>, index: int)
    requires
        manager_wf(m),
        0 <= index < m.sessions.len(),
        m.active == index,
        m.sessions.len() >= 2,
    ensures
        replacement_of(m, index) matches Some(i) && 0 <= i < m.sessions.len()
            && (m.sessions[i].worktree.is_main || i != index),
{
    lemma_first_from(m.sessions, 0, true, index);
    lemma_first_from(m.sessions, 0, false, index);
    lemma_other_exists(m.sessions, 0, index);
}

/// The sessions, the active index and the layout; the manager keeps them
/// consistent.
struct ManagerCore<T> {
    sessions: Vec<Session<T>>,
    active_index: usize,
    layout_mode: LayoutMode,
}

impl<T> View for ManagerCore<T> {
    type V = ManagerView<T>;

    closed spec fn view(&self) -> ManagerView<T> {
        ManagerView {
            sessions: session_views(self.sessions@),
            active: self.active_index as int,
            layout: self.layout_mode,
        }
    }
}

impl<T> ManagerCore<T> {
    /// The manager's bookkeeping is consistent.
    pub open spec fn wf(&self) -> bool {
        manager_wf(self@)
    }

    /// An empty manager in single layout.
    pub fn new() -> (m: Self)
        ensures
            m@.sessions.len() == 0,
            m@.active == 0,
            m@.layout == LayoutMode::Single,
            m.wf(),
    {
        let m = ManagerCore { sessions: Vec::new(), active_index: 0, layout_mode: LayoutMode::Single };
        assert(m@.sessions =~= Seq::<SessionView<T>>::empty());
        m
    }

    /// Replaces the sessions with one per worktree, in order, none with a
    /// terminal; the first becomes active.
    pub fn init_from_worktrees(&mut self, worktrees: Vec<Worktree>)
        ensures
            final(self)@.sessions == init_sessions::<T>(worktree_views(worktrees@)),
            final(self)@.active == 0,
            final(self)@.layout == old(self)@.layout,
            final(self).wf(),
    {
        self.sessions.clear();
        let ghost wv = worktree_views(worktrees@);
        let mut i: usize = 0;
        while i < worktrees.len()
            invariant
                i <= worktrees@.len(),
                wv == worktree_views(worktrees@),
                self.layout_mode == old(self).layout_mode,
                session_views(self.sessions@) =~= init_sessions::<T>(wv.take(i as int)),
            decreases worktrees@.len() - i,
        {
            let w = copy_worktree(&worktrees[i]);
            assert(w@ == wv[i as int]);
            let s = Session::new(w, i);
            let ghost prev = self.sessions@;
            self.sessions.push(s);
            i += 1;
            assert(self.sessions@ == prev.push(s));
            assert(session_views(self.sessions@).last() == fresh_session::<T>(wv[i - 1], i - 1));
            assert(session_views(self.sessions@).drop_last() =~= session_views(prev));
            assert forall|j: int| 0 <= j < i implies session_views(self.sessions@)[j]
                == init_sessions::<T>(wv.take(i as int))[j] by {
                if j < i - 1 {
                    assert(session_views(self.sessions@)[j] == session_views(prev)[j]);
                    assert(session_views(prev)[j] == init_sessions::<T>(wv.take(i - 1))[j]);
                }
            }
            assert(session_views(self.sessions@) =~= init_sessions::<T>(wv.take(i as int)));
        }
        assert(wv.take(i as int) =~= wv);
        self.active_index = 0;
    }

    /// Index of the first session whose worktree is at `path`.
    pub fn find_session_by_path(&self, path: &str) -> (r: Option<usize>)
        ensures
            match r {
                Some(i) => find_path(self@.sessions, path@) == Some(i as int),
                None => find_path(self@.sessions, path@) is None,
            },
    {
        let p = chars_of(path);
        let mut i: usize = 0;
        while i < self.sessions.len()
            invariant
                i <= self.sessions@.len(),
                p@ == path@,
                forall|j: int| 0 <= j < i ==> !same_path(#[trigger] self@.sessions[j].worktree.path, path@),
            decreases self.sessions@.len() - i,
        {
            let q = chars_of(self.sessions[i].worktree_path());
            assert(self@.sessions[i as int] == self.sessions@[i as int]@);
            if path_eq(&q, &p) {
                assert(same_path(self@.sessions[i as int].worktree.path, path@));
                proof {
                    lemma_find_path(self@.sessions, path@);
                    match find_path(self@.sessions, path@) {
                        Some(k) => {
                            if k < i {
                                assert(!same_path(self@.sessions[k].worktree.path, path@));
                            }
                        },
                        None => {},
                    }
                }
                return Some(i);
            }
            i += 1;
        }
        proof {
            lemma_find_path(self@.sessions, path@);
        }
        None
    }

    /// Adds a session for `worktree` unless one with the same path exists;
    /// returns whether it was added.
    pub fn add_session(&mut self, worktree: Worktree) -> (added: bool)
        requires
            old(self).wf(),
        ensures
            added == (find_path(old(self)@.sessions, worktree@.path) is None),
            added ==> final(self)@ == (ManagerView {
                sessions: old(self)@.sessions.push(
                    fresh_session::<T>(worktree@, old(self)@.sessions.len() as int),
                ),
                ..old(self)@
            }),
            !added ==> final(self)@ == old(self)@,
            final(self).wf(),
    {
        if self.find_session_by_path(worktree.path.as_str()).is_some() {
            return false;
        }
        let index = self.sessions.len();
        let session = Session::new(worktree, index);
        self.sessions.push(session);
        assert(self@.sessions =~= old(self)@.sessions.push(fresh_session::<T>(worktree@, index as int)));
        true
    }

    /// Takes the branch and lock state of `updated` into the session with the
    /// same path; returns whether there was one.
    pub fn update_session_worktree(&mut self, updated: &Worktree) -> (found: bool)
        requires
            old(self).wf(),
        ensures
            found == (find_path(old(self)@.sessions, updated@.path) is Some),
            match find_path(old(self)@.sessions, updated@.path) {
                Some(i) => final(self)@ == (ManagerView {
                    sessions: old(self)@.sessions.update(
                        i,
                        with_worktree_info(old(self)@.sessions[i], updated@),
                    ),
                    ..old(self)@
                }),
                None => final(self)@ == old(self)@,
            },
            final(self).wf(),
    {
        match self.find_session_by_path(updated.path.as_str()) {
            Some(index) => {
                proof {
                    lemma_find_path(self@.sessions, updated@.path);
                }
                let ghost prev = self.sessions@;
                assert(prev[index as int]@ == self@.sessions[index as int]);
                assert(session_wf(old(self)@.sessions[index as int]));
                self.sessions[index].update_worktree_info(updated);
                proof {
                    lemma_views_update(prev, index as int, self.sessions@[index as int]);
                }
                assert(session_wf(self@.sessions[index as int]));
                proof {
                    lemma_wf_update(old(self)@, index as int, self@.sessions[index as int]);
                }
                true
            },
            None => false,
        }
    }

    /// Removes all terminals of the session at `index` (ignored out of range).
    pub fn clear_session_terminals(&mut self, index: usize)
        requires
            old(self).wf(),
        ensures
            index < old(self)@.sessions.len() ==> final(self)@ == (ManagerView {
                sessions: old(self)@.sessions.update(
                    index as int,
                    SessionView {
                        terminals: Seq::<T>::empty(),
                        active: 0,
                        status: SessionStatus::Stopped,
                        ..old(self)@.sessions[index as int]
                    },
                ),
                ..old(self)@
            }),
            index >= old(self)@.sessions.len() ==> final(self)@ == old(self)@,
            final(self).wf(),
    {
        if index < self.sessions.len() {
            let ghost prev = self.sessions@;
            assert(session_wf(self@.sessions[index as int]));
            assert(prev[index as int]@ == self@.sessions[index as int]);
            self.sessions[index].clear_terminals();
            proof {
                lemma_views_update(prev, index as int, self.sessions@[index as int]);
                lemma_wf_update(old(self)@, index as int, self@.sessions[index as int]);
            }
        }
    }
}

/// Replacing one consistent session by another keeps the manager consistent.
pub proof fn lemma_wf_update<T>(m: ManagerView<T>, i: int, x: SessionView<T>)
    requires
        manager_wf(m),
        0 <= i < m.sessions.len(),
        session_wf(x),
    ensures
        manager_wf(ManagerView { sessions: m.sessions.update(i, x), ..m }),
{
    let s2 = m.sessions.update(i, x);
    assert forall|j: int| 0 <= j < s2.len() implies #[trigger] session_wf(s2[j]) by {
        if j != i {
            assert(session_wf(m.sessions[j]));
        }
    }
}

impl<T> ManagerCore<T> {
    /// Starts a terminal in the worktree's directory for the session at
    /// `index` if it has none (ignored out of range).
    pub fn ensure_session_terminal<F: FnOnce(String) -> T>(&mut self, index: usize, spawn: F)
        requires
            old(self).wf(),
            forall|dir: String| spawn.requires((dir,)),
        ensures
            final(self).wf(),
            index >= old(self)@.sessions.len() || old(self)@.sessions[index as int].terminals.len() > 0
                ==> final(self)@ == old(self)@,
            index < old(self)@.sessions.len() && old(self)@.sessions[index as int].terminals.len() == 0
                ==> final(self)@ == (ManagerView {
                    sessions: old(self)@.sessions.update(index as int, final(self)@.sessions[index as int]),
                    ..old(self)@
                }) && spawned_in(
                    old(self)@.sessions[index as int],
                    final(self)@.sessions[index as int],
                    spawn,
                    old(self)@.sessions[index as int].worktree.path,
                ),
    {
        if index < self.sessions.len() {
            let ghost prev = self.sessions@;
            assert(prev[index as int]@ == self@.sessions[index as int]);
            assert(session_wf(self@.sessions[index as int]));
            self.sessions[index].ensure_terminal(spawn);
            proof {
                lemma_views_update(prev, index as int, self.sessions@[index as int]);
                lemma_wf_update(old(self)@, index as int, self@.sessions[index as int]);
                if old(self)@.sessions[index as int].terminals.len() > 0 {
                    assert(self@.sessions =~= old(self)@.sessions);
                }
            }
        }
    }

    /// Starts a terminal for the active session if it has none.
    pub fn ensure_active_session_terminal<F: FnOnce(String) -> T>(&mut self, spawn: F)
        requires
            old(self).wf(),
            forall|dir: String| spawn.requires((dir,)),
        ensures
            final(self).wf(),
            old(self)@.sessions.len() == 0 || old(self)@.sessions[old(self)@.active].terminals.len() > 0
                ==> final(self)@ == old(self)@,
            old(self)@.sessions.len() > 0 && old(self)@.sessions[old(self)@.active].terminals.len() == 0
                ==> final(self)@ == (ManagerView {
                    sessions: old(self)@.sessions.update(old(self)@.active, final(self)@.sessions[old(self)@.active]),
                    ..old(self)@
                }) && spawned_in(
                    old(self)@.sessions[old(self)@.active],
                    final(self)@.sessions[old(self)@.active],
                    spawn,
                    old(self)@.sessions[old(self)@.active].worktree.path,
                ),
    {
        let a = self.active_index;
        self.ensure_session_terminal(a, spawn);
    }

    /// Starts a terminal in `directory` for the active session if it has none.
    pub fn ensure_active_session_terminal_in<F: FnOnce(String) -> T>(&mut self, directory: String, spawn: F)
        requires
            old(self).wf(),
            spawn.requires((directory,)),
        ensures
            final(self).wf(),
            old(self)@.sessions.len() == 0 || old(self)@.sessions[old(self)@.active].terminals.len() > 0
                ==> final(self)@ == old(self)@,
            old(self)@.sessions.len() > 0 && old(self)@.sessions[old(self)@.active].terminals.len() == 0
                ==> final(self)@ == (ManagerView {
                    sessions: old(self)@.sessions.update(old(self)@.active, final(self)@.sessions[old(self)@.active]),
                    ..old(self)@
                }) && spawned_in(
                    old(self)@.sessions[old(self)@.active],
                    final(self)@.sessions[old(self)@.active],
                    spawn,
                    directory@,
                ),
    {
        let index = self.active_index;
        if index < self.sessions.len() {
            if !self.sessions[index].has_terminals() {
                let ghost prev = self.sessions@;
                assert(prev[index as int]@ == self@.sessions[index as int]);
                assert(session_wf(self@.sessions[index as int]));
                let ghost d = directory;
                self.sessions[index].add_terminal_in_directory(directory, spawn);
                proof {
                    lemma_views_update(prev, index as int, self.sessions@[index as int]);
                    lemma_wf_update(old(self)@, index as int, self@.sessions[index as int]);
                    let x = choose|x: T| spawn.ensures((d,), x)
                        && self@.sessions[index as int] == with_terminal(old(self)@.sessions[index as int], x);
                    assert(d@ == directory@ && spawn.ensures((d,), x)
                        && self@.sessions[index as int] == with_terminal(old(self)@.sessions[index as int], x));
                }
            }
        }
    }

    /// Adds a terminal, started in the worktree's directory, to the session at
    /// `index` and makes it active there (ignored out of range).
    pub fn add_terminal_to_session<F: FnOnce(String) -> T>(&mut self, index: usize, spawn: F)
        requires
            old(self).wf(),
            forall|dir: String| spawn.requires((dir,)),
        ensures
            final(self).wf(),
            index >= old(self)@.sessions.len() ==> final(self)@ == old(self)@,
            index < old(self)@.sessions.len() ==> final(self)@ == (ManagerView {
                sessions: old(self)@.sessions.update(index as int, final(self)@.sessions[index as int]),
                ..old(self)@
            }) && spawned_in(
                old(self)@.sessions[index as int],
                final(self)@.sessions[index as int],
                spawn,
                old(self)@.sessions[index as int].worktree.path,
            ),
    {
        if index < self.sessions.len() {
            let ghost prev = self.sessions@;
            assert(prev[index as int]@ == self@.sessions[index as int]);
            assert(session_wf(self@.sessions[index as int]));
            self.sessions[index].add_terminal(spawn);
            proof {
                lemma_views_update(prev, index as int, self.sessions@[index as int]);
                lemma_wf_update(old(self)@, index as int, self@.sessions[index as int]);
            }
        }
    }

    /// Adds a terminal to the active session.
    pub fn add_terminal_to_active_session<F: FnOnce(String) -> T>(&mut self, spawn: F)
        requires
            old(self).wf(),
            forall|dir: String| spawn.requires((dir,)),
        ensures
            final(self).wf(),
            old(self)@.sessions.len() == 0 ==> final(self)@ == old(self)@,
            old(self)@.sessions.len() > 0 ==> final(self)@ == (ManagerView {
                sessions: old(self)@.sessions.update(old(self)@.active, final(self)@.sessions[old(self)@.active]),
                ..old(self)@
            }) && spawned_in(
                old(self)@.sessions[old(self)@.active],
                final(self)@.sessions[old(self)@.active],
                spawn,
                old(self)@.sessions[old(self)@.active].worktree.path,
            ),
    {
        let a = self.active_index;
        self.add_terminal_to_session(a, spawn);
    }

    /// Brings the sessions in line with the repository's worktrees: sessions
    /// whose worktree is gone are removed, worktrees without a session get a
    /// new one at the end, and existing sessions take the branch and lock
    /// state of their worktree. Returns how many sessions were added, removed
    /// and updated.
    pub fn sync_with_worktrees(&mut self, worktrees: Vec<Worktree>) -> (r: (usize, usize, usize))
        requires
            old(self).wf(),
        ensures
            final(self)@.sessions == merged(
                kept(old(self)@.sessions, worktree_views(worktrees@)),
                worktree_views(worktrees@),
            ),
            final(self)@.active == synced_active(old(self)@.sessions, old(self)@.active, worktree_views(worktrees@)),
            final(self)@.layout == old(self)@.layout,
            r.0 == merge_added(kept(old(self)@.sessions, worktree_views(worktrees@)), worktree_views(worktrees@)),
            r.1 == old(self)@.sessions.len() - kept(old(self)@.sessions, worktree_views(worktrees@)).len(),
            r.2 == worktrees@.len() - r.0,
            final(self).wf(),
    {
        let ghost w = worktree_views(worktrees@);
        let ghost s0 = self@.sessions;
        let ghost a0 = self@.active;
        let mut added: usize = 0;
        let mut removed: usize = 0;
        let mut updated: usize = 0;
        proof {
            lemma_kept_wf(s0, w);
            lemma_synced_active_bound(s0, a0, w);
            assert(s0.skip(s0.len() as int) =~= Seq::<SessionView<T>>::empty());
            assert(kept(s0.skip(s0.len() as int), w) == s0.skip(s0.len() as int));
            assert(s0.take(s0.len() as int) =~= s0);
            assert(self@.sessions =~= s0.take(s0.len() as int) + kept(s0.skip(s0.len() as int), w));
        }
        let mut i = self.sessions.len();
        assert(s0.len() == i);
        while i > 0
            invariant
                w == worktree_views(worktrees@),
                s0.len() <= usize::MAX,
                s0 == old(self)@.sessions,
                a0 == old(self)@.active,
                manager_wf(old(self)@),
                i <= s0.len(),
                self@.sessions == s0.take(i as int) + kept(s0.skip(i as int), w),
                removed == (s0.len() - i) - kept(s0.skip(i as int), w).len(),
                kept(s0.skip(i as int), w).len() <= s0.len() - i,
                self@.layout == old(self)@.layout,
                i > a0 || s0.len() == 0 ==> self@.active == a0,
                i <= a0 && s0.len() > 0 ==> self@.active == removal_active(s0, a0, i as int, w),
            decreases i,
        {
            i -= 1;
            let ghost j = i as int;
            let ghost cur = self@.sessions;
            proof {
                lemma_kept_skip_step(s0, j, w);
                lemma_kept_one(s0[j], w);
                assert(cur[j] == s0[j]);
                if j <= a0 {
                    lemma_kept_split(s0, j, a0, w);
                    lemma_kept_one(s0[a0], w);
                    if j < a0 {
                        lemma_kept_split(s0, j + 1, a0, w);
                        lemma_kept_range_step(s0, j, a0, w);
                    } else {
                        assert(s0.subrange(j, a0) =~= Seq::<SessionView<T>>::empty());
                        assert(kept(s0.subrange(j, a0), w) == s0.subrange(j, a0));
                        assert(s0.skip(j + 1) == s0.skip(a0 + 1));
                    }
                }
            }
            assert(cur.len() == self.sessions@.len());
            assert(cur.len() >= j + 1);
            assert(self.sessions@[i as int]@ == cur[j]);
            let keep = contains_worktree_path(&worktrees, self.sessions[i].worktree_path());
            if keep {
                assert(self@.sessions =~= s0.take(j) + kept(s0.skip(j), w));
            } else {
                let ghost prev = self.sessions@;
                self.sessions.remove(i);
                proof {
                    lemma_views_remove(prev, j);
                }
                assert(self@.sessions =~= s0.take(j) + kept(s0.skip(j), w));
                removed += 1;
                if i < self.active_index {
                    self.active_index -= 1;
                } else if i == self.active_index && self.active_index >= self.sessions.len() {
                    self.active_index = self.sessions.len().saturating_sub(1);
                }
            }
        }
        proof {
            assert(s0.take(0) =~= Seq::<SessionView<T>>::empty());
            assert(s0.skip(0) =~= s0);
            assert(self@.sessions =~= kept(s0, w));
            if s0.len() > 0 {
                assert(s0.subrange(0, a0) =~= s0.take(a0));
            } else {
                assert(s0.take(a0) =~= s0);
            }
        }
        let ghost k0 = self@.sessions;
        let ghost act = self@.active;
        let mut k: usize = 0;
        while k < worktrees.len()
            invariant
                w == worktree_views(worktrees@),
                k <= w.len(),
                self@.sessions == merged(k0, w.take(k as int)),
                added == merge_added(k0, w.take(k as int)),
                added <= k,
                updated == k - added,
                self@.active == act,
                self@.layout == old(self)@.layout,
            decreases w.len() - k,
        {
            let ghost before = self@.sessions;
            assert(w.take(k + 1).drop_last() =~= w.take(k as int));
            assert(w.take(k + 1).last() == worktrees@[k as int]@);
            match self.find_session_by_path(worktrees[k].path.as_str()) {
                Some(idx) => {
                    proof {
                        lemma_find_path(before, worktrees@[k as int]@.path);
                    }
                    let ghost prev = self.sessions@;
                    assert(prev[idx as int]@ == before[idx as int]);
                    self.sessions[idx].update_worktree_info(&worktrees[k]);
                    proof {
                        lemma_views_update(prev, idx as int, self.sessions@[idx as int]);
                    }
                    updated += 1;
                },
                None => {
                    let wt = copy_worktree(&worktrees[k]);
                    let n = self.sessions.len();
                    let ghost prev = self.sessions@;
                    self.sessions.push(Session::new(wt, n));
                    assert(self@.sessions =~= before.push(fresh_session::<T>(worktrees@[k as int]@, n as int)));
                    added += 1;
                },
            }
            k += 1;
        }
        proof {
            assert(w.take(k as int) =~= w);
            lemma_merged_wf(k0, w);
        }
        (added, removed, updated)
    }

    /// Removes the session at `index`; the last remaining session and
    /// out-of-range indices are left alone. The active index follows the
    /// active session, or moves to its neighbour when it was the one removed.
    pub fn remove_session(&mut self, index: usize)
        requires
            old(self).wf(),
        ensures
            final(self)@ == remove_view(old(self)@, index as int),
            final(self).wf(),
    {
        if index < self.sessions.len() && self.sessions.len() > 1 {
            let ghost prev = self.sessions@;
            self.sessions.remove(index);
            proof {
                lemma_views_remove(prev, index as int);
            }
            if index < self.active_index {
                self.active_index -= 1;
            } else if index == self.active_index {
                if self.active_index >= self.sessions.len() {
                    self.active_index = self.sessions.len() - 1;
                }
            }
            proof {
                let s2 = self@.sessions;
                assert forall|j: int| 0 <= j < s2.len() implies #[trigger] session_wf(s2[j]) by {
                    if j < index {
                        assert(s2[j] == old(self)@.sessions[j]);
                    } else {
                        assert(s2[j] == old(self)@.sessions[j + 1]);
                    }
                }
            }
        }
    }

    /// All sessions, in order.
    pub fn sessions(&self) -> (s: &[Session<T>])
        ensures
            session_views(s@) == self@.sessions,
    {
        self.sessions.as_slice()
    }

    /// The active session, if there is any session.
    pub fn active_session(&self) -> (s: Option<&Session<T>>)
        requires
            self.wf(),
        ensures
            self@.sessions.len() == 0 ==> s is None,
            self@.sessions.len() > 0 ==> s is Some && s->0@ == self@.sessions[self@.active],
    {
        if self.active_index < self.sessions.len() {
            Some(&self.sessions[self.active_index])
        } else {
            None
        }
    }

    /// The active terminal of the active session, if there is one.
    pub fn active_terminal(&self) -> (t: Option<T>)
        where T: Clone,
        requires
            self.wf(),
        ensures
            self@.sessions.len() == 0 || self@.sessions[self@.active].terminals.len() == 0 ==> t is None,
            self@.sessions.len() > 0 && self@.sessions[self@.active].terminals.len() > 0 ==> t is Some
                && cloned(
                    self@.sessions[self@.active].terminals[self@.sessions[self@.active].active],
                    t->0,
                ),
    {
        self.get_session_active_terminal(self.active_index)
    }

    /// The active terminal of the session at `index`, if there is one.
    pub fn get_session_active_terminal(&self, index: usize) -> (t: Option<T>)
        where T: Clone,
        requires
            self.wf(),
        ensures
            index >= self@.sessions.len() || self@.sessions[index as int].terminals.len() == 0 ==> t is None,
            index < self@.sessions.len() && self@.sessions[index as int].terminals.len() > 0 ==> t is Some
                && cloned(
                    self@.sessions[index as int].terminals[self@.sessions[index as int].active],
                    t->0,
                ),
    {
        if index < self.sessions.len() {
            assert(self.sessions@[index as int]@ == self@.sessions[index as int]);
            assert(session_wf(self@.sessions[index as int]));
            match self.sessions[index].active_terminal() {
                Some(t) => Some(t.clone()),
                None => None,
            }
        } else {
            None
        }
    }

    /// Switches to the session at `index` (ignored out of range), updating
    /// statuses and showing it in parallel mode.
    pub fn switch_to(&mut self, index: usize)
        requires
            old(self).wf(),
        ensures
            final(self)@ == switch_view(old(self)@, index as int),
            final(self).wf(),
    {
        if index < self.sessions.len() {
            let a = self.active_index;
            let ghost p0 = self.sessions@;
            assert(p0[a as int]@ == self@.sessions[a as int]);
            assert(session_wf(self@.sessions[a as int]));
            if self.sessions[a].has_terminals() {
                self.sessions[a].set_status(SessionStatus::Running);
                proof {
                    lemma_views_update(p0, a as int, self.sessions@[a as int]);
                    lemma_wf_update(old(self)@, a as int, self@.sessions[a as int]);
                }
            }
            let ghost m1 = self@;
            let ghost p1 = self.sessions@;
            self.active_index = index;
            assert(p1[index as int]@ == self@.sessions[index as int]);
            assert(session_wf(self@.sessions[index as int]));
            if self.sessions[index].has_terminals() {
                self.sessions[index].set_status(SessionStatus::Focused);
                proof {
                    lemma_views_update(p1, index as int, self.sessions@[index as int]);
                }
            }
            let ghost p2 = self.sessions@;
            assert(p2[index as int]@ == self@.sessions[index as int]);
            self.sessions[index].set_visible_in_parallel(true);
            proof {
                lemma_views_update(p2, index as int, self.sessions@[index as int]);
                lemma_views_update(p1, index as int, self.sessions@[index as int]);
                assert(self@.sessions =~= m1.sessions.update(index as int, self@.sessions[index as int]));
                lemma_wf_update(ManagerView { active: index as int, ..m1 }, index as int, self@.sessions[index as int]);
            }
        }
    }

    /// Switches to the next session, wrapping around.
    pub fn next_session(&mut self)
        requires
            old(self).wf(),
        ensures
            final(self)@ == switch_view(old(self)@, next_index(old(self)@.active, old(self)@.sessions.len() as int)),
            final(self).wf(),
    {
        if self.sessions.len() > 0 {
            let next = (self.active_index + 1) % self.sessions.len();
            self.switch_to(next);
        } else {
            assert(switch_view(old(self)@, next_index(old(self)@.active, 0)) == old(self)@);
        }
    }

    /// Switches to the previous session, wrapping around.
    pub fn prev_session(&mut self)
        requires
            old(self).wf(),
        ensures
            final(self)@ == switch_view(old(self)@, prev_index(old(self)@.active, old(self)@.sessions.len() as int)),
            final(self).wf(),
    {
        if self.sessions.len() > 0 {
            let prev = if self.active_index == 0 {
                self.sessions.len() - 1
            } else {
                self.active_index - 1
            };
            self.switch_to(prev);
        }
    }

    /// The active session's index.
    pub fn active_index(&self) -> (i: usize)
        ensures
            i == self@.active,
    {
        self.active_index
    }

    /// The layout mode.
    pub fn layout_mode(&self) -> (m: LayoutMode)
        ensures
            m == self@.layout,
    {
        self.layout_mode
    }

    /// Toggles between single and parallel layout.
    pub fn toggle_layout_mode(&mut self)
        requires
            old(self).wf(),
        ensures
            final(self)@ == (ManagerView { layout: toggled(old(self)@.layout), ..old(self)@ }),
            final(self).wf(),
    {
        self.layout_mode = match self.layout_mode {
            LayoutMode::Single => LayoutMode::Parallel,
            LayoutMode::Parallel => LayoutMode::Single,
        };
    }

    /// Toggles whether the session at `index` is shown in parallel mode
    /// (ignored out of range).
    pub fn toggle_parallel_visibility(&mut self, index: usize)
        requires
            old(self).wf(),
        ensures
            index < old(self)@.sessions.len() ==> final(self)@ == (ManagerView {
                sessions: old(self)@.sessions.update(
                    index as int,
                    with_visible(old(self)@.sessions[index as int], !old(self)@.sessions[index as int].visible),
                ),
                ..old(self)@
            }),
            index >= old(self)@.sessions.len() ==> final(self)@ == old(self)@,
            final(self).wf(),
    {
        if index < self.sessions.len() {
            let ghost prev = self.sessions@;
            assert(prev[index as int]@ == self@.sessions[index as int]);
            assert(session_wf(self@.sessions[index as int]));
            self.sessions[index].toggle_visibility();
            proof {
                lemma_views_update(prev, index as int, self.sessions@[index as int]);
                lemma_wf_update(old(self)@, index as int, self@.sessions[index as int]);
            }
        }
    }

    /// The sessions shown in parallel mode, with their indices, in order.
    pub fn parallel_sessions(&self) -> (r: Vec<(usize, &Session<T>)>)
        ensures
            r@.len() == visible_indices(self@.sessions).len(),
            forall|k: int| 0 <= k < r@.len() ==> (#[trigger] r@[k]).0 == visible_indices(self@.sessions)[k]
                && r@[k].1@ == self@.sessions[r@[k].0 as int],
    {
        let mut r: Vec<(usize, &Session<T>)> = Vec::new();
        let mut i: usize = 0;
        while i < self.sessions.len()
            invariant
                i <= self.sessions@.len(),
                r@.len() == visible_indices(self@.sessions.take(i as int)).len(),
                forall|k: int| 0 <= k < r@.len() ==> (#[trigger] r@[k]).0 == visible_indices(self@.sessions.take(i as int))[k]
                    && r@[k].1@ == self@.sessions[r@[k].0 as int],
            decreases self.sessions@.len() - i,
        {
            let ghost before = self@.sessions.take(i as int);
            assert(self@.sessions.take(i + 1).drop_last() =~= before);
            assert(self.sessions@[i as int]@ == self@.sessions[i as int]);
            if self.sessions[i].is_visible_in_parallel() {
                r.push((i, &self.sessions[i]));
            }
            i += 1;
        }
        assert(self@.sessions.take(i as int) =~= self@.sessions);
        r
    }

    /// Whether there is no session.
    pub fn is_empty(&self) -> (r: bool)
        ensures
            r == (self@.sessions.len() == 0),
    {
        self.sessions.len() == 0
    }

    /// The number of sessions.
    pub fn len(&self) -> (n: usize)
        ensures
            n == self@.sessions.len(),
    {
        self.sessions.len()
    }

    /// The session to make active before the session at `index` is deleted.
    pub fn replacement_for_deletion(&self, index: usize) -> (r: Option<usize>)
        ensures
            match replacement_of(self@, index as int) {
                Some(i) => r == Some(i as usize),
                None => r is None,
            },
    {
        if self.active_index != index {
            return None;
        }
        assert(self@.active == index);
        let ghost s = self@.sessions;
        let mut k: usize = 0;
        while k < self.sessions.len()
            invariant
                k <= s.len(),
                s == self@.sessions,
                self@.active == index,
                first_from(s, 0, true, index as int) == first_from(s, k as int, true, index as int),
            decreases s.len() - k,
        {
            assert(self.sessions@[k as int]@ == s[k as int]);
            if self.sessions[k].is_main() {
                return Some(k);
            }
            k += 1;
        }
        let mut j: usize = 0;
        while j < self.sessions.len()
            invariant
                j <= s.len(),
                s == self@.sessions,
                self@.active == index,
                first_from(s, 0, true, index as int) is None,
                first_from(s, 0, false, index as int) == first_from(s, j as int, false, index as int),
            decreases s.len() - j,
        {
            if j != index {
                return Some(j);
            }
            j += 1;
        }
        None
    }

    /// The name and path of the worktree that deleting session `index`
    /// removes; none when there is no such session or it is the main
    /// worktree, which is never deleted.
    pub fn deletable_worktree(&self, index: usize) -> (r: Option<(String, String)>)
        ensures
            if index < self@.sessions.len() && !self@.sessions[index as int].worktree.is_main {
                r matches Some((n, p)) && n@ == self@.sessions[index as int].worktree.name
                    && p@ == self@.sessions[index as int].worktree.path
            } else {
                r is None
            },
    {
        if index >= self.sessions.len() {
            return None;
        }
        assert(self.sessions@[index as int]@ == self@.sessions[index as int]);
        let session = &self.sessions[index];
        if session.is_main() {
            return None;
        }
        Some((session.name().to_owned(), session.worktree_path().to_owned()))
    }

    /// The number of sessions with at least one terminal.
    pub fn running_session_count(&self) -> (n: usize)
        ensures
            n == running_count(self@.sessions),
    {
        let mut n: usize = 0;
        let mut i: usize = 0;
        while i < self.sessions.len()
            invariant
                i <= self.sessions@.len(),
                n == running_count(self@.sessions.take(i as int)),
                n <= i,
            decreases self.sessions@.len() - i,
        {
            assert(self@.sessions.take(i + 1).drop_last() =~= self@.sessions.take(i as int));
            assert(self.sessions@[i as int]@ == self@.sessions[i as int]);
            if self.sessions[i].has_terminals() {
                n += 1;
            }
            i += 1;
        }
        assert(self@.sessions.take(i as int) =~= self@.sessions);
        n
    }

    /// The number of terminals over all sessions.
    pub fn total_terminal_count(&self) -> (n: usize)
        requires
            terminal_total(self@.sessions) <= usize::MAX,
        ensures
            n == terminal_total(self@.sessions),
    {
        let mut n: usize = 0;
        let mut i: usize = 0;
        while i < self.sessions.len()
            invariant
                i <= self.sessions@.len(),
                n == terminal_total(self@.sessions.take(i as int)),
                terminal_total(self@.sessions) <= usize::MAX,
            decreases self.sessions@.len() - i,
        {
            assert(self@.sessions.take(i + 1).drop_last() =~= self@.sessions.take(i as int));
            assert(self.sessions@[i as int]@ == self@.sessions[i as int]);
            proof {
                lemma_terminal_total_prefix(self@.sessions, i + 1);
            }
            n += self.sessions[i].terminal_count();
            i += 1;
        }
        assert(self@.sessions.take(i as int) =~= self@.sessions);
        n
    }
}

/// Manages all sessions (one per worktree). Its bookkeeping is always
/// consistent: the manager's type invariant is [`manager_wf`] of its view.
pub struct SessionManager<T> {
    core: ManagerCore<T>,
}

impl<T> View for SessionManager<T> {
    type V = ManagerView<T>;

    closed spec fn view(&self) -> ManagerView<T> {
        self.core@
    }
}

impl<T> Default for SessionManager<T> {
    fn default() -> (m: SessionManager<T>)
        ensures
            m@.sessions.len() == 0,
            m@.active == 0,
            m@.layout == LayoutMode::Single,
            m.wf(),
    {
        SessionManager::new()
    }
}

impl<T> SessionManager<T> {
    /// What every manager keeps: its bookkeeping is consistent.
    #[verifier::type_invariant]
    closed spec fn consistent(self) -> bool {
        self.core.wf()
    }

    /// The manager's bookkeeping is consistent (always so, by its type
    /// invariant).
    pub open spec fn wf(&self) -> bool {
        manager_wf(self@)
    }

    /// An empty manager in single layout.
    pub fn new() -> (m: Self)
        ensures
            m@.sessions.len() == 0,
            m@.active == 0,
            m@.layout == LayoutMode::Single,
            m.wf(),
    {
        SessionManager { core: ManagerCore::new() }
    }

    /// Replaces the sessions with one per worktree, in order, none with a
    /// terminal; the first becomes active.
    pub fn init_from_worktrees(&mut self, worktrees: Vec<Worktree>)
        ensures
            final(self)@.sessions == init_sessions::<T>(worktree_views(worktrees@)),
            final(self)@.active == 0,
            final(self)@.layout == old(self)@.layout,
            final(self).wf(),
    {
        proof {
            use_type_invariant(&*self);
        }
        let mut core = ManagerCore::new();
        std::mem::swap(&mut core, &mut self.core);
        core.init_from_worktrees(worktrees);
        std::mem::swap(&mut core, &mut self.core);
    }

    /// Index of the first session whose worktree is at `path`.
    pub fn find_session_by_path(&self, path: &str) -> (r: Option<usize>)
        ensures
            match r {
                Some(i) => find_path(self@.sessions, path@) == Some(i as int),
                None => find_path(self@.sessions, path@) is None,
            },
    {
        proof {
            use_type_invariant(self);
        }
        self.core.find_session_by_path(path)
    }

    /// Adds a session for `worktree` unless one with the same path exists;
    /// returns whether it was added.
    pub fn add_session(&mut self, worktree: Worktree) -> (added: bool)
        ensures
            added == (find_path(old(self)@.sessions, worktree@.path) is None),
            added ==> final(self)@ == (ManagerView {
                sessions: old(self)@.sessions.push(
                    fresh_session::<T>(worktree@, old(self)@.sessions.len() as int),
                ),
                ..old(self)@
            }),
            !added ==> final(self)@ == old(self)@,
            final(self).wf(),
    {
        proof {
            use_type_invariant(&*self);
        }
        let mut core = ManagerCore::new();
        std::mem::swap(&mut core, &mut self.core);
        let r = core.add_session(worktree);
        std::mem::swap(&mut core, &mut self.core);
        r
    }

    /// Takes the branch and lock state of `updated` into the session with the
    /// same path; returns whether there was one.
    pub fn update_session_worktree(&mut self, updated: &Worktree) -> (found: bool)
        ensures
            found == (find_path(old(self)@.sessions, updated@.path) is Some),
            match find_path(old(self)@.sessions, updated@.path) {
                Some(i) => final(self)@ == (ManagerView {
                    sessions: old(self)@.sessions.update(
                        i,
                        with_worktree_info(old(self)@.sessions[i], updated@),
                    ),
                    ..old(self)@
                }),
                None => final(self)@ == old(self)@,
            },
            final(self).wf(),
    {
        proof {
            use_type_invariant(&*self);
        }
        let mut core = ManagerCore::new();
        std::mem::swap(&mut core, &mut self.core);
        let r = core.update_session_worktree(updated);
        std::mem::swap(&mut core, &mut self.core);
        r
    }

    /// Removes all terminals of the session at `index` (ignored out of range).
    pub fn clear_session_terminals(&mut self, index: usize)
        ensures
            index < old(self)@.sessions.len() ==> final(self)@ == (ManagerView {
                sessions: old(self)@.sessions.update(
                    index as int,
                    SessionView {
                        terminals: Seq::<T>::empty(),
                        active: 0,
                        status: SessionStatus::Stopped,
                        ..old(self)@.sessions[index as int]
                    },
                ),
                ..old(self)@
            }),
            index >= old(self)@.sessions.len() ==> final(self)@ == old(self)@,
            final(self).wf(),
    {
        proof {
            use_type_invariant(&*self);
        }
        let mut core = ManagerCore::new();
        std::mem::swap(&mut core, &mut self.core);
        core.clear_session_terminals(index);
        std::mem::swap(&mut core, &mut self.core);
    }

    /// Starts a terminal in the worktree's directory for the session at
    /// `index` if it has none (ignored out of range).
    pub fn ensure_session_terminal<F: FnOnce(String) -> T>(&mut self, index: usize, spawn: F)
        requires
            forall|dir: String| spawn.requires((dir,)),
        ensures
            final(self).wf(),
            index >= old(self)@.sessions.len() || old(self)@.sessions[index as int].terminals.len() > 0
                ==> final(self)@ == old(self)@,
            index < old(self)@.sessions.len() && old(self)@.sessions[index as int].terminals.len() == 0
                ==> final(self)@ == (ManagerView {
                    sessions: old(self)@.sessions.update(index as int, final(self)@.sessions[index as int]),
                    ..old(self)@
                }) && spawned_in(
                    old(self)@.sessions[index as int],
                    final(self)@.sessions[index as int],
                    spawn,
                    old(self)@.sessions[index as int].worktree.path,
                ),
    {
        proof {
            use_type_invariant(&*self);
        }
        let mut core = ManagerCore::new();
        std::mem::swap(&mut core, &mut self.core);
        core.ensure_session_terminal(index, spawn);
        std::mem::swap(&mut core, &mut self.core);
    }

    /// Starts a terminal for the active session if it has none.
    pub fn ensure_active_session_terminal<F: FnOnce(String) -> T>(&mut self, spawn: F)
        requires
            forall|dir: String| spawn.requires((dir,)),
        ensures
            final(self).wf(),
            old(self)@.sessions.len() == 0 || old(self)@.sessions[old(self)@.active].terminals.len() > 0
                ==> final(self)@ == old(self)@,
            old(self)@.sessions.len() > 0 && old(self)@.sessions[old(self)@.active].terminals.len() == 0
                ==> final(self)@ == (ManagerView {
                    sessions: old(self)@.sessions.update(old(self)@.active, final(self)@.sessions[old(self)@.active]),
                    ..old(self)@
                }) && spawned_in(
                    old(self)@.sessions[old(self)@.active],
                    final(self)@.sessions[old(self)@.active],
                    spawn,
                    old(self)@.sessions[old(self)@.active].worktree.path,
                ),
    {
        proof {
            use_type_invariant(&*self);
        }
        let mut core = ManagerCore::new();
        std::mem::swap(&mut core, &mut self.core);
        core.ensure_active_session_terminal(spawn);
        std::mem::swap(&mut core, &mut self.core);
    }

    /// Starts a terminal in `directory` for the active session if it has none.
    pub fn ensure_active_session_terminal_in<F: FnOnce(String) -> T>(&mut self, directory: String, spawn: F)
        requires
            spawn.requires((directory,)),
        ensures
            final(self).wf(),
            old(self)@.sessions.len() == 0 || old(self)@.sessions[old(self)@.active].terminals.len() > 0
                ==> final(self)@ == old(self)@,
            old(self)@.sessions.len() > 0 && old(self)@.sessions[old(self)@.active].terminals.len() == 0
                ==> final(self)@ == (ManagerView {
                    sessions: old(self)@.sessions.update(old(self)@.active, final(self)@.sessions[old(self)@.active]),
                    ..old(self)@
                }) && spawned_in(
                    old(self)@.sessions[old(self)@.active],
                    final(self)@.sessions[old(self)@.active],
                    spawn,
                    directory@,
                ),
    {
        proof {
            use_type_invariant(&*self);
        }
        let mut core = ManagerCore::new();
        std::mem::swap(&mut core, &mut self.core);
        core.ensure_active_session_terminal_in(directory, spawn);
        std::mem::swap(&mut core, &mut self.core);
    }

    /// Adds a terminal, started in the worktree's directory, to the session at
    /// `index` and makes it active there (ignored out of range).
    pub fn add_terminal_to_session<F: FnOnce(String) -> T>(&mut self, index: usize, spawn: F)
        requires
            forall|dir: String| spawn.requires((dir,)),
        ensures
            final(self).wf(),
            index >= old(self)@.sessions.len() ==> final(self)@ == old(self)@,
            index < old(self)@.sessions.len() ==> final(self)@ == (ManagerView {
                sessions: old(self)@.sessions.update(index as int, final(self)@.sessions[index as int]),
                ..old(self)@
            }) && spawned_in(
                old(self)@.sessions[index as int],
                final(self)@.sessions[index as int],
                spawn,
                old(self)@.sessions[index as int].worktree.path,
            ),
    {
        proof {
            use_type_invariant(&*self);
        }
        let mut core = ManagerCore::new();
        std::mem::swap(&mut core, &mut self.core);
        core.add_terminal_to_session(index, spawn);
        std::mem::swap(&mut core, &mut self.core);
    }

    /// Adds a terminal to the active session.
    pub fn add_terminal_to_active_session<F: FnOnce(String) -> T>(&mut self, spawn: F)
        requires
            forall|dir: String| spawn.requires((dir,)),
        ensures
            final(self).wf(),
            old(self)@.sessions.len() == 0 ==> final(self)@ == old(self)@,
            old(self)@.sessions.len() > 0 ==> final(self)@ == (ManagerView {
                sessions: old(self)@.sessions.update(old(self)@.active, final(self)@.sessions[old(self)@.active]),
                ..old(self)@
            }) && spawned_in(
                old(self)@.sessions[old(self)@.active],
                final(self)@.sessions[old(self)@.active],
                spawn,
                old(self)@.sessions[old(self)@.active].worktree.path,
            ),
    {
        proof {
            use_type_invariant(&*self);
        }
        let mut core = ManagerCore::new();
        std::mem::swap(&mut core, &mut self.core);
        core.add_terminal_to_active_session(spawn);
        std::mem::swap(&mut core, &mut self.core);
    }

    /// Brings the sessions in line with the repository's worktrees: sessions
    /// whose worktree is gone are removed, worktrees without a session get a
    /// new one at the end, and existing sessions take the branch and lock
    /// state of their worktree. Returns how many sessions were added, removed
    /// and updated.
    pub fn sync_with_worktrees(&mut self, worktrees: Vec<Worktree>) -> (r: (usize, usize, usize))
        ensures
            final(self)@.sessions == merged(
                kept(old(self)@.sessions, worktree_views(worktrees@)),
                worktree_views(worktrees@),
            ),
            final(self)@.active == synced_active(old(self)@.sessions, old(self)@.active, worktree_views(worktrees@)),
            final(self)@.layout == old(self)@.layout,
            r.0 == merge_added(kept(old(self)@.sessions, worktree_views(worktrees@)), worktree_views(worktrees@)),
            r.1 == old(self)@.sessions.len() - kept(old(self)@.sessions, worktree_views(worktrees@)).len(),
            r.2 == worktrees@.len() - r.0,
            final(self).wf(),
    {
        proof {
            use_type_invariant(&*self);
        }
        let mut core = ManagerCore::new();
        std::mem::swap(&mut core, &mut self.core);
        let r = core.sync_with_worktrees(worktrees);
        std::mem::swap(&mut core, &mut self.core);
        r
    }

    /// Removes the session at `index`; the last remaining session and
    /// out-of-range indices are left alone. The active index follows the
    /// active session, or moves to its neighbour when it was the one removed.
    pub fn remove_session(&mut self, index: usize)
        ensures
            final(self)@ == remove_view(old(self)@, index as int),
            final(self).wf(),
    {
        proof {
            use_type_invariant(&*self);
        }
        let mut core = ManagerCore::new();
        std::mem::swap(&mut core, &mut self.core);
        core.remove_session(index);
        std::mem::swap(&mut core, &mut self.core);
    }

    /// All sessions, in order.
    pub fn sessions(&self) -> (s: &[Session<T>])
        ensures
            session_views(s@) == self@.sessions,
    {
        proof {
            use_type_invariant(self);
        }
        self.core.sessions()
    }

    /// The active session, if there is any session.
    pub fn active_session(&self) -> (s: Option<&Session<T>>)
        ensures
            self@.sessions.len() == 0 ==> s is None,
            self@.sessions.len() > 0 ==> s is Some && s->0@ == self@.sessions[self@.active],
    {
        proof {
            use_type_invariant(self);
        }
        self.core.active_session()
    }

    /// The active terminal of the active session, if there is one.
    pub fn active_terminal(&self) -> (t: Option<T>)
        where T: Clone,
        ensures
            self@.sessions.len() == 0 || self@.sessions[self@.active].terminals.len() == 0 ==> t is None,
            self@.sessions.len() > 0 && self@.sessions[self@.active].terminals.len() > 0 ==> t is Some
                && cloned(
                    self@.sessions[self@.active].terminals[self@.sessions[self@.active].active],
                    t->0,
                ),
    {
        proof {
            use_type_invariant(self);
        }
        self.core.active_terminal()
    }

    /// The active terminal of the session at `index`, if there is one.
    pub fn get_session_active_terminal(&self, index: usize) -> (t: Option<T>)
        where T: Clone,
        ensures
            index >= self@.sessions.len() || self@.sessions[index as int].terminals.len() == 0 ==> t is None,
            index < self@.sessions.len() && self@.sessions[index as int].terminals.len() > 0 ==> t is Some
                && cloned(
                    self@.sessions[index as int].terminals[self@.sessions[index as int].active],
                    t->0,
                ),
    {
        proof {
            use_type_invariant(self);
        }
        self.core.get_session_active_terminal(index)
    }

    /// Switches to the session at `index` (ignored out of range), updating
    /// statuses and showing it in parallel mode.
    pub fn switch_to(&mut self, index: usize)
        ensures
            final(self)@ == switch_view(old(self)@, index as int),
            final(self).wf(),
    {
        proof {
            use_type_invariant(&*self);
        }
        let mut core = ManagerCore::new();
        std::mem::swap(&mut core, &mut self.core);
        core.switch_to(index);
        std::mem::swap(&mut core, &mut self.core);
    }

    /// Switches to the next session, wrapping around.
    pub fn next_session(&mut self)
        ensures
            final(self)@ == switch_view(old(self)@, next_index(old(self)@.active, old(self)@.sessions.len() as int)),
            final(self).wf(),
    {
        proof {
            use_type_invariant(&*self);
        }
        let mut core = ManagerCore::new();
        std::mem::swap(&mut core, &mut self.core);
        core.next_session();
        std::mem::swap(&mut core, &mut self.core);
    }

    /// Switches to the previous session, wrapping around.
    pub fn prev_session(&mut self)
        ensures
            final(self)@ == switch_view(old(self)@, prev_index(old(self)@.active, old(self)@.sessions.len() as int)),
            final(self).wf(),
    {
        proof {
            use_type_invariant(&*self);
        }
        let mut core = ManagerCore::new();
        std::mem::swap(&mut core, &mut self.core);
        core.prev_session();
        std::mem::swap(&mut core, &mut self.core);
    }

    /// The active session's index.
    pub fn active_index(&self) -> (i: usize)
        ensures
            i == self@.active,
    {
        proof {
            use_type_invariant(self);
        }
        self.core.active_index()
    }

    /// The layout mode.
    pub fn layout_mode(&self) -> (m: LayoutMode)
        ensures
            m == self@.layout,
    {
        proof {
            use_type_invariant(self);
        }
        self.core.layout_mode()
    }

    /// Toggles between single and parallel layout.
    pub fn toggle_layout_mode(&mut self)
        ensures
            final(self)@ == (ManagerView { layout: toggled(old(self)@.layout), ..old(self)@ }),
            final(self).wf(),
    {
        proof {
            use_type_invariant(&*self);
        }
        let mut core = ManagerCore::new();
        std::mem::swap(&mut core, &mut self.core);
        core.toggle_layout_mode();
        std::mem::swap(&mut core, &mut self.core);
    }

    /// Toggles whether the session at `index` is shown in parallel mode
    /// (ignored out of range).
    pub fn toggle_parallel_visibility(&mut self, index: usize)
        ensures
            index < old(self)@.sessions.len() ==> final(self)@ == (ManagerView {
                sessions: old(self)@.sessions.update(
                    index as int,
                    with_visible(old(self)@.sessions[index as int], !old(self)@.sessions[index as int].visible),
                ),
                ..old(self)@
            }),
            index >= old(self)@.sessions.len() ==> final(self)@ == old(self)@,
            final(self).wf(),
    {
        proof {
            use_type_invariant(&*self);
        }
        let mut core = ManagerCore::new();
        std::mem::swap(&mut core, &mut self.core);
        core.toggle_parallel_visibility(index);
        std::mem::swap(&mut core, &mut self.core);
    }

    /// The sessions shown in parallel mode, with their indices, in order.
    pub fn parallel_sessions(&self) -> (r: Vec<(usize, &Session<T>)>)
        ensures
            r@.len() == visible_indices(self@.sessions).len(),
            forall|k: int| 0 <= k < r@.len() ==> (#[trigger] r@[k]).0 == visible_indices(self@.sessions)[k]
                && r@[k].1@ == self@.sessions[r@[k].0 as int],
    {
        proof {
            use_type_invariant(self);
        }
        self.core.parallel_sessions()
    }

    /// Whether there is no session.
    pub fn is_empty(&self) -> (r: bool)
        ensures
            r == (self@.sessions.len() == 0),
    {
        proof {
            use_type_invariant(self);
        }
        self.core.is_empty()
    }

    /// The number of sessions.
    pub fn len(&self) -> (n: usize)
        ensures
            n == self@.sessions.len(),
    {
        proof {
            use_type_invariant(self);
        }
        self.core.len()
    }

    /// The session to make active before the session at `index` is deleted.
    pub fn replacement_for_deletion(&self, index: usize) -> (r: Option<usize>)
        ensures
            match replacement_of(self@, index as int) {
                Some(i) => r == Some(i as usize),
                None => r is None,
            },
    {
        proof {
            use_type_invariant(self);
        }
        self.core.replacement_for_deletion(index)
    }

    /// The name and path of the worktree that deleting session `index`
    /// removes; none when there is no such session or it is the main
    /// worktree, which is never deleted.
    pub fn deletable_worktree(&self, index: usize) -> (r: Option<(String, String)>)
        ensures
            if index < self@.sessions.len() && !self@.sessions[index as int].worktree.is_main {
                r matches Some((n, p)) && n@ == self@.sessions[index as int].worktree.name
                    && p@ == self@.sessions[index as int].worktree.path
            } else {
                r is None
            },
    {
        proof {
            use_type_invariant(self);
        }
        self.core.deletable_worktree(index)
    }

    /// The number of sessions with at least one terminal.
    pub fn running_session_count(&self) -> (n: usize)
        ensures
            n == running_count(self@.sessions),
    {
        proof {
            use_type_invariant(self);
        }
        self.core.running_session_count()
    }

    /// The number of terminals over all sessions.
    pub fn total_terminal_count(&self) -> (n: usize)
        requires
            terminal_total(self@.sessions) <= usize::MAX,
        ensures
            n == terminal_total(self@.sessions),
    {
        proof {
            use_type_invariant(self);
        }
        self.core.total_terminal_count()
    }
}


/// A prefix has no more terminals than the whole.
pub proof fn lemma_terminal_total_prefix<T>(s: Seq<SessionView<T>>, k: int)
    requires
        0 <= k <= s.len(),
    ensures
        terminal_total(s.take(k)) <= terminal_total(s),
    decreases s.len(),
{
    if k < s.len() {
        assert(s.drop_last().take(k) =~= s.take(k));
        lemma_terminal_total_prefix(s.drop_last(), k);
    } else {
        assert(s.take(k) =~= s);
    }
}

/// The views of a list with one item removed.
pub proof fn lemma_views_remove<T>(v: Seq<Session<T>>, i: int)
    requires
        0 <= i < v.len(),
    ensures
        session_views(v.remove(i)) == session_views(v).remove(i),
{
    assert(session_views(v.remove(i)) =~= session_views(v).remove(i));
}

// ---------------------------------------------------------------------------
// Synchronizing with the repository's worktrees
// ---------------------------------------------------------------------------

/// Whether some worktree of `w` is at path `p`.
pub open spec fn has_worktree_at(w: Seq<WorktreeView>, p: Seq<char>) -> bool {
    exists|k: int| 0 <= k < w.len() && same_path(#[trigger] w[k].path, p)
}

/// The sessions whose worktree is still among `w`, in order.
pub open spec fn kept<T>(s: Seq<SessionView<T>>, w: Seq<WorktreeView>) -> Seq<SessionView<T>>
    decreases s.len(),
{
    if s.len() == 0 {
        s
    } else if has_worktree_at(w, s[0].worktree.path) {
        seq![s[0]] + kept(s.drop_first(), w)
    } else {
        kept(s.drop_first(), w)
    }
}

/// Where the active index lands when the sessions not among `w` are removed:
/// on the same session if it stays, else on the next one that stays, else on
/// the last one that stays (0 when none does).
pub open spec fn synced_active<T>(s: Seq<SessionView<T>>, a: int, w: Seq<WorktreeView>) -> int {
    let before = kept(s.take(a), w).len() as int;
    if has_worktree_at(w, s[a].worktree.path) || kept(s.skip(a + 1), w).len() > 0 {
        before
    } else if before > 0 {
        before - 1
    } else {
        0
    }
}

/// One worktree merged into the sessions: an existing session at its path
/// takes its branch and lock state, otherwise a new session is appended.
pub open spec fn merge_step<T>(s: Seq<SessionView<T>>, w: WorktreeView) -> Seq<SessionView<T>> {
    match find_path(s, w.path) {
        Some(i) => s.update(i, with_worktree_info(s[i], w)),
        None => s.push(fresh_session::<T>(w, s.len() as int)),
    }
}

/// All worktrees of `w` merged into the sessions, in order.
pub open spec fn merged<T>(s: Seq<SessionView<T>>, w: Seq<WorktreeView>) -> Seq<SessionView<T>>
    decreases w.len(),
{
    if w.len() == 0 {
        s
    } else {
        merge_step(merged(s, w.drop_last()), w.last())
    }
}

/// How many sessions merging `w` appends.
pub open spec fn merge_added<T>(s: Seq<SessionView<T>>, w: Seq<WorktreeView>) -> nat
    decreases w.len(),
{
    if w.len() == 0 {
        0
    } else {
        merge_added(s, w.drop_last()) + if find_path(merged(s, w.drop_last()), w.last().path) is None {
            1nat
        } else {
            0nat
        }
    }
}

/// Filtering distributes over concatenation.
pub proof fn lemma_kept_concat<T>(x: Seq<SessionView<T>>, y: Seq<SessionView<T>>, w: Seq<WorktreeView>)
    ensures
        kept(x + y, w) == kept(x, w) + kept(y, w),
    decreases x.len(),
{
    if x.len() == 0 {
        assert(x + y =~= y);
        assert(kept(x, w) + kept(y, w) =~= kept(y, w));
    } else {
        assert((x + y).drop_first() =~= x.drop_first() + y);
        lemma_kept_concat(x.drop_first(), y, w);
        if has_worktree_at(w, x[0].worktree.path) {
            assert(seq![x[0]] + (kept(x.drop_first(), w) + kept(y, w))
                =~= (seq![x[0]] + kept(x.drop_first(), w)) + kept(y, w));
        }
    }
}

/// Filtering a single session.
pub proof fn lemma_kept_one<T>(x: SessionView<T>, w: Seq<WorktreeView>)
    ensures
        kept(seq![x], w) == if has_worktree_at(w, x.worktree.path) { seq![x] } else { Seq::empty() },
{
    let e = Seq::<SessionView<T>>::empty();
    assert(seq![x].drop_first() =~= e);
    assert(kept(e, w) == e);
    assert(seq![x] + e =~= seq![x]);
}

/// The kept sessions are consistent when all sessions are.
pub proof fn lemma_kept_wf<T>(s: Seq<SessionView<T>>, w: Seq<WorktreeView>)
    requires
        forall|i: int| 0 <= i < s.len() ==> #[trigger] session_wf(s[i]),
    ensures
        forall|i: int| 0 <= i < kept(s, w).len() ==> #[trigger] session_wf(kept(s, w)[i]),
        forall|i: int| 0 <= i < kept(s, w).len() ==> has_worktree_at(w, #[trigger] kept(s, w)[i].worktree.path),
        kept(s, w).len() <= s.len(),
    decreases s.len(),
{
    if s.len() > 0 {
        assert forall|i: int| 0 <= i < s.drop_first().len() implies #[trigger] session_wf(s.drop_first()[i]) by {
            assert(s.drop_first()[i] == s[i + 1]);
        }
        lemma_kept_wf(s.drop_first(), w);
        if has_worktree_at(w, s[0].worktree.path) {
            let k = seq![s[0]] + kept(s.drop_first(), w);
            assert forall|i: int| 0 <= i < k.len() implies #[trigger] session_wf(k[i]) && has_worktree_at(w, k[i].worktree.path) by {
                if i > 0 {
                    assert(k[i] == kept(s.drop_first(), w)[i - 1]);
                }
            }
        }
    }
}

/// The active index after filtering points at a kept session when any is kept.
pub proof fn lemma_synced_active_bound<T>(s: Seq<SessionView<T>>, a: int, w: Seq<WorktreeView>)
    requires
        if s.len() == 0 { a == 0 } else { 0 <= a < s.len() },
    ensures
        kept(s, w).len() == 0 ==> synced_active(s, a, w) == 0,
        kept(s, w).len() > 0 ==> 0 <= synced_active(s, a, w) < kept(s, w).len(),
{
    if s.len() == 0 {
        assert(s.take(0) =~= s);
    } else {
        assert(s =~= s.take(a) + (seq![s[a]] + s.skip(a + 1)));
        lemma_kept_concat(s.take(a), seq![s[a]] + s.skip(a + 1), w);
        lemma_kept_concat(seq![s[a]], s.skip(a + 1), w);
        lemma_kept_one(s[a], w);
    }
}

/// Merging never drops a session, and keeps every session consistent.
pub proof fn lemma_merged_wf<T>(s: Seq<SessionView<T>>, w: Seq<WorktreeView>)
    requires
        forall|i: int| 0 <= i < s.len() ==> #[trigger] session_wf(s[i]),
    ensures
        forall|i: int| 0 <= i < merged(s, w).len() ==> #[trigger] session_wf(merged(s, w)[i]),
        merged(s, w).len() >= s.len(),
    decreases w.len(),
{
    if w.len() > 0 {
        lemma_merged_wf(s, w.drop_last());
        let m = merged(s, w.drop_last());
        lemma_find_path(m, w.last().path);
        let r = merge_step(m, w.last());
        assert forall|i: int| 0 <= i < r.len() implies #[trigger] session_wf(r[i]) by {
            if i < m.len() {
                assert(session_wf(m[i]));
            }
        }
    }
}

/// Where the active index stands once the sessions from `i` on have been
/// filtered, for `i` at or below the old active index `a`.
pub open spec fn removal_active<T>(s: Seq<SessionView<T>>, a: int, i: int, w: Seq<WorktreeView>) -> int {
    let c = kept(s.subrange(i, a), w).len() as int;
    if has_worktree_at(w, s[a].worktree.path) || kept(s.skip(a + 1), w).len() > 0 {
        i + c
    } else if i + c > 0 {
        i + c - 1
    } else {
        0
    }
}

/// Filtering a suffix splits at any later index.
pub proof fn lemma_kept_split<T>(s: Seq<SessionView<T>>, j: int, a: int, w: Seq<WorktreeView>)
    requires
        0 <= j <= a < s.len(),
    ensures
        kept(s.skip(j), w) == kept(s.subrange(j, a), w) + kept(seq![s[a]], w) + kept(s.skip(a + 1), w),
{
    assert(s.skip(j) =~= s.subrange(j, a) + (seq![s[a]] + s.skip(a + 1)));
    lemma_kept_concat(s.subrange(j, a), seq![s[a]] + s.skip(a + 1), w);
    lemma_kept_concat(seq![s[a]], s.skip(a + 1), w);
    assert(kept(s.subrange(j, a), w) + (kept(seq![s[a]], w) + kept(s.skip(a + 1), w))
        =~= kept(s.subrange(j, a), w) + kept(seq![s[a]], w) + kept(s.skip(a + 1), w));
}

/// Filtering a range peels off its first session.
pub proof fn lemma_kept_range_step<T>(s: Seq<SessionView<T>>, j: int, e: int, w: Seq<WorktreeView>)
    requires
        0 <= j < e <= s.len(),
    ensures
        kept(s.subrange(j, e), w) == kept(seq![s[j]], w) + kept(s.subrange(j + 1, e), w),
{
    assert(s.subrange(j, e) =~= seq![s[j]] + s.subrange(j + 1, e));
    lemma_kept_concat(seq![s[j]], s.subrange(j + 1, e), w);
}

/// Filtering a suffix peels off its first session.
pub proof fn lemma_kept_skip_step<T>(s: Seq<SessionView<T>>, j: int, w: Seq<WorktreeView>)
    requires
        0 <= j < s.len(),
    ensures
        kept(s.skip(j), w) == kept(seq![s[j]], w) + kept(s.skip(j + 1), w),
{
    assert(s.skip(j) =~= seq![s[j]] + s.skip(j + 1));
    lemma_kept_concat(seq![s[j]], s.skip(j + 1), w);
}

/// Whether some session's worktree is at path `p`.
pub open spec fn has_session_at<T>(s: Seq<SessionView<T>>, p: Seq<char>) -> bool {
    exists|i: int| 0 <= i < s.len() && same_path(#[trigger] s[i].worktree.path, p)
}

/// `y` is `x` with at most its branch and lock state changed.
pub open spec fn same_but_info<T>(x: SessionView<T>, y: SessionView<T>) -> bool {
    &&& y.worktree.name == x.worktree.name
    &&& y.worktree.path == x.worktree.path
    &&& y.worktree.is_main == x.worktree.is_main
    &&& y.terminals == x.terminals
    &&& y.active == x.active
    &&& y.color == x.color
    &&& y.status == x.status
    &&& y.visible == x.visible
}

/// Merging keeps every existing session in place, changing at most its
/// branch and lock state.
pub proof fn lemma_merged_keeps<T>(s: Seq<SessionView<T>>, w: Seq<WorktreeView>, i: int)
    requires
        0 <= i < s.len(),
    ensures
        i < merged(s, w).len(),
        same_but_info(s[i], merged(s, w)[i]),
    decreases w.len(),
{
    if w.len() > 0 {
        lemma_merged_keeps(s, w.drop_last(), i);
        lemma_find_path(merged(s, w.drop_last()), w.last().path);
    }
}

/// Every session left after merging is at a path of `w`, when every session
/// before was and every merged worktree is; and every merged worktree has a
/// session at its path.
pub proof fn lemma_merged_paths<T>(s: Seq<SessionView<T>>, w2: Seq<WorktreeView>, w: Seq<WorktreeView>)
    requires
        forall|i: int| 0 <= i < s.len() ==> has_worktree_at(w, #[trigger] s[i].worktree.path),
        forall|k: int| 0 <= k < w2.len() ==> has_worktree_at(w, #[trigger] w2[k].path),
    ensures
        forall|i: int| 0 <= i < merged(s, w2).len()
            ==> has_worktree_at(w, #[trigger] merged(s, w2)[i].worktree.path),
        forall|k: int| 0 <= k < w2.len() ==> has_session_at(merged(s, w2), #[trigger] w2[k].path),
    decreases w2.len(),
{
    if w2.len() > 0 {
        let w1 = w2.drop_last();
        let x = w2.last();
        assert forall|k: int| 0 <= k < w1.len() implies has_worktree_at(w, #[trigger] w1[k].path) by {
            assert(w1[k] == w2[k]);
        }
        lemma_merged_paths(s, w1, w);
        let m = merged(s, w1);
        lemma_find_path(m, x.path);
        let r = merge_step(m, x);
        assert(has_worktree_at(w, w2[w2.len() - 1].path));
        assert forall|i: int| 0 <= i < r.len() implies has_worktree_at(w, #[trigger] r[i].worktree.path) by {
            if i < m.len() {
                assert(r[i].worktree.path == m[i].worktree.path);
            } else {
                assert(r[i].worktree.path == x.path);
            }
        }
        assert forall|k: int| 0 <= k < w2.len() implies has_session_at(r, #[trigger] w2[k].path) by {
            if k < w1.len() {
                assert(w1[k] == w2[k]);
                assert(has_session_at(m, w1[k].path));
                let i = choose|i: int| 0 <= i < m.len() && same_path(#[trigger] m[i].worktree.path, w1[k].path);
                assert(r[i].worktree.path == m[i].worktree.path);
            } else {
                match find_path(m, x.path) {
                    Some(i) => {
                        assert(r[i].worktree.path == m[i].worktree.path);
                    },
                    None => {
                        assert(r[m.len() as int].worktree.path == x.path);
                        assert(same_path(r[m.len() as int].worktree.path, x.path));
                    },
                }
            }
        }
    }
}

/// Filtering keeps everything when every session is at a path of `w`.
pub proof fn lemma_kept_all<T>(s: Seq<SessionView<T>>, w: Seq<WorktreeView>)
    requires
        forall|i: int| 0 <= i < s.len() ==> has_worktree_at(w, #[trigger] s[i].worktree.path),
    ensures
        kept(s, w) == s,
    decreases s.len(),
{
    if s.len() > 0 {
        assert forall|i: int| 0 <= i < s.drop_first().len() implies has_worktree_at(w, #[trigger] s.drop_first()[i].worktree.path) by {
            assert(s.drop_first()[i] == s[i + 1]);
        }
        lemma_kept_all(s.drop_first(), w);
        assert(has_worktree_at(w, s[0].worktree.path));
        assert(seq![s[0]] + s.drop_first() =~= s);
    }
}

/// Merging appends nothing when every merged worktree already has a session.
pub proof fn lemma_merge_adds_nothing<T>(s: Seq<SessionView<T>>, w: Seq<WorktreeView>)
    requires
        forall|k: int| 0 <= k < w.len() ==> has_session_at(s, #[trigger] w[k].path),
    ensures
        merge_added(s, w) == 0,
    decreases w.len(),
{
    if w.len() > 0 {
        let w1 = w.drop_last();
        assert forall|k: int| 0 <= k < w1.len() implies has_session_at(s, #[trigger] w1[k].path) by {
            assert(w1[k] == w[k]);
        }
        lemma_merge_adds_nothing(s, w1);
        let x = w.last();
        assert(has_session_at(s, w[w.len() - 1].path));
        let i = choose|i: int| 0 <= i < s.len() && same_path(#[trigger] s[i].worktree.path, x.path);
        lemma_merged_keeps(s, w1, i);
        lemma_find_path(merged(s, w1), x.path);
        assert(same_path(merged(s, w1)[i].worktree.path, x.path));
    }
}

/// After a sync, every session belongs to one of the worktrees and every
/// worktree has a session.
pub proof fn lemma_sync_matches_worktrees<T>(s: Seq<SessionView<T>>, w: Seq<WorktreeView>)
    ensures
        forall|i: int| 0 <= i < merged(kept(s, w), w).len()
            ==> has_worktree_at(w, #[trigger] merged(kept(s, w), w)[i].worktree.path),
        forall|k: int| 0 <= k < w.len() ==> has_session_at(merged(kept(s, w), w), #[trigger] w[k].path),
{
    lemma_kept_paths(s, w);
    assert forall|k: int| 0 <= k < w.len() implies has_worktree_at(w, #[trigger] w[k].path) by {
        assert(same_path(w[k].path, w[k].path));
    }
    lemma_merged_paths(kept(s, w), w, w);
}

/// Every kept session is at a path of `w`.
pub proof fn lemma_kept_paths<T>(s: Seq<SessionView<T>>, w: Seq<WorktreeView>)
    ensures
        forall|i: int| 0 <= i < kept(s, w).len() ==> has_worktree_at(w, #[trigger] kept(s, w)[i].worktree.path),
    decreases s.len(),
{
    if s.len() > 0 {
        lemma_kept_paths(s.drop_first(), w);
        if has_worktree_at(w, s[0].worktree.path) {
            let k = seq![s[0]] + kept(s.drop_first(), w);
            assert forall|i: int| 0 <= i < k.len() implies has_worktree_at(w, #[trigger] k[i].worktree.path) by {
                if i > 0 {
                    assert(k[i] == kept(s.drop_first(), w)[i - 1]);
                }
            }
        }
    }
}

/// Syncing again with the same worktrees removes and adds nothing.
pub proof fn lemma_sync_settles<T>(s: Seq<SessionView<T>>, w: Seq<WorktreeView>)
    ensures
        kept(merged(kept(s, w), w), w) == merged(kept(s, w), w),
        merge_added(merged(kept(s, w), w), w) == 0,
{
    lemma_sync_matches_worktrees(s, w);
    lemma_kept_all(merged(kept(s, w), w), w);
    lemma_merge_adds_nothing(merged(kept(s, w), w), w);
}

/// When the active session's worktree still exists, the session stays
/// active through a sync (with at most its branch and lock state changed).
pub proof fn lemma_sync_keeps_active_session<T>(s: Seq<SessionView<T>>, a: int, w: Seq<WorktreeView>)
    requires
        0 <= a < s.len(),
        has_worktree_at(w, s[a].worktree.path),
    ensures
        0 <= synced_active(s, a, w) < merged(kept(s, w), w).len(),
        same_but_info(s[a], merged(kept(s, w), w)[synced_active(s, a, w)]),
{
    assert(s =~= s.take(a) + (seq![s[a]] + s.skip(a + 1)));
    lemma_kept_concat(s.take(a), seq![s[a]] + s.skip(a + 1), w);
    lemma_kept_concat(seq![s[a]], s.skip(a + 1), w);
    lemma_kept_one(s[a], w);
    let b = kept(s.take(a), w).len() as int;
    assert(kept(s, w)[b] == s[a]);
    lemma_merged_keeps(kept(s, w), w, b);
}

/// Switching to the next session and then to the previous one returns to the
/// session that was active.
pub proof fn lemma_next_then_prev_session<T>(m: ManagerView<T>)
    requires
        manager_wf(m),
        m.sessions.len() > 0,
    ensures
        ({
            let n = m.sessions.len() as int;
            let m1 = switch_view(m, next_index(m.active, n));
            let m2 = switch_view(m1, prev_index(m1.active, m1.sessions.len() as int));
            m2.active == m.active
        }),
{
    let n = m.sessions.len() as int;
    lemma_prev_undoes_next(m.active, n);
    assert(0 <= (m.active + 1) % n < n) by (nonlinear_arith)
        requires
            n > 0,
            0 <= m.active,
    ;
}

/// Toggling the layout twice restores it.
pub proof fn lemma_toggle_layout_twice(l: LayoutMode)
    ensures
        toggled(toggled(l)) == l,
{
}

/// Removing a session other than the active one keeps the active session
/// active; removing the active one activates its successor, or its
/// predecessor when it was the last.
pub proof fn lemma_remove_session_active<T>(m: ManagerView<T>, index: int)
    requires
        manager_wf(m),
        0 <= index < m.sessions.len(),
        m.sessions.len() > 1,
    ensures
        ({
            let r = remove_view(m, index);
            &&& 0 <= r.active < r.sessions.len()
            &&& index != m.active ==> r.sessions[r.active] == m.sessions[m.active]
            &&& index == m.active && index + 1 < m.sessions.len() ==> r.sessions[r.active] == m.sessions[index + 1]
            &&& index == m.active && index + 1 == m.sessions.len() ==> r.sessions[r.active] == m.sessions[index - 1]
        }),
{
}

/// A session added for a new path is the one found at that path.
pub proof fn lemma_added_session_found<T>(s: Seq<SessionView<T>>, w: WorktreeView)
    requires
        find_path(s, w.path) is None,
    ensures
        find_path(s.push(fresh_session::<T>(w, s.len() as int)), w.path) == Some(s.len() as int),
{
    let s2 = s.push(fresh_session::<T>(w, s.len() as int));
    assert(s2.drop_last() =~= s);
}

/// Removing a terminal other than the active one keeps the active terminal
/// active.
pub proof fn lemma_remove_terminal_keeps_active<T>(s: SessionView<T>, index: int)
    requires
        session_wf(s),
        0 <= index < s.terminals.len(),
        index != s.active,
    ensures
        ({
            let r = without_terminal(s, index);
            &&& session_wf(r)
            &&& r.terminals[r.active] == s.terminals[s.active]
        }),
{
}

/// Whether `p` is among the worktrees' paths.
fn contains_worktree_path(worktrees: &Vec<Worktree>, p: &str) -> (r: bool)
    ensures
        r == has_worktree_at(worktree_views(worktrees@), p@),
{
    let pc = chars_of(p);
    let mut k: usize = 0;
    while k < worktrees.len()
        invariant
            k <= worktrees@.len(),
            pc@ == p@,
            forall|j: int| 0 <= j < k ==> !same_path(#[trigger] worktree_views(worktrees@)[j].path, p@),
        decreases worktrees@.len() - k,
    {
        let wc = chars_of(worktrees[k].path.as_str());
        if path_eq(&wc, &pc) {
            assert(same_path(worktree_views(worktrees@)[k as int].path, p@));
            return true;
        }
        k += 1;
    }
    false
}

/// The views of a list updated at one index.
pub proof fn lemma_views_update<T>(v: Seq<Session<T>>, i: int, x: Session<T>)
    requires
        0 <= i < v.len(),
    ensures
        session_views(v.update(i, x)) == session_views(v).update(i, x@),
{
    assert(session_views(v.update(i, x)) =~= session_views(v).update(i, x@));
}

} // verus!
