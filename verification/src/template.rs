//! What happens when a new worktree is created: commands run before it (in
//! the main worktree), files copied into it, commands run after it (in the
//! new worktree), and the directory its terminal starts in.
//!
//! The template is stored in git config under `[sashiki "template"]`.

use vstd::prelude::*;
use crate::git::{
    opt_str, remove_plan, run, set_values_plan, strs, GitError, GitPlan, GitRepo, PlanView,
    CONFIG_FILE_COPY, CONFIG_POST_CREATE_CMD, CONFIG_PRE_CREATE_CMD, CONFIG_WORKING_DIR,
};
use crate::path::{join, join_path, strip_prefix, strip_prefix_of};
use crate::text::{chars_of, lines_of, push_chars, split_on, string_from_chars, trim, trim_chars};
use crate::git::nonempty_lines;

verus! {

/// Session template configuration.
#[derive(Debug, Clone)]
pub struct TemplateConfig {
    /// Commands run before the worktree is created (in the main worktree).
    pub pre_create_commands: Vec<String>,
    /// Glob patterns of files copied from the main worktree.
    pub file_copies: Vec<String>,
    /// Commands run after the worktree is created (in the new worktree).
    pub post_create_commands: Vec<String>,
    /// Working directory relative to the worktree root, for the terminal and
    /// the post-create commands.
    pub working_directory: Option<String>,
}

/// The view of a template.
pub struct TemplateView {
    pub pre: Seq<Seq<char>>,
    pub copies: Seq<Seq<char>>,
    pub post: Seq<Seq<char>>,
    pub workdir: Option<Seq<char>>,
}

impl View for TemplateConfig {
    type V = TemplateView;

    open spec fn view(&self) -> TemplateView {
        TemplateView {
            pre: strs(self.pre_create_commands@),
            copies: strs(self.file_copies@),
            post: strs(self.post_create_commands@),
            workdir: opt_str(self.working_directory),
        }
    }
}

impl Default for TemplateConfig {
    fn default() -> (t: TemplateConfig)
        ensures
            t@.pre.len() == 0,
            t@.copies.len() == 0,
            t@.post.len() == 0,
            t@.workdir is None,
    {
        TemplateConfig {
            pre_create_commands: Vec::new(),
            file_copies: Vec::new(),
            post_create_commands: Vec::new(),
            working_directory: None,
        }
    }
}

/// The values read from `git config --get-all`: its non-empty lines, or none
/// when it failed.
pub open spec fn config_values_of(output: Result<Seq<char>, GitError>) -> Seq<Seq<char>> {
    match output {
        Ok(out) => nonempty_lines(lines_of(out)),
        Err(_) => Seq::empty(),
    }
}

/// The value read from `git config --get`: its trimmed output when not empty.
pub open spec fn config_value_of(output: Result<Seq<char>, GitError>) -> Option<Seq<char>> {
    match output {
        Ok(out) => if trim(out).len() > 0 { Some(trim(out)) } else { None },
        Err(_) => None,
    }
}

/// The view of a command outcome.
pub open spec fn outcome_view(r: Result<String, GitError>) -> Result<Seq<char>, GitError> {
    match r {
        Ok(s) => Ok(s@),
        Err(e) => Err(e),
    }
}

/// Whether a working directory is set to something.
pub open spec fn has_workdir(w: Option<Seq<char>>) -> bool {
    w is Some && w->0.len() > 0
}

/// The directory a new worktree's terminal and post-create commands run in.
pub open spec fn effective_workdir(t: TemplateView, worktree: Seq<char>) -> Seq<char> {
    if has_workdir(t.workdir) {
        join_path(worktree, t.workdir->0)
    } else {
        worktree
    }
}

/// The label of the worktree creation step.
pub open spec fn creating_label() -> Seq<char> {
    "Creating worktree"@
}

/// The label of the file copy step.
pub open spec fn copying_label() -> Seq<char> {
    "Copying files"@
}

/// The progress labels of worktree creation, one per step.
pub open spec fn creation_labels(t: TemplateView) -> Seq<Seq<char>> {
    t.pre + seq![creating_label()] + (if t.copies.len() > 0 { seq![copying_label()] } else { Seq::empty() })
        + t.post
}

/// One step of worktree creation.
#[derive(Debug, Clone)]
pub enum CreationStep {
    /// Run a command in the main worktree.
    PreCreate { command: String, workdir: String },
    /// Create the worktree.
    CreateWorktree,
    /// Copy the template's files into the new worktree.
    CopyFiles,
    /// Run a command in the new worktree.
    PostCreate { command: String, workdir: String },
}

/// The view of a creation step.
pub enum StepView {
    PreCreate { command: Seq<char>, workdir: Seq<char> },
    CreateWorktree,
    CopyFiles,
    PostCreate { command: Seq<char>, workdir: Seq<char> },
}

impl View for CreationStep {
    type V = StepView;

    open spec fn view(&self) -> StepView {
        match self {
            CreationStep::PreCreate { command, workdir } => StepView::PreCreate {
                command: command@,
                workdir: workdir@,
            },
            CreationStep::CreateWorktree => StepView::CreateWorktree,
            CreationStep::CopyFiles => StepView::CopyFiles,
            CreationStep::PostCreate { command, workdir } => StepView::PostCreate {
                command: command@,
                workdir: workdir@,
            },
        }
    }
}

/// The views of a list of steps.
pub open spec fn step_views(v: Seq<CreationStep>) -> Seq<StepView> {
    Seq::new(v.len(), |i: int| v[i]@)
}

/// The label shown for a step.
pub open spec fn step_label(s: StepView) -> Seq<char> {
    match s {
        StepView::PreCreate { command, .. } => command,
        StepView::CreateWorktree => creating_label(),
        StepView::CopyFiles => copying_label(),
        StepView::PostCreate { command, .. } => command,
    }
}

/// Pre-create steps for `cmds`, all run in `dir`.
pub open spec fn pre_steps(cmds: Seq<Seq<char>>, dir: Seq<char>) -> Seq<StepView> {
    Seq::new(cmds.len(), |i: int| StepView::PreCreate { command: cmds[i], workdir: dir })
}

/// Post-create steps for `cmds`, all run in `dir`.
pub open spec fn post_steps(cmds: Seq<Seq<char>>, dir: Seq<char>) -> Seq<StepView> {
    Seq::new(cmds.len(), |i: int| StepView::PostCreate { command: cmds[i], workdir: dir })
}

/// The steps of creating a worktree at `worktree` from the main worktree at
/// `main`: the pre-create commands, the creation, the file copy when there
/// are files to copy, then the post-create commands.
pub open spec fn creation_plan_of(t: TemplateView, main: Seq<char>, worktree: Seq<char>) -> Seq<StepView> {
    pre_steps(t.pre, main) + seq![StepView::CreateWorktree] + (if t.copies.len() > 0 {
        seq![StepView::CopyFiles]
    } else {
        Seq::empty()
    }) + post_steps(t.post, effective_workdir(t, worktree))
}

/// What a step's result means for the creation: a failed command stops it
/// with a message naming the phase, a failed creation stops it with its
/// error after "Failed to create worktree: ", and the file copy never stops it.
pub open spec fn step_outcome(s: StepView, result: Result<(), Seq<char>>) -> Result<(), Seq<char>> {
    match result {
        Ok(()) => Ok(()),
        Err(e) => match s {
            StepView::PreCreate { .. } => Err("Pre-create command failed: "@ + e),
            StepView::CreateWorktree => Err("Failed to create worktree: "@ + e),
            StepView::CopyFiles => Ok(()),
            StepView::PostCreate { .. } => Err("Post-create command failed: "@ + e),
        },
    }
}

/// The view of a step result.
pub open spec fn result_view(r: Result<(), String>) -> Result<(), Seq<char>> {
    match r {
        Ok(()) => Ok(()),
        Err(e) => Err(e@),
    }
}

/// A string made of `prefix` followed by `rest`.
fn prefixed(prefix: &str, rest: &str) -> (s: String)
    ensures
        s@ == prefix@ + rest@,
{
    let mut v = chars_of(prefix);
    push_chars(&mut v, &chars_of(rest));
    string_from_chars(&v)
}

/// A copy of a list of strings.
fn copy_strings(v: &Vec<String>) -> (r: Vec<String>)
    ensures
        strs(r@) == strs(v@),
{
    let mut r: Vec<String> = Vec::new();
    let mut i: usize = 0;
    while i < v.len()
        invariant
            i <= v@.len(),
            strs(r@) == strs(v@).take(i as int),
        decreases v@.len() - i,
    {
        let ghost prev = r@;
        assert(strs(prev).len() == prev.len());
        assert(prev.len() == i);
        let x = v[i].clone();
        r.push(x);
        assert(r@.len() == prev.len() + 1);
        i += 1;
        assert forall|j: int| 0 <= j < i implies strs(r@)[j] == strs(v@).take(i as int)[j] by {
            if j < i - 1 {
                assert(r@[j] == prev[j]);
                assert(strs(prev)[j] == strs(v@).take(i - 1)[j]);
            }
        }
        assert(strs(r@) =~= strs(v@).take(i as int));
    }
    assert(strs(v@).take(i as int) =~= strs(v@));
    r
}

impl CreationStep {
    /// The label shown for the step.
    pub fn label(&self) -> (l: String)
        ensures
            l@ == step_label(self@),
    {
        match self {
            CreationStep::PreCreate { command, .. } => command.clone(),
            CreationStep::CreateWorktree => "Creating worktree".to_owned(),
            CreationStep::CopyFiles => "Copying files".to_owned(),
            CreationStep::PostCreate { command, .. } => command.clone(),
        }
    }

    /// Whether the creation goes on after this step ended with `result`, and
    /// otherwise the message it stops with.
    pub fn outcome(&self, result: Result<(), String>) -> (r: Result<(), String>)
        ensures
            result_view(r) == step_outcome(self@, result_view(result)),
    {
        match result {
            Ok(()) => Ok(()),
            Err(e) => match self {
                CreationStep::PreCreate { .. } => Err(prefixed("Pre-create command failed: ", e.as_str())),
                CreationStep::CreateWorktree => Err(prefixed("Failed to create worktree: ", e.as_str())),
                CreationStep::CopyFiles => Ok(()),
                CreationStep::PostCreate { .. } => Err(prefixed("Post-create command failed: ", e.as_str())),
            },
        }
    }
}

// ---------------------------------------------------------------------------
// Editing the template as text
// ---------------------------------------------------------------------------

/// Entries one per line.
pub open spec fn joined_lines(v: Seq<Seq<char>>) -> Seq<char>
    decreases v.len(),
{
    if v.len() == 0 {
        Seq::empty()
    } else if v.len() == 1 {
        v[0]
    } else {
        joined_lines(v.drop_last()) + seq!['\n'] + v.last()
    }
}

/// Each line trimmed.
pub open spec fn trimmed_all(ls: Seq<Seq<char>>) -> Seq<Seq<char>> {
    Seq::new(ls.len(), |i: int| trim(ls[i]))
}

/// The entries a text area holds: its lines, trimmed, without the empty ones.
pub open spec fn text_entries(text: Seq<char>) -> Seq<Seq<char>> {
    nonempty_lines(trimmed_all(lines_of(text)))
}

/// An entry that a text area shows and gives back unchanged: one line, not
/// empty, without surrounding white space.
pub open spec fn plain_entry(e: Seq<char>) -> bool {
    e.len() > 0 && trim(e) == e && !e.contains('\n')
}

/// Splitting at a separator after text without it extends the last piece.
proof fn lemma_split_append(x: Seq<char>, b: Seq<char>, sep: char)
    requires
        !b.contains(sep),
    ensures
        split_on(x + b, sep) == split_on(x, sep).update(
            split_on(x, sep).len() - 1,
            split_on(x, sep).last() + b,
        ),
    decreases b.len(),
{
    crate::text::lemma_split_nonempty(x, sep);
    if b.len() == 0 {
        assert(x + b =~= x);
        assert(split_on(x, sep).last() + b =~= split_on(x, sep).last());
        assert(split_on(x, sep).update(split_on(x, sep).len() - 1, split_on(x, sep).last()) =~= split_on(x, sep));
    } else {
        let c = b.last();
        assert(b.drop_last().len() < b.len());
        assert(!b.drop_last().contains(sep)) by {
            if b.drop_last().contains(sep) {
                let k = choose|k: int| 0 <= k < b.drop_last().len() && b.drop_last()[k] == sep;
                assert(b[k] == sep);
            }
        }
        assert(c != sep) by {
            assert(b[b.len() - 1] == c);
        }
        lemma_split_append(x, b.drop_last(), sep);
        assert((x + b).drop_last() =~= x + b.drop_last());
        assert((x + b).last() == c);
        let p = split_on(x, sep);
        assert(p.last() + b.drop_last() + seq![c] =~= p.last() + b);
        assert((p.last() + b.drop_last()).push(c) =~= p.last() + b);
        crate::text::lemma_split_nonempty(x + b.drop_last(), sep);
    }
}

/// Lines that hold no line break, joined, split back into themselves.
proof fn lemma_split_joined(v: Seq<Seq<char>>)
    requires
        v.len() > 0,
        forall|i: int| 0 <= i < v.len() ==> !(#[trigger] v[i]).contains('\n'),
    ensures
        split_on(joined_lines(v), '\n') == v,
    decreases v.len(),
{
    if v.len() == 1 {
        lemma_split_append(Seq::empty(), v[0], '\n');
        assert(Seq::<char>::empty() + v[0] =~= v[0]);
        assert(split_on(Seq::<char>::empty(), '\n') =~= seq![Seq::<char>::empty()]);
        assert(Seq::<char>::empty() + v[0] =~= v[0]);
        assert(seq![Seq::<char>::empty()].update(0, Seq::<char>::empty() + v[0]) =~= v);
    } else {
        let front = v.drop_last();
        assert forall|i: int| 0 <= i < front.len() implies !(#[trigger] front[i]).contains('\n') by {
            assert(front[i] == v[i]);
        }
        lemma_split_joined(front);
        let x = joined_lines(front) + seq!['\n'];
        assert(x.drop_last() =~= joined_lines(front));
        assert(x.last() == '\n');
        crate::text::lemma_split_nonempty(joined_lines(front), '\n');
        assert(split_on(x, '\n') == front.push(Seq::<char>::empty()));
        lemma_split_append(x, v.last(), '\n');
        assert(Seq::<char>::empty() + v.last() =~= v.last());
        assert(front.push(Seq::<char>::empty()).update(front.len() as int, v.last()) =~= v);
    }
}

/// What `trim` leaves does not end in white space.
proof fn lemma_trim_end_last(s: Seq<char>)
    ensures
        crate::text::trim_end(s).len() > 0 ==> !crate::text::is_ws(crate::text::trim_end(s).last()),
    decreases s.len(),
{
    if s.len() > 0 && crate::text::is_ws(s.last()) {
        lemma_trim_end_last(s.drop_last());
    }
}

/// Lines that are all non-empty are all kept.
proof fn lemma_nonempty_kept(ls: Seq<Seq<char>>)
    requires
        forall|i: int| 0 <= i < ls.len() ==> (#[trigger] ls[i]).len() > 0,
    ensures
        nonempty_lines(ls) == ls,
    decreases ls.len(),
{
    if ls.len() > 0 {
        assert forall|i: int| 0 <= i < ls.drop_last().len() implies (#[trigger] ls.drop_last()[i]).len() > 0 by {
            assert(ls.drop_last()[i] == ls[i]);
        }
        lemma_nonempty_kept(ls.drop_last());
        assert(ls.drop_last().push(ls.last()) =~= ls);
    }
}

/// The entries shown one per line in a text area come back unchanged when
/// the text is read back.
pub proof fn lemma_entries_round_trip(v: Seq<Seq<char>>)
    requires
        forall|i: int| 0 <= i < v.len() ==> plain_entry(#[trigger] v[i]),
    ensures
        text_entries(joined_lines(v)) == v,
{
    if v.len() == 0 {
        let p = split_on(Seq::<char>::empty(), '\n');
        assert(p =~= seq![Seq::<char>::empty()]);
        assert(lines_of(Seq::<char>::empty()) =~= Seq::<Seq<char>>::empty());
        assert(trimmed_all(Seq::<Seq<char>>::empty()) =~= Seq::<Seq<char>>::empty());
    } else {
        lemma_split_joined(v);
        assert forall|i: int| 0 <= i < v.len() implies crate::text::strip_cr(#[trigger] v[i]) == v[i] by {
            lemma_trim_end_last(crate::text::trim_start(v[i]));
            assert(trim(v[i]) == v[i]);
        }
        assert(lines_of(joined_lines(v)) =~= v);
        assert(trimmed_all(v) =~= v);
        lemma_nonempty_kept(v);
    }
}

/// A template shown in the settings dialog and saved back unedited comes
/// back the same, when its entries are single trimmed lines and its working
/// directory, if set, is trimmed and not empty.
pub proof fn lemma_settings_round_trip(t: TemplateView)
    requires
        forall|i: int| 0 <= i < t.pre.len() ==> plain_entry(#[trigger] t.pre[i]),
        forall|i: int| 0 <= i < t.copies.len() ==> plain_entry(#[trigger] t.copies[i]),
        forall|i: int| 0 <= i < t.post.len() ==> plain_entry(#[trigger] t.post[i]),
        t.workdir matches Some(w) ==> w.len() > 0 && trim(w) == w,
    ensures
        text_entries(joined_lines(t.pre)) == t.pre,
        text_entries(joined_lines(t.copies)) == t.copies,
        text_entries(joined_lines(t.post)) == t.post,
        ({
            let w = match t.workdir {
                Some(w) => w,
                None => Seq::<char>::empty(),
            };
            (if trim(w).len() == 0 { None } else { Some(trim(w)) }) == t.workdir
        }),
{
    lemma_entries_round_trip(t.pre);
    lemma_entries_round_trip(t.copies);
    lemma_entries_round_trip(t.post);
    if t.workdir is None {
        assert(crate::text::trim_start(Seq::<char>::empty()) =~= Seq::<char>::empty());
        assert(trim(Seq::<char>::empty()) =~= Seq::<char>::empty());
    }
}

/// Entries one per line.
pub fn join_lines(v: &Vec<String>) -> (t: String)
    ensures
        t@ == joined_lines(strs(v@)),
{
    let mut out: Vec<char> = Vec::new();
    let mut i: usize = 0;
    while i < v.len()
        invariant
            i <= v@.len(),
            out@ == joined_lines(strs(v@).take(i as int)),
        decreases v@.len() - i,
    {
        let ghost before = strs(v@).take(i as int);
        assert(strs(v@).take(i + 1).drop_last() =~= before);
        assert(strs(v@).take(i + 1).last() == v@[i as int]@);
        if i > 0 {
            out.push('\n');
        }
        push_chars(&mut out, &chars_of(v[i].as_str()));
        i += 1;
        proof {
            if i == 1 {
                assert(out@ =~= strs(v@).take(1)[0]);
            } else {
                assert(out@ =~= joined_lines(before) + seq!['\n'] + v@[i - 1]@);
            }
        }
    }
    assert(strs(v@).take(i as int) =~= strs(v@));
    string_from_chars(&out)
}

/// The entries a text area holds.
pub fn text_area_entries(text: &str) -> (v: Vec<String>)
    ensures
        strs(v@) == text_entries(text@),
{
    let lines = crate::text::lines_chars(&chars_of(text));
    let ghost ls = trimmed_all(lines_of(text@));
    let mut v: Vec<String> = Vec::new();
    let mut i: usize = 0;
    while i < lines.len()
        invariant
            crate::text::views(lines@) == lines_of(text@),
            ls == trimmed_all(lines_of(text@)),
            i <= lines@.len(),
            strs(v@) == nonempty_lines(ls.take(i as int)),
        decreases lines@.len() - i,
    {
        assert(crate::text::views(lines@)[i as int] == lines@[i as int]@);
        let t = trim_chars(&lines[i]);
        assert(ls.take(i + 1).drop_last() =~= ls.take(i as int));
        assert(ls.take(i + 1).last() == t@);
        if t.len() > 0 {
            let ghost before = v@;
            assert(strs(before).len() == before.len());
            v.push(string_from_chars(&t));
            assert(strs(v@) =~= strs(before).push(t@));
        }
        i += 1;
    }
    assert(ls.take(i as int) =~= ls);
    v
}

impl TemplateConfig {

    /// The texts of the settings dialog: the pre-create commands, the file
    /// patterns and the post-create commands one per line, and the working
    /// directory (empty when unset).
    pub fn settings_texts(&self) -> (t: (String, String, String, String))
        ensures
            t.0@ == joined_lines(self@.pre),
            t.1@ == joined_lines(self@.copies),
            t.2@ == joined_lines(self@.post),
            t.3@ == match self@.workdir {
                Some(w) => w,
                None => Seq::<char>::empty(),
            },
    {
        let workdir = match &self.working_directory {
            Some(w) => w.clone(),
            None => String::new(),
        };
        (join_lines(&self.pre_create_commands), join_lines(&self.file_copies), join_lines(&self.post_create_commands), workdir)
    }

    /// The template the settings dialog's texts describe: each list from
    /// its text area's non-empty trimmed lines, the working directory
    /// trimmed and unset when empty.
    pub fn from_settings_texts(pre: &str, copies: &str, post: &str, workdir: &str) -> (t: TemplateConfig)
        ensures
            t@.pre == text_entries(pre@),
            t@.copies == text_entries(copies@),
            t@.post == text_entries(post@),
            t@.workdir == (if trim(workdir@).len() == 0 { None } else { Some(trim(workdir@)) }),
    {
        let w = trim_chars(&chars_of(workdir));
        TemplateConfig {
            pre_create_commands: text_area_entries(pre),
            file_copies: text_area_entries(copies),
            post_create_commands: text_area_entries(post),
            working_directory: if w.len() == 0 { None } else { Some(string_from_chars(&w)) },
        }
    }

    /// The git commands that read the template, in the order `load` takes
    /// their outputs.
    pub fn load_plans(repo: &GitRepo) -> (p: Vec<GitPlan>)
        ensures
            p@.len() == 4,
            p@[0]@ == run(seq!["config"@, "--get-all"@, CONFIG_PRE_CREATE_CMD@]),
            p@[1]@ == run(seq!["config"@, "--get-all"@, CONFIG_FILE_COPY@]),
            p@[2]@ == run(seq!["config"@, "--get-all"@, CONFIG_POST_CREATE_CMD@]),
            p@[3]@ == run(seq!["config"@, "--get"@, CONFIG_WORKING_DIR@]),
    {
        let mut p = Vec::new();
        p.push(repo.get_config_values_plan(CONFIG_PRE_CREATE_CMD));
        p.push(repo.get_config_values_plan(CONFIG_FILE_COPY));
        p.push(repo.get_config_values_plan(CONFIG_POST_CREATE_CMD));
        p.push(repo.get_config_value_plan(CONFIG_WORKING_DIR));
        p
    }

    /// The template read from the outputs of the commands of `load_plans`.
    pub fn load(
        repo: &GitRepo,
        pre_create: Result<String, GitError>,
        file_copy: Result<String, GitError>,
        post_create: Result<String, GitError>,
        working_dir: Result<String, GitError>,
    ) -> (t: TemplateConfig)
        ensures
            t@.pre == config_values_of(outcome_view(pre_create)),
            t@.copies == config_values_of(outcome_view(file_copy)),
            t@.post == config_values_of(outcome_view(post_create)),
            t@.workdir == config_value_of(outcome_view(working_dir)),
    {
        TemplateConfig {
            pre_create_commands: repo.get_config_values(pre_create),
            file_copies: repo.get_config_values(file_copy),
            post_create_commands: repo.get_config_values(post_create),
            working_directory: repo.get_config_value(working_dir),
        }
    }

    /// The git commands that store the template in the local config, to be
    /// run in order until one fails ([`crate::git::next_in_order`] gives the plan to run
    /// next; the failing plan's error is the outcome and the later keys are
    /// left as they were): each list replaces its key's values, and the
    /// working directory is set, or removed when it is unset or empty.
    pub fn save(&self, repo: &GitRepo) -> (p: Vec<GitPlan>)
        ensures
            p@.len() == 4,
            p@[0]@ == set_values_plan(CONFIG_PRE_CREATE_CMD@, self@.pre),
            p@[1]@ == set_values_plan(CONFIG_FILE_COPY@, self@.copies),
            p@[2]@ == set_values_plan(CONFIG_POST_CREATE_CMD@, self@.post),
            has_workdir(self@.workdir) ==> p@[3]@ == run(
                seq!["config"@, "--local"@, CONFIG_WORKING_DIR@, self@.workdir->0],
            ),
            !has_workdir(self@.workdir) ==> p@[3]@ == remove_plan(CONFIG_WORKING_DIR@),
    {
        let mut p = Vec::new();
        p.push(repo.set_config_values(CONFIG_PRE_CREATE_CMD, self.pre_create_commands.as_slice()));
        p.push(repo.set_config_values(CONFIG_FILE_COPY, self.file_copies.as_slice()));
        p.push(repo.set_config_values(CONFIG_POST_CREATE_CMD, self.post_create_commands.as_slice()));
        let last = match &self.working_directory {
            Some(dir) => {
                if dir.as_str().is_empty() {
                    repo.remove_config_key(CONFIG_WORKING_DIR)
                } else {
                    repo.set_config_value(CONFIG_WORKING_DIR, dir.as_str())
                }
            },
            None => repo.remove_config_key(CONFIG_WORKING_DIR),
        };
        p.push(last);
        p
    }

    /// Whether the template has no command and no file to copy.
    pub fn is_empty(&self) -> (r: bool)
        ensures
            r == (self@.pre.len() == 0 && self@.copies.len() == 0 && self@.post.len() == 0),
    {
        self.pre_create_commands.len() == 0 && self.file_copies.len() == 0
            && self.post_create_commands.len() == 0
    }

    /// The directory a worktree's terminal and post-create commands run in:
    /// the working directory joined to the worktree, or the worktree itself.
    pub fn resolve_working_directory(&self, worktree_path: &str) -> (d: String)
        ensures
            d@ == effective_workdir(self@, worktree_path@),
    {
        match &self.working_directory {
            Some(dir) => {
                if dir.as_str().is_empty() {
                    worktree_path.to_owned()
                } else {
                    let j = join(&chars_of(worktree_path), &chars_of(dir.as_str()));
                    string_from_chars(&j)
                }
            },
            None => worktree_path.to_owned(),
        }
    }

    /// The progress labels of worktree creation.
    pub fn creation_steps(&self) -> (steps: Vec<String>)
        ensures
            strs(steps@) == creation_labels(self@),
    {
        let mut steps = copy_strings(&self.pre_create_commands);
        steps.push("Creating worktree".to_owned());
        if self.file_copies.len() > 0 {
            steps.push("Copying files".to_owned());
        }
        let mut post = copy_strings(&self.post_create_commands);
        steps.append(&mut post);
        assert(strs(steps@) =~= creation_labels(self@));
        steps
    }

    /// The steps of creating the worktree at `worktree_path` from the main
    /// worktree at `main_workdir`.
    pub fn creation_plan(&self, main_workdir: &str, worktree_path: &str) -> (plan: Vec<CreationStep>)
        ensures
            step_views(plan@) == creation_plan_of(self@, main_workdir@, worktree_path@),
    {
        let mut plan: Vec<CreationStep> = Vec::new();
        let mut i: usize = 0;
        while i < self.pre_create_commands.len()
            invariant
                i <= self@.pre.len(),
                step_views(plan@) == pre_steps(self@.pre.take(i as int), main_workdir@),
            decreases self@.pre.len() - i,
        {
            let ghost prev = plan@;
            assert(step_views(prev).len() == prev.len());
            let command = self.pre_create_commands[i].clone();
            let workdir = main_workdir.to_owned();
            let step = CreationStep::PreCreate { command, workdir };
            plan.push(step);
            i += 1;
            assert forall|j: int| 0 <= j < i implies step_views(plan@)[j] == pre_steps(self@.pre.take(i as int), main_workdir@)[j] by {
                if j < i - 1 {
                    assert(plan@[j] == prev[j]);
                    assert(step_views(prev)[j] == pre_steps(self@.pre.take(i - 1), main_workdir@)[j]);
                }
            }
            assert(step_views(plan@) =~= pre_steps(self@.pre.take(i as int), main_workdir@));
        }
        assert(self@.pre.take(i as int) =~= self@.pre);
        plan.push(CreationStep::CreateWorktree);
        if self.file_copies.len() > 0 {
            plan.push(CreationStep::CopyFiles);
        }
        let ghost head = step_views(plan@);
        let dir = self.resolve_working_directory(worktree_path);
        let mut k: usize = 0;
        while k < self.post_create_commands.len()
            invariant
                k <= self@.post.len(),
                dir@ == effective_workdir(self@, worktree_path@),
                step_views(plan@) == head + post_steps(self@.post.take(k as int), dir@),
            decreases self@.post.len() - k,
        {
            let ghost prev = plan@;
            assert(step_views(prev).len() == prev.len());
            let command = self.post_create_commands[k].clone();
            let workdir = dir.clone();
            let step = CreationStep::PostCreate { command, workdir };
            plan.push(step);
            k += 1;
            assert forall|j: int| 0 <= j < prev.len() + 1 implies step_views(plan@)[j] == (head + post_steps(self@.post.take(k as int), dir@))[j] by {
                if j < prev.len() {
                    assert(plan@[j] == prev[j]);
                    assert(step_views(prev)[j] == (head + post_steps(self@.post.take(k - 1), dir@))[j]);
                }
            }
            assert(step_views(plan@) =~= head + post_steps(self@.post.take(k as int), dir@));
        }
        assert(self@.post.take(k as int) =~= self@.post);
        assert(step_views(plan@) =~= creation_plan_of(self@, main_workdir@, worktree_path@));
        plan
    }
}

/// The labels of a creation plan are the template's progress labels: the
/// progress list has one entry per step, in the same order.
pub proof fn lemma_plan_matches_progress(t: TemplateView, main: Seq<char>, worktree: Seq<char>)
    ensures
        creation_plan_of(t, main, worktree).len() == creation_labels(t).len(),
        forall|i: int| 0 <= i < creation_labels(t).len()
            ==> #[trigger] step_label(creation_plan_of(t, main, worktree)[i]) == creation_labels(t)[i],
{
    let p = creation_plan_of(t, main, worktree);
    let l = creation_labels(t);
    let c: int = if t.copies.len() > 0 { 1 } else { 0 };
    assert forall|i: int| 0 <= i < l.len() implies #[trigger] step_label(p[i]) == l[i] by {
        if i < t.pre.len() {
        } else if i == t.pre.len() {
        } else if i < t.pre.len() + 1 + c {
        } else {
            assert(p[i] == post_steps(t.post, effective_workdir(t, worktree))[i - t.pre.len() - 1 - c]);
            assert(l[i] == t.post[i - t.pre.len() - 1 - c]);
        }
    }
}

/// The full glob pattern of a copy pattern: the pattern joined to the main
/// worktree.
pub fn copy_pattern(source_root: &str, pattern: &str) -> (full: String)
    ensures
        full@ == join_path(source_root@, pattern@),
{
    string_from_chars(&join(&chars_of(source_root), &chars_of(pattern)))
}

/// Result of a single file copy.
#[derive(Debug, Clone)]
pub struct FileCopyResult {
    pub path: String,
    pub success: bool,
    pub error: Option<String>,
}

/// Where a matched file goes: its path relative to the main worktree and its
/// destination in the new worktree; or, when it is not under the main
/// worktree, the failed result that reports it.
pub fn copy_target(source_root: &str, dest_root: &str, src_path: &str) -> (r: Result<(String, String), FileCopyResult>)
    ensures
        match strip_prefix_of(src_path@, source_root@) {
            Some(rel) => r is Ok && r->Ok_0.0@ == rel && r->Ok_0.1@ == join_path(dest_root@, rel),
            None => r is Err && r->Err_0.path@ == src_path@ && !r->Err_0.success
                && opt_str(r->Err_0.error) == Some("Failed to determine relative path"@),
        },
{
    match strip_prefix(&chars_of(src_path), &chars_of(source_root)) {
        Some(rel) => {
            let dest = join(&chars_of(dest_root), &rel);
            Ok((string_from_chars(&rel), string_from_chars(&dest)))
        },
        None => Err(FileCopyResult {
            path: src_path.to_owned(),
            success: false,
            error: Some("Failed to determine relative path".to_owned()),
        }),
    }
}

/// The message of a failed shell command: its trimmed stderr, else its
/// trimmed stdout, else its exit status.
pub open spec fn failure_message(stderr: Seq<char>, stdout: Seq<char>, status: Seq<char>) -> Seq<char> {
    if trim(stderr).len() > 0 {
        trim(stderr)
    } else if trim(stdout).len() > 0 {
        trim(stdout)
    } else {
        "Command exited with status: "@ + status
    }
}

/// The message of a failed shell command.
pub fn command_failure_message(stderr: &str, stdout: &str, status: &str) -> (m: String)
    ensures
        m@ == failure_message(stderr@, stdout@, status@),
{
    let e = trim_chars(&chars_of(stderr));
    if e.len() > 0 {
        return string_from_chars(&e);
    }
    let o = trim_chars(&chars_of(stdout));
    if o.len() > 0 {
        return string_from_chars(&o);
    }
    prefixed("Command exited with status: ", status)
}

} // verus!
