//! Git operations for worktree management.
//!
//! Every operation runs the git CLI. The library decides which commands run
//! and in what order (a [`GitPlan`]), and interprets what git prints; the
//! caller runs the commands in the repository's working directory and hands
//! back the outcome (stdout on success, trimmed stderr as
//! [`GitError::Command`] on a non-zero exit).

use vstd::prelude::*;
use crate::path::{
    components, file_name, file_name_of, join, join_path, parent, parent_of, path_comps,
    root_comp, strip_prefix, strip_prefix_of,
};
use crate::text::{
    chars_eq, chars_of, contains_chars, contains_seq, decimal, ends_with, find_seq,
    first_occurrence, occurs_at, has_prefix, has_suffix, lines_chars, lines_of, parse_usize,
    parse_usize_spec, push_chars, slice_chars, split_chars, split_on, starts_with,
    string_from_chars, to_vec, trim, trim_chars, trim_end_char, trim_end_char_chars,
    usize_to_chars, views, words, words_chars, utf8_size, chars_in_bytes, is_ascii_char,
    utf8_at_least, chars_within_bytes,
};

verus! {

/// Errors of git operations.
#[derive(Debug, Clone)]
pub enum GitError {
    /// The command exited with an error; the message (usually git's stderr).
    Command(String),
    /// The command could not be started.
    Exec(String),
    /// git printed something that could not be parsed.
    Parse(String),
}

/// The text shown for a git error.
pub open spec fn error_message(e: GitError) -> Seq<char> {
    match e {
        GitError::Command(m) => "Git command failed: "@ + m@,
        GitError::Exec(m) => "Git command not found or failed to execute: "@ + m@,
        GitError::Parse(m) => "Failed to parse git output: "@ + m@,
    }
}

impl GitError {
    /// The text shown for the error.
    pub fn message(&self) -> (m: String)
        ensures
            m@ == error_message(*self),
    {
        let (prefix, detail) = match self {
            GitError::Command(m) => ("Git command failed: ", m),
            GitError::Exec(m) => ("Git command not found or failed to execute: ", m),
            GitError::Parse(m) => ("Failed to parse git output: ", m),
        };
        let mut v = chars_of(prefix);
        push_chars(&mut v, &chars_of(detail.as_str()));
        string_from_chars(&v)
    }
}

/// A git worktree.
#[derive(Debug, Clone)]
pub struct Worktree {
    pub name: String,
    pub path: String,
    pub branch: Option<String>,
    pub is_main: bool,
    pub locked: bool,
}

/// The views of a list of strings.
pub open spec fn strs(v: Seq<String>) -> Seq<Seq<char>> {
    Seq::new(v.len(), |i: int| v[i]@)
}

/// The view of an optional string.
pub open spec fn opt_str(o: Option<String>) -> Option<Seq<char>> {
    match o {
        Some(s) => Some(s@),
        None => None,
    }
}

/// The view of a worktree.
pub struct WorktreeView {
    pub name: Seq<char>,
    pub path: Seq<char>,
    pub branch: Option<Seq<char>>,
    pub is_main: bool,
    pub locked: bool,
}

impl View for Worktree {
    type V = WorktreeView;

    open spec fn view(&self) -> WorktreeView {
        WorktreeView {
            name: self.name@,
            path: self.path@,
            branch: opt_str(self.branch),
            is_main: self.is_main,
            locked: self.locked,
        }
    }
}

/// Git config key of the commands run before a worktree is created.
pub const CONFIG_PRE_CREATE_CMD: &'static str = "sashiki.template.preCreateCommand";

/// Git config key of the file patterns copied into a new worktree.
pub const CONFIG_FILE_COPY: &'static str = "sashiki.template.fileCopy";

/// Git config key of the file patterns kept in sync between worktrees.
pub const CONFIG_FILE_SYNC: &'static str = "sashiki.template.fileSync";

/// Git config key of the commands run after a worktree is created.
pub const CONFIG_POST_CREATE_CMD: &'static str = "sashiki.template.postCreateCommand";

/// Git config key of the working directory inside a new worktree.
pub const CONFIG_WORKING_DIR: &'static str = "sashiki.template.workingDirectory";

// ---------------------------------------------------------------------------
// Commands and plans
// ---------------------------------------------------------------------------

/// One git invocation: its arguments and what is written to its stdin.
#[derive(Debug, Clone)]
pub struct GitCommand {
    pub args: Vec<String>,
    pub input: Option<String>,
}

/// The view of a command.
pub struct CommandView {
    pub args: Seq<Seq<char>>,
    pub input: Option<Seq<char>>,
}

impl View for GitCommand {
    type V = CommandView;

    open spec fn view(&self) -> CommandView {
        CommandView { args: strs(self.args@), input: opt_str(self.input) }
    }
}

/// The views of a list of commands.
pub open spec fn cmds(v: Seq<GitCommand>) -> Seq<CommandView> {
    Seq::new(v.len(), |i: int| v[i]@)
}

/// Which commands run, in which order, and how their outcomes combine.
///
/// The `ignored` commands run first and their outcomes are discarded. The
/// `steps` run in order, stopping at the first error ([`next_in_order`] says
/// which step runs next, and [`lemma_run_stops_at_first_failure`] what such
/// a run has done); the main outcome is the
/// stdout of the last step, or that first error. When a `fallback` is given it
/// runs if the main outcome is an error, or, with `fallback_on_empty`, if it is
/// empty output. With `error_as_empty`, a final error becomes empty output.
#[derive(Debug, Clone)]
pub struct GitPlan {
    pub ignored: Vec<GitCommand>,
    pub steps: Vec<GitCommand>,
    pub fallback: Option<GitCommand>,
    pub fallback_on_empty: bool,
    pub error_as_empty: bool,
}

/// The view of a plan.
pub struct PlanView {
    pub ignored: Seq<CommandView>,
    pub steps: Seq<CommandView>,
    pub fallback: Option<CommandView>,
    pub fallback_on_empty: bool,
    pub error_as_empty: bool,
}

impl View for GitPlan {
    type V = PlanView;

    open spec fn view(&self) -> PlanView {
        PlanView {
            ignored: cmds(self.ignored@),
            steps: cmds(self.steps@),
            fallback: match self.fallback {
                Some(c) => Some(c@),
                None => None,
            },
            fallback_on_empty: self.fallback_on_empty,
            error_as_empty: self.error_as_empty,
        }
    }
}

/// A command with the given arguments and no input.
pub open spec fn command(args: Seq<Seq<char>>) -> CommandView {
    CommandView { args, input: None }
}

/// A plan that runs one command and reports its outcome.
pub open spec fn run(args: Seq<Seq<char>>) -> PlanView {
    PlanView {
        ignored: Seq::empty(),
        steps: seq![command(args)],
        fallback: None,
        fallback_on_empty: false,
        error_as_empty: false,
    }
}

/// A plan that runs one command and treats its failure as empty output.
pub open spec fn run_or_empty(args: Seq<Seq<char>>) -> PlanView {
    PlanView { error_as_empty: true, ..run(args) }
}

/// The plan that replaces all values of `key` by `values`: unset the key
/// (its failure ignored), then add each value in order.
pub open spec fn set_values_plan(key: Seq<char>, values: Seq<Seq<char>>) -> PlanView {
    PlanView {
        ignored: seq![command(seq!["config"@, "--local"@, "--unset-all"@, key])],
        steps: Seq::new(values.len(), |i: int| command(seq!["config"@, "--local"@, "--add"@, key, values[i]])),
        fallback: None,
        fallback_on_empty: false,
        error_as_empty: false,
    }
}

/// The plan that removes `key` from the local config; a missing key is not
/// an error.
pub open spec fn remove_plan(key: Seq<char>) -> PlanView {
    run_or_empty(seq!["config"@, "--local"@, "--unset-all"@, key])
}

/// Whether the fallback of `p` runs after the main outcome `main`.
pub open spec fn plan_wants_fallback(p: PlanView, main: Result<Seq<char>, GitError>) -> bool {
    p.fallback is Some && match main {
        Ok(out) => p.fallback_on_empty && out.len() == 0,
        Err(_) => true,
    }
}

/// The outcome of a plan, given the main outcome and that of the fallback.
pub open spec fn plan_outcome(
    p: PlanView,
    main: Result<Seq<char>, GitError>,
    fallback: Option<Result<Seq<char>, GitError>>,
) -> Result<Seq<char>, GitError> {
    let r = if plan_wants_fallback(p, main) && fallback is Some {
        match fallback.unwrap() {
            Ok(out) => Ok(out),
            Err(e) => match main {
                Err(first) => Err(first),
                Ok(_) => Err(e),
            },
        }
    } else {
        main
    };
    match r {
        Err(_) if p.error_as_empty => Ok(Seq::<char>::empty()),
        _ => r,
    }
}

/// The view of a command outcome.
pub open spec fn out_view(r: Result<String, GitError>) -> Result<Seq<char>, GitError> {
    match r {
        Ok(s) => Ok(s@),
        Err(e) => Err(e),
    }
}

/// After the `i`-th of `count` commands run in order ended (`ok` when it
/// succeeded): the index of the next one to run, or `None` when the run is
/// over, because this one failed or was the last.
pub open spec fn next_in_order_of(i: int, count: int, ok: bool) -> Option<int> {
    if ok && i + 1 < count {
        Some(i + 1)
    } else {
        None
    }
}

/// Whether the outcomes `oks` are those of a run of `count` commands that
/// followed [`next_in_order`] from the first: each but the last led to the
/// next, and the last ended the run.
pub open spec fn ran_in_order(oks: Seq<bool>, count: int) -> bool {
    &&& 0 < oks.len() <= count
    &&& forall|k: int| 0 <= k < oks.len() - 1 ==> next_in_order_of(k, count, #[trigger] oks[k]) == Some(k + 1)
    &&& next_in_order_of(oks.len() - 1, count, oks.last()) is None
}

/// Commands run in order stop at the first failure: every command that ran
/// before the last succeeded, and the run ended early only because the last
/// one failed; the commands after it were not run.
pub proof fn lemma_run_stops_at_first_failure(oks: Seq<bool>, count: int)
    requires
        ran_in_order(oks, count),
    ensures
        forall|k: int| 0 <= k < oks.len() - 1 ==> #[trigger] oks[k],
        oks.len() < count ==> !oks.last(),
        oks.last() ==> oks.len() == count,
{
    assert forall|k: int| 0 <= k < oks.len() - 1 implies #[trigger] oks[k] by {
        assert(next_in_order_of(k, count, oks[k]) == Some(k + 1));
    }
}

/// After the `i`-th of `count` commands (or plans) run in order ended with
/// `outcome`: the index of the next to run, or `None` when the run is over.
pub fn next_in_order(i: usize, count: usize, outcome: &Result<String, GitError>) -> (r: Option<usize>)
    requires
        i < count,
    ensures
        match r {
            Some(j) => next_in_order_of(i as int, count as int, outcome is Ok) == Some(j as int),
            None => next_in_order_of(i as int, count as int, outcome is Ok) is None,
        },
{
    if outcome.is_ok() && i + 1 < count {
        Some(i + 1)
    } else {
        None
    }
}

impl GitPlan {
    /// Whether the fallback has to run after the main outcome `main`.
    pub fn wants_fallback(&self, main: &Result<String, GitError>) -> (r: bool)
        ensures
            r == plan_wants_fallback(self@, out_view(*main)),
    {
        match &self.fallback {
            None => false,
            Some(_) => match main {
                Ok(out) => self.fallback_on_empty && out.as_str().is_empty(),
                Err(_) => true,
            },
        }
    }

    /// The outcome of the plan, from the main outcome and (when it ran) the
    /// fallback's.
    pub fn outcome(&self, main: Result<String, GitError>, fallback: Option<Result<String, GitError>>) -> (r: Result<String, GitError>)
        ensures
            out_view(r) == plan_outcome(self@, out_view(main), match fallback {
                Some(f) => Some(out_view(f)),
                None => None,
            }),
    {
        let wants = self.wants_fallback(&main);
        let r = if wants && fallback.is_some() {
            match fallback.unwrap() {
                Ok(out) => Ok(out),
                Err(e) => match main {
                    Err(first) => Err(first),
                    Ok(_) => Err(e),
                },
            }
        } else {
            main
        };
        match r {
            Err(_) if self.error_as_empty => Ok(String::new()),
            _ => r,
        }
    }
}

/// A string with the same characters as `s`.
pub fn arg(s: &str) -> (r: String)
    ensures
        r@ == s@,
{
    s.to_owned()
}

/// A command with no input.
fn cmd(args: Vec<String>) -> (c: GitCommand)
    ensures
        c@ == command(strs(args@)),
{
    GitCommand { args, input: None }
}

/// A plan that runs one command.
fn single(args: Vec<String>) -> (p: GitPlan)
    ensures
        p@ == run(strs(args@)),
{
    let mut steps = Vec::new();
    steps.push(cmd(args));
    let p = GitPlan {
        ignored: Vec::new(),
        steps,
        fallback: None,
        fallback_on_empty: false,
        error_as_empty: false,
    };
    assert(p@.steps =~= seq![command(strs(args@))]);
    assert(p@.ignored =~= Seq::<CommandView>::empty());
    p
}

/// A plan that runs one command with `input` on its stdin.
fn single_with_input(args: Vec<String>, input: String) -> (p: GitPlan)
    ensures
        p@ == run_with_input(strs(args@), input@),
{
    let mut steps = Vec::new();
    steps.push(GitCommand { args, input: Some(input) });
    let p = GitPlan {
        ignored: Vec::new(),
        steps,
        fallback: None,
        fallback_on_empty: false,
        error_as_empty: false,
    };
    assert(p@.steps =~= seq![CommandView { args: strs(args@), input: Some(input@) }]);
    assert(p@.ignored =~= Seq::<CommandView>::empty());
    p
}

/// Arguments from one to five words.
fn args1(a: &str) -> (v: Vec<String>)
    ensures
        strs(v@) == seq![a@],
{
    let mut v = Vec::new();
    v.push(arg(a));
    assert(strs(v@) =~= seq![a@]);
    v
}

fn args2(a: &str, b: &str) -> (v: Vec<String>)
    ensures
        strs(v@) == seq![a@, b@],
{
    let mut v = Vec::new();
    v.push(arg(a));
    v.push(arg(b));
    assert(strs(v@) =~= seq![a@, b@]);
    v
}

fn args3(a: &str, b: &str, c: &str) -> (v: Vec<String>)
    ensures
        strs(v@) == seq![a@, b@, c@],
{
    let mut v = Vec::new();
    v.push(arg(a));
    v.push(arg(b));
    v.push(arg(c));
    assert(strs(v@) =~= seq![a@, b@, c@]);
    v
}

fn args4(a: &str, b: &str, c: &str, d: &str) -> (v: Vec<String>)
    ensures
        strs(v@) == seq![a@, b@, c@, d@],
{
    let mut v = Vec::new();
    v.push(arg(a));
    v.push(arg(b));
    v.push(arg(c));
    v.push(arg(d));
    assert(strs(v@) =~= seq![a@, b@, c@, d@]);
    v
}

fn args5(a: &str, b: &str, c: &str, d: &str, e: &str) -> (v: Vec<String>)
    ensures
        strs(v@) == seq![a@, b@, c@, d@, e@],
{
    let mut v = Vec::new();
    v.push(arg(a));
    v.push(arg(b));
    v.push(arg(c));
    v.push(arg(d));
    v.push(arg(e));
    assert(strs(v@) =~= seq![a@, b@, c@, d@, e@]);
    v
}

/// `s` followed by `t`, as a string.
fn concat(s: &str, t: &[char]) -> (r: String)
    ensures
        r@ == s@ + t@,
{
    let mut v = chars_of(s);
    push_chars(&mut v, t);
    string_from_chars(&v)
}

// ---------------------------------------------------------------------------
// Branch names
// ---------------------------------------------------------------------------

/// Unicode general category Cc, as `char::is_control` tests it.
pub open spec fn is_control_char(c: char) -> bool {
    c <= '\u{1f}' || ('\u{7f}' <= c && c <= '\u{9f}')
}

/// Characters git forbids in branch names.
pub open spec fn is_forbidden_char(c: char) -> bool {
    c == ' ' || c == '~' || c == '^' || c == ':' || c == '?' || c == '*' || c == '['
        || c == '\\' || c == '\u{7f}'
}

/// The first rule that `name` breaks, or `None` when it is a valid branch name.
pub open spec fn branch_name_problem(name: Seq<char>) -> Option<Seq<char>> {
    if name.len() == 0 {
        Some("Branch name cannot be empty"@)
    } else if name[0] == '/' || name.last() == '/' {
        Some("Branch name cannot start or end with /"@)
    } else if name[0] == '.' || name.last() == '.' {
        Some("Branch name cannot start or end with ."@)
    } else if name[0] == '-' {
        Some("Branch name cannot start with -"@)
    } else if contains_seq(name, seq!['.', '.']) {
        Some("Branch name cannot contain .."@)
    } else if contains_seq(name, seq!['/', '/']) {
        Some("Branch name cannot contain //"@)
    } else if ends_with(name, ".lock"@) {
        Some("Branch name cannot end with .lock"@)
    } else if contains_seq(name, seq!['/', '.']) {
        Some("Branch name component cannot start with ."@)
    } else if contains_seq(name, ".lock/"@) {
        Some("Branch name component cannot end with .lock"@)
    } else if exists|i: int|
        0 <= i < name.len() && (is_control_char(#[trigger] name[i]) || is_forbidden_char(name[i])) {
        Some("Branch name contains invalid character"@)
    } else if contains_seq(name, seq!['@', '{']) {
        Some("Branch name cannot contain @{"@)
    } else if name == seq!['@'] {
        Some("Branch name cannot be @"@)
    } else {
        None
    }
}

/// Checks a branch name against git's ref-name rules, reporting the first
/// rule broken: each `/`-separated component is checked for a leading `.` and
/// a trailing `.lock`, and the name `@` alone is refused.
#[verifier::loop_isolation(false)]
pub fn validate_branch_name(name: &str) -> (r: Result<(), &'static str>)
    ensures
        match r {
            Ok(()) => branch_name_problem(name@) is None,
            Err(e) => branch_name_problem(name@) == Some(e@),
        },
{
    let n = chars_of(name);
    let len = n.len();
    if len == 0 {
        return Err("Branch name cannot be empty");
    }
    if n[0] == '/' || n[len - 1] == '/' {
        return Err("Branch name cannot start or end with /");
    }
    if n[0] == '.' || n[len - 1] == '.' {
        return Err("Branch name cannot start or end with .");
    }
    if n[0] == '-' {
        return Err("Branch name cannot start with -");
    }
    let mut dd: Vec<char> = Vec::new();
    dd.push('.');
    dd.push('.');
    assert(dd@ =~= seq!['.', '.']);
    if contains_chars(&n, &dd) {
        return Err("Branch name cannot contain ..");
    }
    let mut ss: Vec<char> = Vec::new();
    ss.push('/');
    ss.push('/');
    assert(ss@ =~= seq!['/', '/']);
    if contains_chars(&n, &ss) {
        return Err("Branch name cannot contain //");
    }
    let lock = chars_of(".lock");
    if has_suffix(&n, &lock) {
        return Err("Branch name cannot end with .lock");
    }
    let mut sd: Vec<char> = Vec::new();
    sd.push('/');
    sd.push('.');
    assert(sd@ =~= seq!['/', '.']);
    if contains_chars(&n, &sd) {
        return Err("Branch name component cannot start with .");
    }
    let lock_slash = chars_of(".lock/");
    if contains_chars(&n, &lock_slash) {
        return Err("Branch name component cannot end with .lock");
    }
    let mut i: usize = 0;
    while i < len
        invariant
            len == n@.len(),
            n@ == name@,
            i <= len,
            forall|j: int| 0 <= j < i ==> !(is_control_char(#[trigger] n@[j]) || is_forbidden_char(n@[j])),
        decreases len - i,
    {
        let c = n[i];
        if c <= '\u{1f}' || ('\u{7f}' <= c && c <= '\u{9f}') || c == ' ' || c == '~' || c == '^'
            || c == ':' || c == '?' || c == '*' || c == '[' || c == '\\' || c == '\u{7f}' {
            assert(is_control_char(n@[i as int]) || is_forbidden_char(n@[i as int]));
            return Err("Branch name contains invalid character");
        }
        i += 1;
    }
    let mut at: Vec<char> = Vec::new();
    at.push('@');
    at.push('{');
    assert(at@ =~= seq!['@', '{']);
    if contains_chars(&n, &at) {
        return Err("Branch name cannot contain @{");
    }
    if len == 1 && n[0] == '@' {
        assert(n@ =~= seq!['@']);
        return Err("Branch name cannot be @");
    }
    Ok(())
}

// ---------------------------------------------------------------------------
// Repository
// ---------------------------------------------------------------------------

/// A repository: the main worktree's working directory and the shared
/// `.git` directory.
#[derive(Debug, Clone)]
pub struct GitRepo {
    workdir: String,
    git_dir: String,
}

/// `file` relative to `workdir` when it lies under it, otherwise unchanged.
pub open spec fn rel_path(workdir: Seq<char>, file: Seq<char>) -> Seq<char> {
    match strip_prefix_of(file, workdir) {
        Some(r) => r,
        None => file,
    }
}

/// A plan with one command that receives `input` on stdin.
pub open spec fn run_with_input(args: Seq<Seq<char>>, input: Seq<char>) -> PlanView {
    PlanView { steps: seq![CommandView { args, input: Some(input) }], ..run(args) }
}

/// A plan whose command falls back to a second one when it fails.
pub open spec fn run_or_else(args: Seq<Seq<char>>, fallback: Seq<Seq<char>>) -> PlanView {
    PlanView { fallback: Some(command(fallback)), ..run(args) }
}

/// The repository whose toplevel and common git directory git reported.
pub open spec fn opened_repo(
    path: Seq<char>,
    toplevel: Seq<char>,
    common: Seq<char>,
    canonical: Option<Seq<char>>,
) -> (Seq<char>, Seq<char>) {
    let raw = trim(common);
    let git_dir = if raw.len() > 0 && raw[0] == '/' {
        raw
    } else {
        match canonical {
            Some(c) => c,
            None => join_path(path, raw),
        }
    };
    (trim(toplevel), git_dir)
}

/// The directory holding linked worktrees: `{parent}/{name}.worktrees`.
pub open spec fn worktrees_dir_of(workdir: Seq<char>) -> Option<Seq<char>> {
    match (parent_of(workdir), file_name_of(workdir)) {
        (Some(p), Some(n)) => Some(join_path(p, n + ".worktrees"@)),
        _ => None,
    }
}

/// `s` with every `/` replaced by `-`.
pub open spec fn dash_slashes(s: Seq<char>) -> Seq<char> {
    Seq::new(s.len(), |i: int| if s[i] == '/' { '-' } else { s[i] })
}

/// The worktree name used for a branch: the branch with every `/` replaced
/// by `-`.
pub fn worktree_name_for_branch(branch: &str) -> (r: String)
    ensures
        r@ == dash_slashes(branch@),
{
    let b = chars_of(branch);
    let mut safe: Vec<char> = Vec::new();
    let mut i: usize = 0;
    while i < b.len()
        invariant
            i <= b@.len(),
            safe@ == dash_slashes(b@).take(i as int),
        decreases b@.len() - i,
    {
        safe.push(if b[i] == '/' { '-' } else { b[i] });
        i += 1;
        assert(safe@ =~= dash_slashes(b@).take(i as int));
    }
    assert(dash_slashes(b@).take(b@.len() as int) =~= dash_slashes(b@));
    string_from_chars(&safe)
}

impl GitRepo {
    /// The main worktree's working directory.
    pub closed spec fn spec_workdir(&self) -> Seq<char> {
        self.workdir@
    }

    /// The shared `.git` directory.
    pub closed spec fn spec_git_dir(&self) -> Seq<char> {
        self.git_dir@
    }

    /// The two commands that locate a repository from a path inside it:
    /// its toplevel, then its common git directory.
    pub fn open_plans() -> (r: (GitPlan, GitPlan))
        ensures
            r.0@ == run(seq!["rev-parse"@, "--show-toplevel"@]),
            r.1@ == run(seq!["rev-parse"@, "--git-common-dir"@]),
    {
        (single(args2("rev-parse", "--show-toplevel")), single(args2("rev-parse", "--git-common-dir")))
    }

    /// What runs after the toplevel lookup of [`GitRepo::open_plans`] ended
    /// with `toplevel`: the common-directory lookup when the toplevel was
    /// found; nothing when it failed, since the repository cannot be opened
    /// then (see [`GitRepo::open`]).
    pub fn open_next_plan(toplevel: &Result<String, GitError>) -> (r: Option<GitPlan>)
        ensures
            match toplevel {
                Ok(_) => r matches Some(p) && p@ == run(seq!["rev-parse"@, "--git-common-dir"@]),
                Err(_) => r is None,
            },
    {
        match toplevel {
            Ok(_) => Some(single(args2("rev-parse", "--git-common-dir"))),
            Err(_) => None,
        }
    }

    /// The path to canonicalize when git reports a relative common directory.
    pub fn common_dir_candidate(path: &str, common: &str) -> (r: Option<String>)
        ensures
            match r {
                Some(c) => {
                    let raw = trim(common@);
                    &&& !(raw.len() > 0 && raw[0] == '/')
                    &&& c@ == join_path(path@, raw)
                },
                None => {
                    let raw = trim(common@);
                    raw.len() > 0 && raw[0] == '/'
                },
            },
    {
        let raw = trim_chars(&chars_of(common));
        if raw.len() > 0 && raw[0] == '/' {
            None
        } else {
            let p = chars_of(path);
            Some(string_from_chars(&join(&p, &raw)))
        }
    }

    /// Opens the repository from the outcomes of the two commands of
    /// [`GitRepo::open_plans`], run in `path`; `canonical` is the
    /// canonicalized [`GitRepo::common_dir_candidate`], when that succeeded.
    pub fn open(
        path: &str,
        toplevel: Result<String, GitError>,
        common: Result<String, GitError>,
        canonical: Option<String>,
    ) -> (r: Result<GitRepo, GitError>)
        ensures
            match (toplevel, common) {
                (Err(e), _) => r == Err::<GitRepo, GitError>(e),
                (Ok(_), Err(e)) => r == Err::<GitRepo, GitError>(e),
                (Ok(t), Ok(c)) => r matches Ok(repo) && (repo.spec_workdir(), repo.spec_git_dir())
                    == opened_repo(path@, t@, c@, opt_str(canonical)),
            },
    {
        let t = match toplevel {
            Ok(t) => t,
            Err(e) => {
                return Err(e);
            },
        };
        let c = match common {
            Ok(c) => c,
            Err(e) => {
                return Err(e);
            },
        };
        let workdir = trim_chars(&chars_of(t.as_str()));
        let raw = trim_chars(&chars_of(c.as_str()));
        let git_dir = if raw.len() > 0 && raw[0] == '/' {
            raw
        } else {
            match canonical {
                Some(cc) => chars_of(cc.as_str()),
                None => {
                    let p = chars_of(path);
                    join(&p, &raw)
                },
            }
        };
        Ok(GitRepo { workdir: string_from_chars(&workdir), git_dir: string_from_chars(&git_dir) })
    }

    /// A repository from known paths.
    pub fn from_parts(workdir: String, git_dir: String) -> (r: GitRepo)
        ensures
            r.spec_workdir() == workdir@,
            r.spec_git_dir() == git_dir@,
    {
        GitRepo { workdir, git_dir }
    }

    /// The main worktree's working directory.
    pub fn workdir(&self) -> (r: &str)
        ensures
            r@ == self.spec_workdir(),
    {
        self.workdir.as_str()
    }

    /// The shared `.git` directory.
    pub fn git_dir(&self) -> (r: &str)
        ensures
            r@ == self.spec_git_dir(),
    {
        self.git_dir.as_str()
    }

    /// `file_path` relative to the working directory, when it lies under it.
    pub fn relative_path_string(&self, file_path: &str) -> (r: String)
        ensures
            r@ == rel_path(self.spec_workdir(), file_path@),
    {
        let f = chars_of(file_path);
        let w = chars_of(self.workdir.as_str());
        match strip_prefix(&f, &w) {
            Some(r) => string_from_chars(&r),
            None => string_from_chars(&f),
        }
    }

    /// The directory holding linked worktrees (`{project}.worktrees`).
    pub fn worktrees_dir(&self) -> (r: Option<String>)
        ensures
            opt_str(r) == worktrees_dir_of(self.spec_workdir()),
    {
        let w = chars_of(self.workdir.as_str());
        let p = match parent(&w) {
            Some(p) => p,
            None => {
                return None;
            },
        };
        let mut n = match file_name(&w) {
            Some(n) => n,
            None => {
                return None;
            },
        };
        let suffix = chars_of(".worktrees");
        push_chars(&mut n, &suffix);
        Some(string_from_chars(&join(&p, &n)))
    }

    /// The path of a new worktree for `branch`: `{project}.worktrees/{branch}`
    /// with every `/` of the branch replaced by `-`.
    pub fn generate_worktree_path(&self, branch: &str) -> (r: Option<String>)
        ensures
            opt_str(r) == match worktrees_dir_of(self.spec_workdir()) {
                Some(d) => Some(join_path(d, dash_slashes(branch@))),
                None => None,
            },
    {
        let dir = match self.worktrees_dir() {
            Some(d) => d,
            None => {
                return None;
            },
        };
        let b = chars_of(branch);
        let mut safe: Vec<char> = Vec::new();
        let mut i: usize = 0;
        while i < b.len()
            invariant
                i <= b@.len(),
                safe@ == dash_slashes(b@).take(i as int),
            decreases b@.len() - i,
        {
            safe.push(if b[i] == '/' { '-' } else { b[i] });
            i += 1;
            assert(safe@ =~= dash_slashes(b@).take(i as int));
        }
        assert(dash_slashes(b@).take(b@.len() as int) =~= dash_slashes(b@));
        let d = chars_of(dir.as_str());
        Some(string_from_chars(&join(&d, &safe)))
    }

    /// The administrative directory git keeps for the linked worktree `name`
    /// (`{git_dir}/worktrees/{name}`); an orphaned one is removed before a
    /// worktree of that name is created.
    pub fn orphaned_worktree_dir(&self, name: &str) -> (r: String)
        ensures
            r@ == join_path(join_path(self.spec_git_dir(), "worktrees"@), name@),
    {
        let g = chars_of(self.git_dir.as_str());
        let w = chars_of("worktrees");
        let gw = join(&g, &w);
        let n = chars_of(name);
        string_from_chars(&join(&gw, &n))
    }
}


/// Scope of changes to include when pushing a stash.
#[derive(Debug, Clone, Copy, PartialEq, Eq, Structural)]
pub enum StashMode {
    /// Staged and unstaged tracked changes (plain `git stash push`).
    All,
    /// Only staged changes (`--staged`).
    Staged,
    /// Staged, unstaged and untracked files (`--include-untracked`).
    IncludeUntracked,
}

impl Default for StashMode {
    fn default() -> (m: StashMode)
        ensures
            m == StashMode::All,
    {
        StashMode::All
    }
}

/// The arguments of `git stash push` for a mode and an optional message.
pub open spec fn stash_push_args(message: Option<Seq<char>>, mode: StashMode) -> Seq<Seq<char>> {
    let base = seq!["stash"@, "push"@];
    let with_mode = match mode {
        StashMode::Staged => base.push("--staged"@),
        StashMode::IncludeUntracked => base.push("--include-untracked"@),
        StashMode::All => base,
    };
    match message {
        Some(m) if trim(m).len() > 0 => with_mode.push("-m"@).push(trim(m)),
        _ => with_mode,
    }
}

/// The arguments of `git apply` for a patch.
pub open spec fn apply_args(cached: bool, unidiff_zero: bool, reverse: bool) -> Seq<Seq<char>> {
    let base = if cached {
        seq!["apply"@, "--cached"@, "--recount"@, "--whitespace=nowarn"@]
    } else {
        seq!["apply"@, "--recount"@, "--whitespace=nowarn"@]
    };
    let a = if unidiff_zero { base.push("--unidiff-zero"@) } else { base };
    let b = if reverse { a.push("-R"@) } else { a };
    b.push("-"@)
}

/// The arguments of a `git diff` of one file, optionally staged and with a
/// given number of context lines.
pub open spec fn file_diff_args(cached: bool, unified: Option<usize>, rel: Seq<char>) -> Seq<Seq<char>> {
    let base = if cached { seq!["diff"@, "--cached"@] } else { seq!["diff"@] };
    let with_context = match unified {
        Some(n) => base.push("--unified="@ + decimal(n as nat)),
        None => base,
    };
    with_context.push("--"@).push(rel)
}

/// The add command for a new worktree, given whether the branch exists
/// locally and as `origin/{branch}`.
pub open spec fn worktree_add_args(branch: Seq<char>, path: Seq<char>, local: bool, remote: bool) -> Seq<Seq<char>> {
    if local {
        seq!["worktree"@, "add"@, path, branch]
    } else if remote {
        seq!["worktree"@, "add"@, "-b"@, branch, path, "origin/"@ + branch]
    } else {
        seq!["worktree"@, "add"@, "-b"@, branch, path, "HEAD"@]
    }
}

/// Pushes a string with the characters `v`.
fn push_arg(args: &mut Vec<String>, v: &[char])
    ensures
        strs(final(args)@) == strs(old(args)@).push(v@),
{
    args.push(string_from_chars(v));
    assert(strs(args@) =~= strs(old(args)@).push(v@));
}

/// Pushes a string.
fn push_string(args: &mut Vec<String>, s: String)
    ensures
        strs(final(args)@) == strs(old(args)@).push(s@),
{
    args.push(s);
    assert(strs(args@) =~= strs(old(args)@).push(s@));
}

/// Pushes a copy of `s`.
fn push_str_arg(args: &mut Vec<String>, s: &str)
    ensures
        strs(final(args)@) == strs(old(args)@).push(s@),
{
    args.push(arg(s));
    assert(strs(args@) =~= strs(old(args)@).push(s@));
}

impl GitRepo {
    /// `git worktree list --porcelain`.
    pub fn list_worktrees_plan(&self) -> (p: GitPlan)
        ensures
            p@ == run(seq!["worktree"@, "list"@, "--porcelain"@]),
    {
        single(args3("worktree", "list", "--porcelain"))
    }

    /// `git worktree prune`, whose failure is ignored.
    pub fn prune_worktrees_plan(&self) -> (p: GitPlan)
        ensures
            p@ == run_or_empty(seq!["worktree"@, "prune"@]),
    {
        let mut p = single(args2("worktree", "prune"));
        p.error_as_empty = true;
        p
    }

    /// Checks whether `refs/heads/{branch}` (or `refs/remotes/origin/{branch}`
    /// when `remote`) exists; the branch exists when the plan succeeds.
    pub fn branch_exists_plan(&self, branch: &str, remote: bool) -> (p: GitPlan)
        ensures
            p@ == run(seq!["rev-parse"@, "--verify"@, (if remote {
                "refs/remotes/origin/"@
            } else {
                "refs/heads/"@
            }) + branch@]),
    {
        let mut args = args2("rev-parse", "--verify");
        let r = if remote {
            concat("refs/remotes/origin/", &chars_of(branch))
        } else {
            concat("refs/heads/", &chars_of(branch))
        };
        push_string(&mut args, r);
        assert(strs(args@) =~= seq!["rev-parse"@, "--verify"@, r@]);
        single(args)
    }

    /// The command that creates a worktree at `path` on `branch`, and the
    /// worktree it creates. Branch resolution: an existing local branch is
    /// used; otherwise `origin/{branch}` is tracked; otherwise a new branch
    /// starts at `HEAD`.
    pub fn create_worktree(
        &self,
        name: &str,
        branch: &str,
        path: &str,
        local_exists: bool,
        remote_exists: bool,
    ) -> (r: (GitPlan, Worktree))
        ensures
            r.0@ == run(worktree_add_args(branch@, path@, local_exists, remote_exists)),
            r.1@ == (WorktreeView {
                name: name@,
                path: path@,
                branch: Some(branch@),
                is_main: false,
                locked: false,
            }),
    {
        let mut args = args2("worktree", "add");
        if local_exists {
            push_str_arg(&mut args, path);
            push_str_arg(&mut args, branch);
        } else {
            push_str_arg(&mut args, "-b");
            push_str_arg(&mut args, branch);
            push_str_arg(&mut args, path);
            if remote_exists {
                let o = concat("origin/", &chars_of(branch));
                push_string(&mut args, o);
            } else {
                push_str_arg(&mut args, "HEAD");
            }
        }
        assert(strs(args@) =~= worktree_add_args(branch@, path@, local_exists, remote_exists));
        let wt = Worktree {
            name: arg(name),
            path: arg(path),
            branch: Some(arg(branch)),
            is_main: false,
            locked: false,
        };
        (single(args), wt)
    }

    /// `git worktree remove --force {name}`.
    pub fn remove_worktree(&self, name: &str) -> (p: GitPlan)
        ensures
            p@ == run(seq!["worktree"@, "remove"@, "--force"@, name@]),
    {
        let mut args = args3("worktree", "remove", "--force");
        push_str_arg(&mut args, name);
        assert(strs(args@) =~= seq!["worktree"@, "remove"@, "--force"@, name@]);
        single(args)
    }

    /// `git status --porcelain=v1`.
    pub fn get_changed_files_plan(&self) -> (p: GitPlan)
        ensures
            p@ == run(seq!["status"@, "--porcelain=v1"@]),
    {
        single(args2("status", "--porcelain=v1"))
    }

    /// The diff of a file against `HEAD`; when that fails or is empty (no
    /// `HEAD` yet), the unstaged diff, and empty output when that fails too.
    pub fn get_file_diff(&self, file_path: &str) -> (p: GitPlan)
        ensures
            p@ == (PlanView {
                fallback_on_empty: true,
                error_as_empty: true,
                ..run_or_else(
                    seq!["diff"@, "HEAD"@, "--"@, rel_path(self.spec_workdir(), file_path@)],
                    seq!["diff"@, "--"@, rel_path(self.spec_workdir(), file_path@)],
                )
            }),
    {
        let rel = self.relative_path_string(file_path);
        let mut a = args3("diff", "HEAD", "--");
        push_string(&mut a, rel.clone());
        let mut b = args2("diff", "--");
        push_string(&mut b, rel);
        assert(strs(a@) =~= seq!["diff"@, "HEAD"@, "--"@, rel_path(self.spec_workdir(), file_path@)]);
        assert(strs(b@) =~= seq!["diff"@, "--"@, rel_path(self.spec_workdir(), file_path@)]);
        let mut p = single(a);
        p.fallback = Some(cmd(b));
        p.fallback_on_empty = true;
        p.error_as_empty = true;
        p
    }

    /// `git show HEAD:{path}`.
    pub fn get_file_content_from_head(&self, file_path: &str) -> (p: GitPlan)
        ensures
            p@ == run(seq!["show"@, "HEAD:"@ + rel_path(self.spec_workdir(), file_path@)]),
    {
        let rel = self.relative_path_string(file_path);
        let mut args = args1("show");
        push_string(&mut args, concat("HEAD:", &chars_of(rel.as_str())));
        assert(strs(args@) =~= seq!["show"@, "HEAD:"@ + rel_path(self.spec_workdir(), file_path@)]);
        single(args)
    }

    /// `git show :{path}` (the staged content).
    pub fn get_file_content_from_index(&self, file_path: &str) -> (p: GitPlan)
        ensures
            p@ == run(seq!["show"@, ":"@ + rel_path(self.spec_workdir(), file_path@)]),
    {
        let rel = self.relative_path_string(file_path);
        let mut args = args1("show");
        push_string(&mut args, concat(":", &chars_of(rel.as_str())));
        assert(strs(args@) =~= seq!["show"@, ":"@ + rel_path(self.spec_workdir(), file_path@)]);
        single(args)
    }

    /// The staged diff of a file; a failure reads as no diff.
    pub fn get_file_diff_staged(&self, file_path: &str) -> (p: GitPlan)
        ensures
            p@ == run_or_empty(seq!["diff"@, "--cached"@, "--"@, rel_path(self.spec_workdir(), file_path@)]),
    {
        let mut args = args3("diff", "--cached", "--");
        push_string(&mut args, self.relative_path_string(file_path));
        assert(strs(args@) =~= seq!["diff"@, "--cached"@, "--"@, rel_path(self.spec_workdir(), file_path@)]);
        let mut p = single(args);
        p.error_as_empty = true;
        p
    }

    /// The unstaged diff of a file; a failure reads as no diff.
    pub fn get_file_diff_unstaged(&self, file_path: &str) -> (p: GitPlan)
        ensures
            p@ == run_or_empty(seq!["diff"@, "--"@, rel_path(self.spec_workdir(), file_path@)]),
    {
        let mut args = args2("diff", "--");
        push_string(&mut args, self.relative_path_string(file_path));
        assert(strs(args@) =~= seq!["diff"@, "--"@, rel_path(self.spec_workdir(), file_path@)]);
        let mut p = single(args);
        p.error_as_empty = true;
        p
    }

    /// The unstaged diff of a file, with `unified` lines of context when given.
    pub fn get_unstaged_file_diff(&self, file_path: &str, unified: Option<usize>) -> (p: GitPlan)
        ensures
            p@ == run(file_diff_args(false, unified, rel_path(self.spec_workdir(), file_path@))),
    {
        self.file_diff_plan(false, file_path, unified)
    }

    /// The staged diff of a file, with `unified` lines of context when given.
    pub fn get_staged_file_diff(&self, file_path: &str, unified: Option<usize>) -> (p: GitPlan)
        ensures
            p@ == run(file_diff_args(true, unified, rel_path(self.spec_workdir(), file_path@))),
    {
        self.file_diff_plan(true, file_path, unified)
    }

    fn file_diff_plan(&self, cached: bool, file_path: &str, unified: Option<usize>) -> (p: GitPlan)
        ensures
            p@ == run(file_diff_args(cached, unified, rel_path(self.spec_workdir(), file_path@))),
    {
        let mut args = if cached { args2("diff", "--cached") } else { args1("diff") };
        match unified {
            Some(n) => {
                let mut u = chars_of("--unified=");
                push_chars(&mut u, &usize_to_chars(n));
                push_arg(&mut args, &u);
            },
            None => {},
        }
        push_str_arg(&mut args, "--");
        let rel = self.relative_path_string(file_path);
        push_string(&mut args, rel);
        assert(strs(args@) =~= file_diff_args(cached, unified, rel_path(self.spec_workdir(), file_path@)));
        single(args)
    }

    /// `git apply --cached` of a patch read from stdin.
    pub fn apply_patch_to_index(&self, patch: &str, unidiff_zero: bool, reverse: bool) -> (p: GitPlan)
        ensures
            p@ == run_with_input(apply_args(true, unidiff_zero, reverse), patch@),
    {
        Self::apply_plan(true, patch, unidiff_zero, reverse)
    }

    /// `git apply` to the working tree of a patch read from stdin.
    pub fn apply_patch_to_worktree(&self, patch: &str, unidiff_zero: bool, reverse: bool) -> (p: GitPlan)
        ensures
            p@ == run_with_input(apply_args(false, unidiff_zero, reverse), patch@),
    {
        Self::apply_plan(false, patch, unidiff_zero, reverse)
    }

    fn apply_plan(cached: bool, patch: &str, unidiff_zero: bool, reverse: bool) -> (p: GitPlan)
        ensures
            p@ == run_with_input(apply_args(cached, unidiff_zero, reverse), patch@),
    {
        let mut args = if cached {
            args4("apply", "--cached", "--recount", "--whitespace=nowarn")
        } else {
            args3("apply", "--recount", "--whitespace=nowarn")
        };
        if unidiff_zero {
            push_str_arg(&mut args, "--unidiff-zero");
        }
        if reverse {
            push_str_arg(&mut args, "-R");
        }
        push_str_arg(&mut args, "-");
        assert(strs(args@) =~= apply_args(cached, unidiff_zero, reverse));
        single_with_input(args, arg(patch))
    }

    /// Stages a file.
    pub fn stage_file(&self, file_path: &str) -> (p: GitPlan)
        ensures
            p@ == run(seq!["add"@, "--"@, rel_path(self.spec_workdir(), file_path@)]),
    {
        let mut args = args2("add", "--");
        push_string(&mut args, self.relative_path_string(file_path));
        assert(strs(args@) =~= seq!["add"@, "--"@, rel_path(self.spec_workdir(), file_path@)]);
        single(args)
    }

    /// Unstages a file; when `git restore --staged` fails (no `HEAD` yet),
    /// `git rm --cached` instead, reporting the first error if both fail.
    pub fn unstage_file(&self, file_path: &str) -> (p: GitPlan)
        ensures
            p@ == run_or_else(
                seq!["restore"@, "--staged"@, "--"@, rel_path(self.spec_workdir(), file_path@)],
                seq!["rm"@, "--cached"@, "--quiet"@, "--"@, rel_path(self.spec_workdir(), file_path@)],
            ),
    {
        let rel = self.relative_path_string(file_path);
        let mut a = args3("restore", "--staged", "--");
        push_string(&mut a, rel.clone());
        let mut b = args4("rm", "--cached", "--quiet", "--");
        push_string(&mut b, rel);
        assert(strs(a@) =~= seq!["restore"@, "--staged"@, "--"@, rel_path(self.spec_workdir(), file_path@)]);
        assert(strs(b@) =~= seq!["rm"@, "--cached"@, "--quiet"@, "--"@, rel_path(self.spec_workdir(), file_path@)]);
        let mut p = single(a);
        p.fallback = Some(cmd(b));
        p
    }

    /// Discards the unstaged changes of a tracked file.
    pub fn restore_file(&self, file_path: &str) -> (p: GitPlan)
        ensures
            p@ == run(seq!["restore"@, "--"@, rel_path(self.spec_workdir(), file_path@)]),
    {
        let mut args = args2("restore", "--");
        push_string(&mut args, self.relative_path_string(file_path));
        assert(strs(args@) =~= seq!["restore"@, "--"@, rel_path(self.spec_workdir(), file_path@)]);
        single(args)
    }

    /// Deletes an untracked file.
    pub fn clean_file(&self, file_path: &str) -> (p: GitPlan)
        ensures
            p@ == run(seq!["clean"@, "-f"@, "--"@, rel_path(self.spec_workdir(), file_path@)]),
    {
        let mut args = args3("clean", "-f", "--");
        push_string(&mut args, self.relative_path_string(file_path));
        assert(strs(args@) =~= seq!["clean"@, "-f"@, "--"@, rel_path(self.spec_workdir(), file_path@)]);
        single(args)
    }

    /// Stages every change.
    pub fn stage_all(&self) -> (p: GitPlan)
        ensures
            p@ == run(seq!["add"@, "-A"@]),
    {
        single(args2("add", "-A"))
    }

    /// Unstages everything; falls back to `git rm --cached -r` with no `HEAD`.
    pub fn unstage_all(&self) -> (p: GitPlan)
        ensures
            p@ == run_or_else(
                seq!["restore"@, "--staged"@, "."@],
                seq!["rm"@, "--cached"@, "-r"@, "--quiet"@, "."@],
            ),
    {
        let mut p = single(args3("restore", "--staged", "."));
        p.fallback = Some(cmd(args5("rm", "--cached", "-r", "--quiet", ".")));
        p
    }

    /// Commits with a message.
    pub fn commit(&self, message: &str) -> (p: GitPlan)
        ensures
            p@ == run(seq!["commit"@, "-m"@, message@]),
    {
        let mut args = args2("commit", "-m");
        push_str_arg(&mut args, message);
        assert(strs(args@) =~= seq!["commit"@, "-m"@, message@]);
        single(args)
    }

    /// `git stash list` with each entry as `reference NUL subject`.
    pub fn list_stashes_plan(&self) -> (p: GitPlan)
        ensures
            p@ == run(seq!["stash"@, "list"@, "--pretty=format:%gd%x00%s"@]),
    {
        single(args3("stash", "list", "--pretty=format:%gd%x00%s"))
    }

    /// Pushes a stash of the given scope, with the message when it is not blank.
    pub fn create_stash(&self, message: Option<&str>, mode: StashMode) -> (p: GitPlan)
        ensures
            p@ == run(stash_push_args(match message {
                Some(m) => Some(m@),
                None => None,
            }, mode)),
    {
        let mut args = args2("stash", "push");
        match mode {
            StashMode::Staged => push_str_arg(&mut args, "--staged"),
            StashMode::IncludeUntracked => push_str_arg(&mut args, "--include-untracked"),
            StashMode::All => {},
        }
        match message {
            Some(m) => {
                let t = trim_chars(&chars_of(m));
                if t.len() > 0 {
                    push_str_arg(&mut args, "-m");
                    push_arg(&mut args, &t);
                }
            },
            None => {},
        }
        assert(strs(args@) =~= stash_push_args(match message {
            Some(m) => Some(m@),
            None => None,
        }, mode));
        single(args)
    }

    /// `git stash show --name-status {reference}`.
    pub fn stash_show_files_plan(&self, reference: &str) -> (p: GitPlan)
        ensures
            p@ == run(seq!["stash"@, "show"@, "--name-status"@, reference@]),
    {
        let mut args = args3("stash", "show", "--name-status");
        push_str_arg(&mut args, reference);
        assert(strs(args@) =~= seq!["stash"@, "show"@, "--name-status"@, reference@]);
        single(args)
    }

    /// Applies a stash.
    pub fn apply_stash(&self, reference: &str) -> (p: GitPlan)
        ensures
            p@ == run(seq!["stash"@, "apply"@, reference@]),
    {
        let mut args = args2("stash", "apply");
        push_str_arg(&mut args, reference);
        assert(strs(args@) =~= seq!["stash"@, "apply"@, reference@]);
        single(args)
    }

    /// Drops a stash.
    pub fn drop_stash(&self, reference: &str) -> (p: GitPlan)
        ensures
            p@ == run(seq!["stash"@, "drop"@, reference@]),
    {
        let mut args = args2("stash", "drop");
        push_str_arg(&mut args, reference);
        assert(strs(args@) =~= seq!["stash"@, "drop"@, reference@]);
        single(args)
    }

    /// Applies and drops a stash; on conflict git keeps the stash.
    pub fn pop_stash(&self, reference: &str) -> (p: GitPlan)
        ensures
            p@ == run(seq!["stash"@, "pop"@, reference@]),
    {
        let mut args = args2("stash", "pop");
        push_str_arg(&mut args, reference);
        assert(strs(args@) =~= seq!["stash"@, "pop"@, reference@]);
        single(args)
    }

    /// Amends the last commit: with a message read from stdin (keeping a
    /// multi-line body intact), or keeping the existing message.
    pub fn amend_commit(&self, message: Option<&str>) -> (p: GitPlan)
        ensures
            p@ == match message {
                Some(m) => run_with_input(seq!["commit"@, "--amend"@, "-F"@, "-"@], m@),
                None => run(seq!["commit"@, "--amend"@, "--no-edit"@]),
            },
    {
        match message {
            Some(m) => {
                single_with_input(args4("commit", "--amend", "-F", "-"), arg(m))
            },
            None => single(args3("commit", "--amend", "--no-edit")),
        }
    }

    /// `git log -1 --format=%B`.
    pub fn get_last_commit_message_plan(&self) -> (p: GitPlan)
        ensures
            p@ == run(seq!["log"@, "-1"@, "--format=%B"@]),
    {
        single(args3("log", "-1", "--format=%B"))
    }

    /// Undoes the last commit, leaving its changes staged.
    pub fn undo_last_commit(&self) -> (p: GitPlan)
        ensures
            p@ == run(seq!["reset"@, "--soft"@, "HEAD~1"@]),
    {
        single(args3("reset", "--soft", "HEAD~1"))
    }

    /// Restores tracked files (ignoring the failure with no `HEAD`), then
    /// removes untracked files and directories.
    pub fn discard_all_changes(&self) -> (p: GitPlan)
        ensures
            p@ == (PlanView { ignored: seq![command(seq!["restore"@, "."@])], ..run(seq!["clean"@, "-fd"@]) }),
    {
        let mut p = single(args2("clean", "-fd"));
        p.ignored.push(cmd(args2("restore", ".")));
        assert(p@.ignored =~= seq![command(seq!["restore"@, "."@])]);
        p
    }

    /// `git config --get-all {key}`.
    pub fn get_config_values_plan(&self, key: &str) -> (p: GitPlan)
        ensures
            p@ == run(seq!["config"@, "--get-all"@, key@]),
    {
        let mut args = args2("config", "--get-all");
        push_str_arg(&mut args, key);
        assert(strs(args@) =~= seq!["config"@, "--get-all"@, key@]);
        single(args)
    }

    /// `git config --get {key}`.
    pub fn get_config_value_plan(&self, key: &str) -> (p: GitPlan)
        ensures
            p@ == run(seq!["config"@, "--get"@, key@]),
    {
        let mut args = args2("config", "--get");
        push_str_arg(&mut args, key);
        assert(strs(args@) =~= seq!["config"@, "--get"@, key@]);
        single(args)
    }

    /// Replaces all values of a multi-valued key: unsets it (ignoring a
    /// missing key), then adds each value in order; the first add that fails
    /// ends the plan with its error, and the later values are not added.
    pub fn set_config_values(&self, key: &str, values: &[String]) -> (p: GitPlan)
        ensures
            p@ == set_values_plan(key@, strs(values@)),
    {
        let mut unset = args3("config", "--local", "--unset-all");
        push_str_arg(&mut unset, key);
        assert(strs(unset@) =~= seq!["config"@, "--local"@, "--unset-all"@, key@]);
        let mut ignored = Vec::new();
        ignored.push(cmd(unset));
        let mut steps: Vec<GitCommand> = Vec::new();
        let mut i: usize = 0;
        while i < values.len()
            invariant
                i <= values@.len(),
                steps@.len() == i,
                forall|j: int| 0 <= j < i ==> #[trigger] steps@[j]@ == command(
                    seq!["config"@, "--local"@, "--add"@, key@, values@[j]@],
                ),
            decreases values@.len() - i,
        {
            let mut a = args3("config", "--local", "--add");
            push_str_arg(&mut a, key);
            push_string(&mut a, values[i].clone());
            assert(strs(a@) =~= seq!["config"@, "--local"@, "--add"@, key@, values@[i as int]@]);
            steps.push(cmd(a));
            i += 1;
        }
        let p = GitPlan { ignored, steps, fallback: None, fallback_on_empty: false, error_as_empty: false };
        assert(p@.ignored =~= seq![command(seq!["config"@, "--local"@, "--unset-all"@, key@])]);
        assert(p@.steps =~= set_values_plan(key@, strs(values@)).steps);
        p
    }

    /// Sets a single value.
    pub fn set_config_value(&self, key: &str, value: &str) -> (p: GitPlan)
        ensures
            p@ == run(seq!["config"@, "--local"@, key@, value@]),
    {
        let mut args = args2("config", "--local");
        push_str_arg(&mut args, key);
        push_str_arg(&mut args, value);
        assert(strs(args@) =~= seq!["config"@, "--local"@, key@, value@]);
        single(args)
    }

    /// Removes a key; a missing key is not an error.
    pub fn remove_config_key(&self, key: &str) -> (p: GitPlan)
        ensures
            p@ == remove_plan(key@),
    {
        let mut args = args3("config", "--local", "--unset-all");
        push_str_arg(&mut args, key);
        assert(strs(args@) =~= seq!["config"@, "--local"@, "--unset-all"@, key@]);
        let mut p = single(args);
        p.error_as_empty = true;
        p
    }
}


// ---------------------------------------------------------------------------
// Parsing what git prints
// ---------------------------------------------------------------------------

/// A pattern has one first occurrence in a text.
pub proof fn lemma_first_occurrence_unique(s: Seq<char>, p: Seq<char>, i: int, j: int)
    requires
        first_occurrence(s, p, i),
        first_occurrence(s, p, j),
    ensures
        i == j,
{
    if i < j {
        assert(!occurs_at(s, p, i));
    } else if j < i {
        assert(!occurs_at(s, p, j));
    }
}

/// The position of the first occurrence of `p` in `s` (meaningful when it occurs).
pub open spec fn first_index(s: Seq<char>, p: Seq<char>) -> int {
    choose|i: int| first_occurrence(s, p, i)
}

/// The first occurrence of `p` in `s`, found by [`find_seq`].
fn find_first(s: &[char], p: &[char]) -> (r: Option<usize>)
    ensures
        match r {
            Some(i) => contains_seq(s@, p@) && i as int == first_index(s@, p@) && first_occurrence(s@, p@, i as int),
            None => !contains_seq(s@, p@),
        },
{
    let r = find_seq(s, p);
    match r {
        Some(i) => {
            proof {
                assert(occurs_at(s@, p@, i as int));
                let k = first_index(s@, p@);
                assert(first_occurrence(s@, p@, i as int));
                lemma_first_occurrence_unique(s@, p@, i as int, k);
            }
        },
        None => {},
    }
    r
}

/// What a changed file's entry holds.
#[derive(Debug, Clone, Copy, PartialEq, Eq, Structural)]
pub enum ChangeType {
    Added,
    Modified,
    Deleted,
    Renamed,
    Unknown,
}

/// A file with staged and/or unstaged changes.
#[derive(Debug, Clone)]
pub struct ChangedFile {
    pub path: String,
    pub staged_change: Option<ChangeType>,
    pub unstaged_change: Option<ChangeType>,
}

/// The view of a changed file.
pub struct ChangedFileView {
    pub path: Seq<char>,
    pub staged_change: Option<ChangeType>,
    pub unstaged_change: Option<ChangeType>,
}

impl View for ChangedFile {
    type V = ChangedFileView;

    open spec fn view(&self) -> ChangedFileView {
        ChangedFileView {
            path: self.path@,
            staged_change: self.staged_change,
            unstaged_change: self.unstaged_change,
        }
    }
}

impl ChangedFile {
    /// Whether the file has staged changes.
    pub fn has_staged_changes(&self) -> (r: bool)
        ensures
            r == self.staged_change is Some,
    {
        self.staged_change.is_some()
    }

    /// Whether the file has unstaged changes.
    pub fn has_unstaged_changes(&self) -> (r: bool)
        ensures
            r == self.unstaged_change is Some,
    {
        self.unstaged_change.is_some()
    }
}

/// The change that an index status letter of `git status --porcelain` stands for.
pub open spec fn index_change(c: char) -> Option<ChangeType> {
    if c == 'A' {
        Some(ChangeType::Added)
    } else if c == 'M' || c == 'C' || c == 'T' || c == 'U' {
        Some(ChangeType::Modified)
    } else if c == 'D' {
        Some(ChangeType::Deleted)
    } else if c == 'R' {
        Some(ChangeType::Renamed)
    } else if c == ' ' || c == '?' || c == '!' {
        None
    } else {
        Some(ChangeType::Unknown)
    }
}

/// The change that a working-tree status letter stands for.
pub open spec fn worktree_change(c: char) -> Option<ChangeType> {
    if c == '?' || c == 'A' {
        Some(ChangeType::Added)
    } else if c == 'M' || c == 'C' || c == 'T' || c == 'U' {
        Some(ChangeType::Modified)
    } else if c == 'D' {
        Some(ChangeType::Deleted)
    } else if c == 'R' {
        Some(ChangeType::Renamed)
    } else if c == ' ' || c == '!' {
        None
    } else {
        Some(ChangeType::Unknown)
    }
}

/// The path of a status entry: the target of a rename (`old -> new`), without
/// the trailing `/` git prints after untracked directories.
pub open spec fn status_path(rest: Seq<char>) -> Seq<char> {
    if contains_seq(rest, " -> "@) {
        trim_end_char(rest.skip(first_index(rest, " -> "@) + " -> "@.len()), '/')
    } else {
        trim_end_char(rest, '/')
    }
}

/// The status letter that byte `i` (0 or 1) of a status line stands for:
/// the character itself when that byte is a one-byte (ASCII) character,
/// else `'\u{80}'`, which is no status letter (a byte of a longer
/// character).
pub open spec fn status_byte_char(line: Seq<char>, i: int) -> char {
    if i == 0 {
        if is_ascii_char(line[0]) { line[0] } else { '\u{80}' }
    } else if is_ascii_char(line[0]) && line.len() > 1 && is_ascii_char(line[1]) {
        line[1]
    } else {
        '\u{80}'
    }
}

/// Whether a status line can be read: shorter than three bytes, or with a
/// character starting at byte three, where the path begins.
pub open spec fn status_line_ok(line: Seq<char>) -> bool {
    utf8_size(line) < 3 || chars_in_bytes(line, 3) is Some
}

/// The entry of one `git status --porcelain=v1` line: two status bytes, a
/// space, and from byte three the path. Lines shorter than three bytes, and
/// entries with no change, give none. An untracked file (`??`) is an
/// unstaged addition.
pub open spec fn status_entry(line: Seq<char>) -> Option<ChangedFileView> {
    if utf8_size(line) < 3 {
        None
    } else {
        let x = status_byte_char(line, 0);
        let y = status_byte_char(line, 1);
        let staged = index_change(x);
        let unstaged = if x == '?' && y == '?' { Some(ChangeType::Added) } else { worktree_change(y) };
        if staged is Some || unstaged is Some {
            match chars_in_bytes(line, 3) {
                Some(k) => Some(ChangedFileView {
                    path: status_path(line.skip(k as int)),
                    staged_change: staged,
                    unstaged_change: unstaged,
                }),
                None => None,
            }
        } else {
            None
        }
    }
}

/// The entries of all lines, in order.
pub open spec fn status_entries(ls: Seq<Seq<char>>) -> Seq<ChangedFileView>
    decreases ls.len(),
{
    if ls.len() == 0 {
        Seq::empty()
    } else {
        match status_entry(ls.last()) {
            Some(e) => status_entries(ls.drop_last()).push(e),
            None => status_entries(ls.drop_last()),
        }
    }
}

/// In `git status --porcelain` output the first letter is the index status:
/// an entry whose line begins with `A`, `M`, `D` or `R` is listed, staged as
/// an addition, a modification, a deletion or a rename. The second letter
/// is the working-tree status: `M` and `D` there are an unstaged
/// modification and deletion, and `??` is an untracked (unstaged, added)
/// file with nothing staged.
pub proof fn lemma_status_letters(line: Seq<char>)
    requires
        utf8_size(line) >= 3,
        status_line_ok(line),
    ensures
        line[0] == 'A' ==> (status_entry(line) matches Some(e) && e.staged_change == Some(ChangeType::Added)),
        line[0] == 'M' ==> (status_entry(line) matches Some(e) && e.staged_change == Some(ChangeType::Modified)),
        line[0] == 'D' ==> (status_entry(line) matches Some(e) && e.staged_change == Some(ChangeType::Deleted)),
        line[0] == 'R' ==> (status_entry(line) matches Some(e) && e.staged_change == Some(ChangeType::Renamed)),
        line[0] == ' ' && status_entry(line) is Some ==> status_entry(line)->0.staged_change is None,
        is_ascii_char(line[0]) && line[1] == 'M' ==> (status_entry(line) matches Some(e)
            && e.unstaged_change == Some(ChangeType::Modified)),
        is_ascii_char(line[0]) && line[1] == 'D' ==> (status_entry(line) matches Some(e)
            && e.unstaged_change == Some(ChangeType::Deleted)),
        line[0] == '?' && line[1] == '?' ==> (status_entry(line) matches Some(e)
            && e.staged_change is None && e.unstaged_change == Some(ChangeType::Added)),
{
    if line.len() < 2 {
        assert(line.len() == 1 ==> line.drop_first().len() == 0);
        assert(utf8_size(line) <= 4 * line.len()) by {
            if line.len() == 1 {
                assert(utf8_size(line.drop_first()) == 0);
            }
        }
    }
}

/// The views of a list of changed files.
pub open spec fn changed_views(v: Seq<ChangedFile>) -> Seq<ChangedFileView> {
    Seq::new(v.len(), |i: int| v[i]@)
}

/// The change an index status letter stands for.
pub fn index_status_to_change(status: char) -> (r: Option<ChangeType>)
    ensures
        r == index_change(status),
{
    if status == 'A' {
        Some(ChangeType::Added)
    } else if status == 'M' || status == 'C' || status == 'T' || status == 'U' {
        Some(ChangeType::Modified)
    } else if status == 'D' {
        Some(ChangeType::Deleted)
    } else if status == 'R' {
        Some(ChangeType::Renamed)
    } else if status == ' ' || status == '?' || status == '!' {
        None
    } else {
        Some(ChangeType::Unknown)
    }
}

/// The change a working-tree status letter stands for.
pub fn worktree_status_to_change(status: char) -> (r: Option<ChangeType>)
    ensures
        r == worktree_change(status),
{
    if status == '?' || status == 'A' {
        Some(ChangeType::Added)
    } else if status == 'M' || status == 'C' || status == 'T' || status == 'U' {
        Some(ChangeType::Modified)
    } else if status == 'D' {
        Some(ChangeType::Deleted)
    } else if status == 'R' {
        Some(ChangeType::Renamed)
    } else if status == ' ' || status == '!' {
        None
    } else {
        Some(ChangeType::Unknown)
    }
}

/// Whether a status line can be read (see [`status_line_ok`]).
fn status_line_readable(line: &Vec<char>) -> (r: bool)
    ensures
        r == status_line_ok(line@),
{
    !utf8_at_least(line.as_slice(), 3) || chars_within_bytes(line.as_slice(), 3).is_some()
}

/// The entry of one status line.
fn status_line(line: &Vec<char>) -> (r: Option<ChangedFile>)
    requires
        status_line_ok(line@),
    ensures
        match r {
            Some(f) => status_entry(line@) == Some(f@),
            None => status_entry(line@) is None,
        },
{
    if !utf8_at_least(line.as_slice(), 3) {
        return None;
    }
    let start = match chars_within_bytes(line.as_slice(), 3) {
        Some(k) => k,
        None => {
            return None;
        },
    };
    proof {
        if line@.len() == 0 {
            assert(utf8_size(line@) == 0);
        }
    }
    let c0 = line[0];
    let x = if (c0 as u32) < 0x80 { c0 } else { '\u{80}' };
    let y = if (c0 as u32) < 0x80 && line.len() > 1 && (line[1] as u32) < 0x80 { line[1] } else { '\u{80}' };
    let staged = index_status_to_change(x);
    let unstaged = if x == '?' && y == '?' {
        Some(ChangeType::Added)
    } else {
        worktree_status_to_change(y)
    };
    if staged.is_none() && unstaged.is_none() {
        return None;
    }
    let rest = slice_chars(line, start, line.len());
    assert(rest@ =~= line@.skip(start as int));
    let arrow = chars_of(" -> ");
    let path = match find_first(&rest, &arrow) {
        Some(i) => {
            let target = slice_chars(&rest, i + arrow.len(), rest.len());
            assert(target@ =~= rest@.skip(i + arrow@.len()));
            trim_end_char_chars(&target, '/')
        },
        None => trim_end_char_chars(&rest, '/'),
    };
    Some(ChangedFile { path: string_from_chars(&path), staged_change: staged, unstaged_change: unstaged })
}

impl GitRepo {
    /// Whether every line of a `git status --porcelain=v1` output can be
    /// read (see [`status_line_ok`]).
    pub fn status_output_ok(out: &str) -> (r: bool)
        ensures
            r == forall|i: int| 0 <= i < lines_of(out@).len() ==> #[trigger] status_line_ok(lines_of(out@)[i]),
    {
        let ls = lines_chars(&chars_of(out));
        let ghost lv = views(ls@);
        let mut i: usize = 0;
        while i < ls.len()
            invariant
                i <= ls@.len(),
                lv == views(ls@),
                lv == lines_of(out@),
                forall|j: int| 0 <= j < i ==> #[trigger] status_line_ok(lv[j]),
            decreases ls@.len() - i,
        {
            assert(lv[i as int] == ls@[i as int]@);
            if !status_line_readable(&ls[i]) {
                return false;
            }
            i += 1;
        }
        true
    }

    /// The changed files that `git status --porcelain=v1` printed. A line
    /// with no character starting at its byte three cannot be cut there, so
    /// such output is left out.
    pub fn get_changed_files(&self, output: Result<String, GitError>) -> (r: Result<Vec<ChangedFile>, GitError>)
        requires
            output matches Ok(out) ==> forall|i: int|
                0 <= i < lines_of(out@).len() ==> #[trigger] status_line_ok(lines_of(out@)[i]),
        ensures
            match output {
                Ok(out) => r matches Ok(files) && changed_views(files@) == status_entries(lines_of(out@)),
                Err(e) => r == Err::<Vec<ChangedFile>, GitError>(e),
            },
    {
        let out = match output {
            Ok(o) => o,
            Err(e) => {
                return Err(e);
            },
        };
        let ls = lines_chars(&chars_of(out.as_str()));
        let ghost lv = views(ls@);
        let mut files: Vec<ChangedFile> = Vec::new();
        let mut i: usize = 0;
        assert(lv.take(0) =~= Seq::<Seq<char>>::empty());
        while i < ls.len()
            invariant
                i <= ls@.len(),
                lv == views(ls@),
                forall|j: int| 0 <= j < lv.len() ==> #[trigger] status_line_ok(lv[j]),
                changed_views(files@) == status_entries(lv.take(i as int)),
            decreases ls@.len() - i,
        {
            assert(lv.take(i + 1).drop_last() =~= lv.take(i as int));
            assert(lv.take(i + 1).last() == ls@[i as int]@);
            assert(status_line_ok(lv[i as int]));
            let ghost before = changed_views(files@);
            match status_line(&ls[i]) {
                Some(f) => {
                    files.push(f);
                    assert(changed_views(files@) =~= before.push(f@));
                },
                None => {},
            }
            i += 1;
        }
        assert(lv.take(ls@.len() as int) =~= lv);
        Ok(files)
    }
}

/// A stash entry.
#[derive(Debug, Clone)]
pub struct StashEntry {
    pub reference: String,
    pub message: String,
}

/// The `(reference, message)` of one stash list line: the text before and
/// after the first NUL; blank lines and lines without a NUL give none.
pub open spec fn stash_entry(line: Seq<char>) -> Option<(Seq<char>, Seq<char>)> {
    if line.len() == 0 || !contains_seq(line, seq!['\0']) {
        None
    } else {
        let i = first_index(line, seq!['\0']);
        Some((line.take(i), line.skip(i + 1)))
    }
}

/// The entries of all stash list lines, in order.
pub open spec fn stash_entries(ls: Seq<Seq<char>>) -> Seq<(Seq<char>, Seq<char>)>
    decreases ls.len(),
{
    if ls.len() == 0 {
        Seq::empty()
    } else {
        match stash_entry(ls.last()) {
            Some(e) => stash_entries(ls.drop_last()).push(e),
            None => stash_entries(ls.drop_last()),
        }
    }
}

/// The views of a list of stash entries.
pub open spec fn stash_views(v: Seq<StashEntry>) -> Seq<(Seq<char>, Seq<char>)> {
    Seq::new(v.len(), |i: int| (v[i].reference@, v[i].message@))
}

/// The first position of the character `c` in `s`.
fn find_char(s: &[char], c: char) -> (r: Option<usize>)
    ensures
        match r {
            Some(i) => contains_seq(s@, seq![c]) && i as int == first_index(s@, seq![c]) && i < s@.len(),
            None => !contains_seq(s@, seq![c]),
        },
{
    let mut p: Vec<char> = Vec::new();
    p.push(c);
    assert(p@ =~= seq![c]);
    find_first(s, &p)
}

impl GitRepo {
    /// The stashes that [`GitRepo::list_stashes_plan`] listed.
    pub fn list_stashes(&self, output: Result<String, GitError>) -> (r: Result<Vec<StashEntry>, GitError>)
        ensures
            match output {
                Ok(out) => r matches Ok(entries) && stash_views(entries@) == stash_entries(lines_of(out@)),
                Err(e) => r == Err::<Vec<StashEntry>, GitError>(e),
            },
    {
        let out = match output {
            Ok(o) => o,
            Err(e) => {
                return Err(e);
            },
        };
        let ls = lines_chars(&chars_of(out.as_str()));
        let ghost lv = views(ls@);
        let mut entries: Vec<StashEntry> = Vec::new();
        let mut i: usize = 0;
        assert(lv.take(0) =~= Seq::<Seq<char>>::empty());
        while i < ls.len()
            invariant
                i <= ls@.len(),
                lv == views(ls@),
                stash_views(entries@) == stash_entries(lv.take(i as int)),
            decreases ls@.len() - i,
        {
            assert(lv.take(i + 1).drop_last() =~= lv.take(i as int));
            assert(lv.take(i + 1).last() == ls@[i as int]@);
            let line = &ls[i];
            let ghost before = stash_views(entries@);
            if line.len() > 0 {
                match find_char(line, '\0') {
                    Some(k) => {
                        let reference = string_from_chars(&slice_chars(line, 0, k));
                        let message = string_from_chars(&slice_chars(line, k + 1, line.len()));
                        assert(line@.subrange(0, k as int) =~= line@.take(k as int));
                        assert(line@.subrange(k + 1, line@.len() as int) =~= line@.skip(k + 1));
                        entries.push(StashEntry { reference, message });
                        assert(stash_views(entries@) =~= before.push((line@.take(k as int), line@.skip(k + 1))));
                    },
                    None => {},
                }
            }
            i += 1;
        }
        assert(lv.take(ls@.len() as int) =~= lv);
        Ok(entries)
    }
}

/// The `(status, path)` of one `git stash show --name-status` line: the
/// trimmed text before and after the first tab. Blank lines and lines
/// without a tab give none.
pub open spec fn name_status_entry(line: Seq<char>) -> Option<(Seq<char>, Seq<char>)> {
    if line.len() == 0 || !contains_seq(line, seq!['\t']) {
        None
    } else {
        let i = first_index(line, seq!['\t']);
        Some((trim(line.take(i)), trim(line.skip(i + 1))))
    }
}

/// The entries of all `--name-status` lines, in order.
pub open spec fn name_status_entries(ls: Seq<Seq<char>>) -> Seq<(Seq<char>, Seq<char>)>
    decreases ls.len(),
{
    if ls.len() == 0 {
        Seq::empty()
    } else {
        match name_status_entry(ls.last()) {
            Some(e) => name_status_entries(ls.drop_last()).push(e),
            None => name_status_entries(ls.drop_last()),
        }
    }
}

/// The views of a list of string pairs.
pub open spec fn pair_views(v: Seq<(String, String)>) -> Seq<(Seq<char>, Seq<char>)> {
    Seq::new(v.len(), |i: int| (v[i].0@, v[i].1@))
}

/// The non-empty lines of `s`.
pub open spec fn nonempty_lines(ls: Seq<Seq<char>>) -> Seq<Seq<char>>
    decreases ls.len(),
{
    if ls.len() == 0 {
        Seq::empty()
    } else if ls.last().len() > 0 {
        nonempty_lines(ls.drop_last()).push(ls.last())
    } else {
        nonempty_lines(ls.drop_last())
    }
}

impl GitRepo {
    /// The `(status, path)` pairs that [`GitRepo::stash_show_files_plan`]
    /// printed, e.g. `("M", "src/app.rs")`.
    pub fn stash_show_files(&self, output: Result<String, GitError>) -> (r: Result<Vec<(String, String)>, GitError>)
        ensures
            match output {
                Ok(out) => r matches Ok(v) && pair_views(v@) == name_status_entries(lines_of(out@)),
                Err(e) => r == Err::<Vec<(String, String)>, GitError>(e),
            },
    {
        let out = match output {
            Ok(o) => o,
            Err(e) => {
                return Err(e);
            },
        };
        let ls = lines_chars(&chars_of(out.as_str()));
        let ghost lv = views(ls@);
        let mut entries: Vec<(String, String)> = Vec::new();
        let mut i: usize = 0;
        assert(lv.take(0) =~= Seq::<Seq<char>>::empty());
        while i < ls.len()
            invariant
                i <= ls@.len(),
                lv == views(ls@),
                pair_views(entries@) == name_status_entries(lv.take(i as int)),
            decreases ls@.len() - i,
        {
            assert(lv.take(i + 1).drop_last() =~= lv.take(i as int));
            assert(lv.take(i + 1).last() == ls@[i as int]@);
            let line = &ls[i];
            let ghost before = pair_views(entries@);
            if line.len() > 0 {
                match find_char(line, '\t') {
                    Some(k) => {
                        let status = string_from_chars(&trim_chars(&slice_chars(line, 0, k)));
                        let path = string_from_chars(&trim_chars(&slice_chars(line, k + 1, line.len())));
                        assert(line@.subrange(0, k as int) =~= line@.take(k as int));
                        assert(line@.subrange(k + 1, line@.len() as int) =~= line@.skip(k + 1));
                        entries.push((status, path));
                        assert(pair_views(entries@) =~= before.push((trim(line@.take(k as int)), trim(line@.skip(k + 1)))));
                    },
                    None => {},
                }
            }
            i += 1;
        }
        assert(lv.take(ls@.len() as int) =~= lv);
        Ok(entries)
    }

    /// The values of a multi-valued key: the non-empty lines that git
    /// printed, or none when it failed (an unset key).
    pub fn get_config_values(&self, output: Result<String, GitError>) -> (r: Vec<String>)
        ensures
            match output {
                Ok(out) => strs(r@) == nonempty_lines(lines_of(out@)),
                Err(_) => r@.len() == 0,
            },
    {
        let out = match output {
            Ok(o) => o,
            Err(_) => {
                return Vec::new();
            },
        };
        let ls = lines_chars(&chars_of(out.as_str()));
        let ghost lv = views(ls@);
        let mut values: Vec<String> = Vec::new();
        let mut i: usize = 0;
        assert(lv.take(0) =~= Seq::<Seq<char>>::empty());
        while i < ls.len()
            invariant
                i <= ls@.len(),
                lv == views(ls@),
                strs(values@) == nonempty_lines(lv.take(i as int)),
            decreases ls@.len() - i,
        {
            assert(lv.take(i + 1).drop_last() =~= lv.take(i as int));
            assert(lv.take(i + 1).last() == ls@[i as int]@);
            if ls[i].len() > 0 {
                push_arg(&mut values, &ls[i]);
            }
            i += 1;
        }
        assert(lv.take(ls@.len() as int) =~= lv);
        values
    }

    /// A single value: what git printed, trimmed, when that is not empty.
    pub fn get_config_value(&self, output: Result<String, GitError>) -> (r: Option<String>)
        ensures
            opt_str(r) == match output {
                Ok(out) => if trim(out@).len() > 0 { Some(trim(out@)) } else { None },
                Err(_) => None,
            },
    {
        match output {
            Ok(out) => {
                let t = trim_chars(&chars_of(out.as_str()));
                if t.len() > 0 {
                    Some(string_from_chars(&t))
                } else {
                    None
                }
            },
            Err(_) => None,
        }
    }

    /// The full message of the last commit, trimmed.
    pub fn get_last_commit_message(&self, output: Result<String, GitError>) -> (r: Result<String, GitError>)
        ensures
            match output {
                Ok(out) => r matches Ok(m) && m@ == trim(out@),
                Err(e) => r == Err::<String, GitError>(e),
            },
    {
        match output {
            Ok(out) => Ok(string_from_chars(&trim_chars(&chars_of(out.as_str())))),
            Err(e) => Err(e),
        }
    }

    /// The outcome of [`GitRepo::remove_worktree`]: a path that is no longer a
    /// working tree is not an error; other failures are reported.
    pub fn remove_worktree_outcome(&self, outcome: Result<String, GitError>) -> (r: Result<(), GitError>)
        ensures
            match outcome {
                Ok(_) => r is Ok,
                Err(GitError::Command(msg)) => if contains_seq(msg@, "is not a working tree"@) {
                    r is Ok
                } else {
                    r matches Err(GitError::Command(m)) && m@ == "git worktree remove failed: "@ + msg@
                },
                Err(e) => r == Err::<(), GitError>(e),
            },
    {
        match outcome {
            Ok(_) => Ok(()),
            Err(GitError::Command(msg)) => {
                let m = chars_of(msg.as_str());
                let needle = chars_of("is not a working tree");
                if contains_chars(&m, &needle) {
                    Ok(())
                } else {
                    Err(GitError::Command(concat("git worktree remove failed: ", &m)))
                }
            },
            Err(e) => Err(e),
        }
    }
}


// ---------------------------------------------------------------------------
// Worktree list
// ---------------------------------------------------------------------------

/// An entry of `{git_dir}/worktrees`: the directory's name and the contents
/// of its `gitdir` file (the path of the `.git` file in the linked worktree).
#[derive(Debug, Clone)]
pub struct LinkedWorktree {
    pub name: String,
    pub gitdir: String,
}

/// The views of the linked worktree entries.
pub open spec fn linked_views(v: Seq<LinkedWorktree>) -> Seq<(Seq<char>, Seq<char>)> {
    Seq::new(v.len(), |i: int| (v[i].name@, v[i].gitdir@))
}

/// The `gitdir` file names a `.git` file directly inside `path`.
pub open spec fn gitdir_points_into(gitdir: Seq<char>, path: Seq<char>) -> bool {
    let c = path_comps(trim(gitdir));
    c.len() > 0 && c.last() != root_comp() && c.drop_last() == path_comps(path)
}

/// The name of the first linked entry whose `gitdir` points into `path`.
pub open spec fn linked_name(linked: Seq<(Seq<char>, Seq<char>)>, path: Seq<char>) -> Option<Seq<char>>
    decreases linked.len(),
{
    if linked.len() == 0 {
        None
    } else if gitdir_points_into(linked[0].1, path) {
        Some(linked[0].0)
    } else {
        linked_name(linked.drop_first(), path)
    }
}

/// A worktree's name: the main worktree is named after its directory
/// (`main` when it has none); a linked one after its entry in
/// `{git_dir}/worktrees`, else its directory (`unknown` when it has none).
pub open spec fn worktree_name_of(path: Seq<char>, is_main: bool, linked: Seq<(Seq<char>, Seq<char>)>) -> Seq<char> {
    if is_main {
        match file_name_of(path) {
            Some(n) => n,
            None => "main"@,
        }
    } else {
        match linked_name(linked, path) {
            Some(n) => n,
            None => match file_name_of(path) {
                Some(n) => n,
                None => "unknown"@,
            },
        }
    }
}

/// The state of reading `git worktree list --porcelain`.
pub struct PorcelainState {
    pub worktrees: Seq<WorktreeView>,
    pub path: Option<Seq<char>>,
    pub branch: Option<Seq<char>>,
    pub locked: bool,
    pub bare: bool,
}

/// The state before the first line.
pub open spec fn porcelain_start() -> PorcelainState {
    PorcelainState { worktrees: Seq::empty(), path: None, branch: None, locked: false, bare: false }
}

/// The worktree the current block describes, pushed; the first is the main one.
pub open spec fn porcelain_flush(st: PorcelainState, p: Seq<char>, linked: Seq<(Seq<char>, Seq<char>)>) -> Seq<WorktreeView> {
    let is_main = st.worktrees.len() == 0;
    st.worktrees.push(WorktreeView {
        name: worktree_name_of(p, is_main, linked),
        path: p,
        branch: st.branch,
        is_main,
        locked: st.locked,
    })
}

/// One line of the porcelain output: an empty line ends a block; `worktree`,
/// `branch refs/heads/`, `HEAD` (a detached worktree is named by the first 7
/// bytes of its commit), `bare` and `locked` lines fill it in.
pub open spec fn porcelain_step(st: PorcelainState, line: Seq<char>, linked: Seq<(Seq<char>, Seq<char>)>) -> PorcelainState {
    if line.len() == 0 {
        match st.path {
            Some(p) => PorcelainState {
                worktrees: porcelain_flush(st, p, linked),
                path: None,
                branch: None,
                locked: false,
                bare: false,
            },
            None => st,
        }
    } else if starts_with(line, "worktree "@) {
        PorcelainState { path: Some(line.skip("worktree "@.len() as int)), ..st }
    } else if starts_with(line, "branch refs/heads/"@) {
        PorcelainState { branch: Some(line.skip("branch refs/heads/"@.len() as int)), ..st }
    } else if starts_with(line, "HEAD "@) && st.branch is None {
        let hash = line.skip("HEAD "@.len() as int);
        if utf8_size(hash) >= 7 {
            match chars_in_bytes(hash, 7) {
                Some(k) => PorcelainState { branch: Some(hash.take(k as int)), ..st },
                None => st,
            }
        } else {
            st
        }
    } else if line == "bare"@ {
        PorcelainState { bare: true, ..st }
    } else if starts_with(line, "locked"@) {
        PorcelainState { locked: true, ..st }
    } else {
        st
    }
}

/// A `locked` line marks the worktree of its block as locked and changes
/// nothing else read so far.
pub proof fn lemma_locked_line_locks(st: PorcelainState, line: Seq<char>, linked: Seq<(Seq<char>, Seq<char>)>)
    requires
        starts_with(line, "locked"@),
    ensures
        porcelain_step(st, line, linked).locked,
        porcelain_step(st, line, linked).worktrees == st.worktrees,
        porcelain_step(st, line, linked).path == st.path,
        porcelain_step(st, line, linked).branch == st.branch,
{
    reveal_strlit("locked");
    reveal_strlit("worktree ");
    reveal_strlit("branch refs/heads/");
    reveal_strlit("HEAD ");
    reveal_strlit("bare");
    assert(line.take(6) == "locked"@);
    assert(line.take(6)[0] == line[0]);
    assert(line[0] == 'l');
    assert(line.len() > 0);
    assert(!starts_with(line, "worktree "@)) by {
        if starts_with(line, "worktree "@) {
            assert(line.take(9)[0] == line[0]);
        }
    }
    assert(!starts_with(line, "branch refs/heads/"@)) by {
        if starts_with(line, "branch refs/heads/"@) {
            assert(line.take(18)[0] == line[0]);
        }
    }
    assert(!starts_with(line, "HEAD "@)) by {
        if starts_with(line, "HEAD "@) {
            assert(line.take(5)[0] == line[0]);
        }
    }
    assert(line != "bare"@) by {
        if line == "bare"@ {
            assert(line[0] == 'b');
        }
    }
}

/// A worktree is listed as locked only through a `locked` line: any other
/// non-empty line keeps the mark as it was, and the end of a block records
/// the mark in the worktree it lists and clears it for the next block.
pub proof fn lemma_locked_only_by_locked_lines(st: PorcelainState, line: Seq<char>, linked: Seq<(Seq<char>, Seq<char>)>)
    ensures
        line.len() > 0 && !starts_with(line, "locked"@) ==> porcelain_step(st, line, linked).locked == st.locked,
        line.len() == 0 && st.path is Some ==> porcelain_step(st, line, linked).worktrees.last().locked == st.locked
            && !porcelain_step(st, line, linked).locked,
{
}

/// Whether a `HEAD` line's commit, when it is read, can be cut after its
/// seventh byte: no character of it spans that byte.
pub open spec fn head_line_ok(line: Seq<char>) -> bool {
    let hash = line.skip("HEAD "@.len() as int);
    !(starts_with(line, "HEAD "@) && utf8_size(hash) >= 7 && chars_in_bytes(hash, 7) is None)
}

/// Whether a line can be read in state `st`: it is no `HEAD` line read in
/// that state whose commit cannot be cut after its seventh byte.
pub open spec fn porcelain_line_ok(st: PorcelainState, line: Seq<char>) -> bool {
    st.branch is None ==> head_line_ok(line)
}

/// Whether all lines can be read, each in the state the lines before it
/// leave.
pub open spec fn porcelain_ok(ls: Seq<Seq<char>>, linked: Seq<(Seq<char>, Seq<char>)>) -> bool {
    forall|i: int| 0 <= i < ls.len() ==> porcelain_line_ok(porcelain_fold(#[trigger] ls.take(i), linked), ls[i])
}

/// The state after all lines.
pub open spec fn porcelain_fold(ls: Seq<Seq<char>>, linked: Seq<(Seq<char>, Seq<char>)>) -> PorcelainState
    decreases ls.len(),
{
    if ls.len() == 0 {
        porcelain_start()
    } else {
        porcelain_step(porcelain_fold(ls.drop_last(), linked), ls.last(), linked)
    }
}

/// The worktrees listed: the last block counts unless it is a bare one.
pub open spec fn porcelain_worktrees(out: Seq<char>, linked: Seq<(Seq<char>, Seq<char>)>) -> Seq<WorktreeView> {
    let st = porcelain_fold(lines_of(out), linked);
    match st.path {
        Some(p) if !st.bare => porcelain_flush(st, p, linked),
        _ => st.worktrees,
    }
}

/// The views of a list of worktrees.
pub open spec fn worktree_views(v: Seq<Worktree>) -> Seq<WorktreeView> {
    Seq::new(v.len(), |i: int| v[i]@)
}

/// The view of an optional character vector.
pub open spec fn opt_chars(o: Option<Vec<char>>) -> Option<Seq<char>> {
    match o {
        Some(v) => Some(v@),
        None => None,
    }
}

/// Whether the gitdir file points into `path`.
fn gitdir_matches(gitdir: &str, path: &Vec<char>) -> (r: bool)
    ensures
        r == gitdir_points_into(gitdir@, path@),
{
    let referenced = trim_chars(&chars_of(gitdir));
    let mut c = components(&referenced);
    if c.len() == 0 {
        return false;
    }
    let n = c.len();
    assert(views(c@).last() == c@[n - 1]@);
    if c[n - 1].len() == 1 && c[n - 1][0] == '/' {
        assert(c@[n - 1]@ =~= root_comp());
        return false;
    }
    proof {
        if c@[n - 1]@ == root_comp() {
            assert(c@[n - 1]@[0] == '/');
        }
    }
    let ghost full = views(c@);
    c.pop();
    assert(views(c@) =~= full.drop_last());
    let pc = components(path);
    crate::path::comps_eq(&c, &pc)
}

impl GitRepo {
    /// A worktree's name, given the entries of `{git_dir}/worktrees`.
    pub fn worktree_name(&self, path: &Vec<char>, is_main: bool, linked: &[LinkedWorktree]) -> (r: Vec<char>)
        ensures
            r@ == worktree_name_of(path@, is_main, linked_views(linked@)),
    {
        if is_main {
            return match file_name(path) {
                Some(n) => n,
                None => chars_of("main"),
            };
        }
        let ghost lv = linked_views(linked@);
        let mut i: usize = 0;
        assert(lv.skip(0) =~= lv);
        while i < linked.len()
            invariant
                !is_main,
                i <= linked@.len(),
                lv == linked_views(linked@),
                linked_name(lv, path@) == linked_name(lv.skip(i as int), path@),
            decreases linked@.len() - i,
        {
            let ghost rest = lv.skip(i as int);
            assert(rest[0] == (linked@[i as int].name@, linked@[i as int].gitdir@));
            if gitdir_matches(linked[i].gitdir.as_str(), path) {
                return chars_of(linked[i].name.as_str());
            }
            assert(rest.drop_first() =~= lv.skip(i + 1));
            i += 1;
        }
        assert(lv.skip(linked@.len() as int) =~= Seq::<(Seq<char>, Seq<char>)>::empty());
        match file_name(path) {
            Some(n) => n,
            None => chars_of("unknown"),
        }
    }

    /// Whether every `HEAD` line of a `git worktree list --porcelain` output
    /// can be cut after the seventh byte of its commit; when so, the output
    /// can be read whatever the entries of `{git_dir}/worktrees`.
    pub fn worktree_output_ok(out: &str, linked: &[LinkedWorktree]) -> (r: bool)
        ensures
            r == forall|i: int| 0 <= i < lines_of(out@).len() ==> #[trigger] head_line_ok(lines_of(out@)[i]),
            r ==> porcelain_ok(lines_of(out@), linked_views(linked@)),
    {
        let ls = lines_chars(&chars_of(out));
        let ghost lv = views(ls@);
        let head_prefix = chars_of("HEAD ");
        let mut i: usize = 0;
        while i < ls.len()
            invariant
                i <= ls@.len(),
                lv == views(ls@),
                lv == lines_of(out@),
                head_prefix@ == "HEAD "@,
                forall|j: int| 0 <= j < i ==> #[trigger] head_line_ok(lv[j]),
            decreases ls@.len() - i,
        {
            let line = &ls[i];
            assert(lv[i as int] == line@);
            if has_prefix(line, &head_prefix) {
                let hash = slice_chars(line, head_prefix.len(), line.len());
                assert(hash@ =~= line@.skip("HEAD "@.len() as int));
                if utf8_at_least(hash.as_slice(), 7) && chars_within_bytes(hash.as_slice(), 7).is_none() {
                    assert(starts_with(line@, "HEAD "@));
                    assert(!head_line_ok(lines_of(out@)[i as int]));
                    return false;
                }
            }
            i += 1;
        }
        proof {
            assert forall|j: int| 0 <= j < lv.len() implies porcelain_line_ok(
                porcelain_fold(#[trigger] lv.take(j), linked_views(linked@)),
                lv[j],
            ) by {
                assert(head_line_ok(lv[j]));
            }
        }
        true
    }

    /// The worktrees that [`GitRepo::list_worktrees_plan`] listed, named with
    /// the entries of `{git_dir}/worktrees`. A detached worktree's commit
    /// that cannot be cut after its seventh byte cannot be read, so such
    /// output is left out.
    pub fn list_worktrees(&self, output: Result<String, GitError>, linked: &[LinkedWorktree]) -> (r: Result<Vec<Worktree>, GitError>)
        requires
            output matches Ok(out) ==> porcelain_ok(lines_of(out@), linked_views(linked@)),
        ensures
            match output {
                Ok(out) => r matches Ok(w) && worktree_views(w@) == porcelain_worktrees(out@, linked_views(linked@)),
                Err(e) => r == Err::<Vec<Worktree>, GitError>(e),
            },
    {
        let out = match output {
            Ok(o) => o,
            Err(e) => {
                return Err(e);
            },
        };
        let ghost lk = linked_views(linked@);
        let ls = lines_chars(&chars_of(out.as_str()));
        let ghost lv = views(ls@);
        let mut wts: Vec<Worktree> = Vec::new();
        let mut path: Option<Vec<char>> = None;
        let mut branch: Option<Vec<char>> = None;
        let mut locked = false;
        let mut bare = false;
        let wt_prefix = chars_of("worktree ");
        let branch_prefix = chars_of("branch refs/heads/");
        let head_prefix = chars_of("HEAD ");
        let bare_word = chars_of("bare");
        let locked_prefix = chars_of("locked");
        let mut i: usize = 0;
        assert(lv.take(0) =~= Seq::<Seq<char>>::empty());
        assert(worktree_views(wts@) =~= Seq::<WorktreeView>::empty());
        while i < ls.len()
            invariant
                i <= ls@.len(),
                lv == views(ls@),
                lk == linked_views(linked@),
                wt_prefix@ == "worktree "@,
                branch_prefix@ == "branch refs/heads/"@,
                head_prefix@ == "HEAD "@,
                bare_word@ == "bare"@,
                locked_prefix@ == "locked"@,
                porcelain_ok(lv, lk),
                (PorcelainState {
                    worktrees: worktree_views(wts@),
                    path: opt_chars(path),
                    branch: opt_chars(branch),
                    locked,
                    bare,
                }) == porcelain_fold(lv.take(i as int), lk),
            decreases ls@.len() - i,
        {
            assert(lv.take(i + 1).drop_last() =~= lv.take(i as int));
            assert(lv.take(i + 1).last() == ls@[i as int]@);
            let line = &ls[i];
            let ghost st = porcelain_fold(lv.take(i as int), lk);
            if line.len() == 0 {
                match path {
                    Some(p) => {
                        let is_main = wts.len() == 0;
                        let name = self.worktree_name(&p, is_main, linked);
                        let ghost before = worktree_views(wts@);
                        let wt = Worktree {
                            name: string_from_chars(&name),
                            path: string_from_chars(&p),
                            branch: match branch {
                                Some(b) => Some(string_from_chars(&b)),
                                None => None,
                            },
                            is_main,
                            locked,
                        };
                        wts.push(wt);
                        assert(worktree_views(wts@) =~= porcelain_flush(st, p@, lk));
                        path = None;
                        branch = None;
                        locked = false;
                        bare = false;
                    },
                    None => {},
                }
            } else if has_prefix(line, &wt_prefix) {
                path = Some(slice_chars(line, wt_prefix.len(), line.len()));
                assert(line@.subrange(wt_prefix@.len() as int, line@.len() as int) =~= line@.skip("worktree "@.len() as int));
            } else if has_prefix(line, &branch_prefix) {
                branch = Some(slice_chars(line, branch_prefix.len(), line.len()));
                assert(line@.subrange(branch_prefix@.len() as int, line@.len() as int) =~= line@.skip("branch refs/heads/"@.len() as int));
            } else if has_prefix(line, &head_prefix) && branch.is_none() {
                let hash = slice_chars(line, head_prefix.len(), line.len());
                assert(hash@ =~= line@.skip("HEAD "@.len() as int));
                assert(porcelain_line_ok(porcelain_fold(lv.take(i as int), lk), lv[i as int]));
                if utf8_at_least(hash.as_slice(), 7) {
                    match chars_within_bytes(hash.as_slice(), 7) {
                        Some(k) => {
                            branch = Some(slice_chars(&hash, 0, k));
                            assert(hash@.subrange(0, k as int) =~= hash@.take(k as int));
                        },
                        None => {},
                    }
                }
            } else if chars_eq(line, &bare_word) {
                bare = true;
            } else if has_prefix(line, &locked_prefix) {
                locked = true;
            }
            i += 1;
        }
        assert(lv.take(ls@.len() as int) =~= lv);
        let ghost st = porcelain_fold(lv, lk);
        match path {
            Some(p) => {
                if !bare {
                    let is_main = wts.len() == 0;
                    let name = self.worktree_name(&p, is_main, linked);
                    let wt = Worktree {
                        name: string_from_chars(&name),
                        path: string_from_chars(&p),
                        branch: match branch {
                            Some(b) => Some(string_from_chars(&b)),
                            None => None,
                        },
                        is_main,
                        locked,
                    };
                    let ghost before = worktree_views(wts@);
                    wts.push(wt);
                    assert(worktree_views(wts@) =~= porcelain_flush(st, p@, lk));
                }
            },
            None => {},
        }
        Ok(wts)
    }
}


// ---------------------------------------------------------------------------
// Diffs, hunks and patches
// ---------------------------------------------------------------------------

/// A hunk of a unified diff.
#[derive(Debug, Clone)]
pub struct DiffHunk {
    pub header: String,
    pub lines: Vec<String>,
    pub new_start: usize,
    pub new_count: usize,
}

/// A unified diff: the lines before the first hunk, and the hunks.
#[derive(Debug, Clone)]
pub struct ParsedDiff {
    pub preamble: Vec<String>,
    pub hunks: Vec<DiffHunk>,
}

/// The view of a hunk.
pub struct HunkView {
    pub header: Seq<char>,
    pub lines: Seq<Seq<char>>,
    pub new_start: usize,
    pub new_count: usize,
}

impl View for DiffHunk {
    type V = HunkView;

    open spec fn view(&self) -> HunkView {
        HunkView { header: self.header@, lines: strs(self.lines@), new_start: self.new_start, new_count: self.new_count }
    }
}

/// The views of a list of hunks.
pub open spec fn hunk_views(v: Seq<DiffHunk>) -> Seq<HunkView> {
    Seq::new(v.len(), |i: int| v[i]@)
}

/// The new-file range `(start, count)` of a hunk header `@@ -a,b +c,d @@`; a
/// missing count is 1.
pub open spec fn hunk_new_range(header: Seq<char>) -> Option<(usize, usize)> {
    let w = words(header);
    if w.len() < 3 || w[0] != "@@"@ || w[2].len() == 0 || w[2][0] != '+' {
        None
    } else {
        let spec_ = w[2].drop_first();
        if contains_seq(spec_, seq![',']) {
            let i = first_index(spec_, seq![',']);
            match (parse_usize_spec(spec_.take(i)), parse_usize_spec(spec_.skip(i + 1))) {
                (Some(start), Some(count)) => Some((start, count)),
                _ => None,
            }
        } else {
            match parse_usize_spec(spec_) {
                Some(start) => Some((start, 1)),
                None => None,
            }
        }
    }
}

/// The state of reading a diff.
pub struct DiffState {
    pub preamble: Seq<Seq<char>>,
    pub hunks: Seq<HunkView>,
    pub current: Option<HunkView>,
}

/// The hunks read so far, with the current one.
pub open spec fn all_hunks(st: DiffState) -> Seq<HunkView> {
    match st.current {
        Some(h) => st.hunks.push(h),
        None => st.hunks,
    }
}

/// One line of a diff: `@@` starts a hunk (a header that does not parse is
/// an error), other lines belong to the current hunk or to the preamble.
pub open spec fn diff_step(prev: Result<DiffState, Seq<char>>, line: Seq<char>) -> Result<DiffState, Seq<char>> {
    match prev {
        Err(m) => Err(m),
        Ok(st) => if starts_with(line, "@@"@) {
            match hunk_new_range(line) {
                Some((start, count)) => Ok(DiffState {
                    preamble: st.preamble,
                    hunks: all_hunks(st),
                    current: Some(HunkView { header: line, lines: Seq::empty(), new_start: start, new_count: count }),
                }),
                None => Err("Invalid hunk header: "@ + line),
            }
        } else {
            match st.current {
                Some(h) => Ok(DiffState { current: Some(HunkView { lines: h.lines.push(line), ..h }), ..st }),
                None => Ok(DiffState { preamble: st.preamble.push(line), ..st }),
            }
        },
    }
}

/// The state after all lines.
pub open spec fn diff_fold(ls: Seq<Seq<char>>) -> Result<DiffState, Seq<char>>
    decreases ls.len(),
{
    if ls.len() == 0 {
        Ok(DiffState { preamble: Seq::empty(), hunks: Seq::empty(), current: None })
    } else {
        diff_step(diff_fold(ls.drop_last()), ls.last())
    }
}

/// The parsed diff, or the message of the parse error.
pub open spec fn parsed_diff_of(diff: Seq<char>) -> Result<(Seq<Seq<char>>, Seq<HunkView>), Seq<char>> {
    match diff_fold(lines_of(diff)) {
        Ok(st) => Ok((st.preamble, all_hunks(st))),
        Err(m) => Err(m),
    }
}

/// The last new-file line a hunk covers (its start when it adds nothing),
/// with the saturating arithmetic of the check.
pub open spec fn hunk_end(start: usize, count: usize) -> int {
    if count == 0 {
        start as int
    } else if start + count - 1 > usize::MAX {
        usize::MAX as int
    } else {
        start + count - 1
    }
}

/// A hunk covers a new-file line.
pub open spec fn covers_line(h: HunkView, line: usize) -> bool {
    h.new_start <= line && line <= hunk_end(h.new_start, h.new_count)
}

/// A hunk intersects the new-file range `start..=end`.
pub open spec fn meets_range(h: HunkView, start: usize, end: usize) -> bool {
    h.new_start <= end && hunk_end(h.new_start, h.new_count) >= start
}

/// Each line followed by a line break.
pub open spec fn with_newlines(ls: Seq<Seq<char>>) -> Seq<char>
    decreases ls.len(),
{
    if ls.len() == 0 {
        Seq::empty()
    } else {
        with_newlines(ls.drop_last()) + ls.last().push('\n')
    }
}

/// A hunk's text: its header and lines, each on its own line.
pub open spec fn hunk_text(h: HunkView) -> Seq<char> {
    h.header.push('\n') + with_newlines(h.lines)
}

/// The text of the selected hunks, in selection order; indices past the end
/// are skipped.
pub open spec fn selected_text(hunks: Seq<HunkView>, sel: Seq<usize>) -> Seq<char>
    decreases sel.len(),
{
    if sel.len() == 0 {
        Seq::empty()
    } else {
        selected_text(hunks, sel.drop_last()) + (if sel.last() < hunks.len() {
            hunk_text(hunks[sel.last() as int])
        } else {
            Seq::empty()
        })
    }
}

/// A patch of the preamble and the selected hunks.
pub open spec fn patch_text(preamble: Seq<Seq<char>>, hunks: Seq<HunkView>, sel: Seq<usize>) -> Seq<char> {
    with_newlines(preamble) + selected_text(hunks, sel)
}

/// Whether line `k` is where the first hunk of a diff's lines starts (or
/// `k` is past the last line when there is no hunk): no line before it
/// starts with `@@`.
pub open spec fn first_hunk_at(ls: Seq<Seq<char>>, k: int) -> bool {
    &&& 0 <= k <= ls.len()
    &&& forall|j: int| 0 <= j < k ==> !starts_with(#[trigger] ls[j], "@@"@)
    &&& k < ls.len() ==> starts_with(ls[k], "@@"@)
}

/// Reading a diff keeps as preamble exactly the lines before its first
/// hunk, and has a current hunk once a hunk has started.
proof fn lemma_fold_preamble(ls: Seq<Seq<char>>)
    ensures
        diff_fold(ls) matches Ok(st) ==> {
            &&& (st.current is None <==> forall|j: int| 0 <= j < ls.len() ==> !starts_with(#[trigger] ls[j], "@@"@))
            &&& forall|k: int| first_hunk_at(ls, k) ==> st.preamble == ls.take(k)
        },
    decreases ls.len(),
{
    if ls.len() > 0 {
        let prev = ls.drop_last();
        lemma_fold_preamble(prev);
        match diff_fold(ls) {
            Ok(st) => {
                let pst = diff_fold(prev)->Ok_0;
                assert(diff_fold(prev) is Ok);
                assert forall|k: int| first_hunk_at(ls, k) implies st.preamble == ls.take(k) by {
                    if k < ls.len() - 1 {
                        assert(first_hunk_at(prev, k)) by {
                            assert forall|j: int| 0 <= j < k implies !starts_with(#[trigger] prev[j], "@@"@) by {
                                assert(prev[j] == ls[j]);
                            }
                            assert(prev[k] == ls[k]);
                        }
                        assert(pst.current is Some) by {
                            assert(prev[k] == ls[k]);
                            assert(starts_with(prev[k], "@@"@));
                        }
                        assert(prev.take(k) =~= ls.take(k));
                    } else if k == ls.len() - 1 {
                        assert(first_hunk_at(prev, k)) by {
                            assert forall|j: int| 0 <= j < k implies !starts_with(#[trigger] prev[j], "@@"@) by {
                                assert(prev[j] == ls[j]);
                            }
                        }
                        assert(prev.take(k) =~= prev);
                        assert(ls.take(k) =~= prev);
                    } else {
                        assert(first_hunk_at(prev, prev.len() as int)) by {
                            assert forall|j: int| 0 <= j < prev.len() implies !starts_with(#[trigger] prev[j], "@@"@) by {
                                assert(prev[j] == ls[j]);
                            }
                        }
                        assert(prev.take(prev.len() as int) =~= prev);
                        assert(pst.current is None) by {
                            assert forall|j: int| 0 <= j < prev.len() implies !starts_with(#[trigger] prev[j], "@@"@) by {
                                assert(prev[j] == ls[j]);
                            }
                        }
                        assert(!starts_with(ls[ls.len() - 1], "@@"@));
                        assert(ls.take(k) =~= prev.push(ls.last()));
                    }
                }
                if st.current is None {
                    assert forall|j: int| 0 <= j < ls.len() implies !starts_with(#[trigger] ls[j], "@@"@) by {
                        if j < ls.len() - 1 {
                            assert(prev[j] == ls[j]);
                        }
                    }
                } else {
                    if forall|j: int| 0 <= j < ls.len() ==> !starts_with(#[trigger] ls[j], "@@"@) {
                        assert forall|j: int| 0 <= j < prev.len() implies !starts_with(#[trigger] prev[j], "@@"@) by {
                            assert(prev[j] == ls[j]);
                        }
                        assert(!starts_with(ls[ls.len() - 1], "@@"@));
                    }
                }
            },
            Err(_) => {},
        }
    }
}

/// The patch built from a diff's hunks begins with the diff's header: the
/// lines of the diff before its first hunk (the `diff --git`, `index`,
/// `---` and `+++` lines), each ending with a line break, so that
/// `git apply` finds the file the hunks belong to.
pub proof fn lemma_patch_begins_with_header(diff: Seq<char>, sel: Seq<usize>, k: int)
    requires
        parsed_diff_of(diff) is Ok,
        first_hunk_at(lines_of(diff), k),
    ensures
        ({
            let (pre, hunks) = parsed_diff_of(diff)->Ok_0;
            let header = with_newlines(lines_of(diff).take(k));
            &&& patch_text(pre, hunks, sel).len() >= header.len()
            &&& patch_text(pre, hunks, sel).take(header.len() as int) == header
        }),
{
    lemma_fold_preamble(lines_of(diff));
    let (pre, hunks) = parsed_diff_of(diff)->Ok_0;
    let header = with_newlines(lines_of(diff).take(k));
    assert(pre == lines_of(diff).take(k));
    assert(patch_text(pre, hunks, sel).take(header.len() as int) =~= header);
}

/// The indices `0..n`, in order.
pub open spec fn indices(n: nat) -> Seq<usize> {
    Seq::new(n, |i: int| i as usize)
}

/// The texts of hunks, one after the other.
pub open spec fn hunks_text(hs: Seq<HunkView>) -> Seq<char>
    decreases hs.len(),
{
    if hs.len() == 0 {
        Seq::empty()
    } else {
        hunks_text(hs.drop_last()) + hunk_text(hs.last())
    }
}

/// Selecting the first `m` hunks in order gives their texts in order.
proof fn lemma_select_prefix(hs: Seq<HunkView>, m: int)
    requires
        0 <= m <= hs.len(),
        hs.len() <= usize::MAX,
    ensures
        selected_text(hs, indices(m as nat)) == hunks_text(hs.take(m)),
    decreases m,
{
    if m > 0 {
        lemma_select_prefix(hs, m - 1);
        assert(indices(m as nat).drop_last() =~= indices((m - 1) as nat));
        assert(hs.take(m).drop_last() =~= hs.take(m - 1));
        assert(indices(m as nat).last() == (m - 1) as usize);
    } else {
        assert(indices(0) =~= Seq::<usize>::empty());
        assert(hs.take(0) =~= Seq::<HunkView>::empty());
    }
}

/// Reading a diff loses no line: its lines, each with a line break, are
/// the preamble's followed by the hunks' texts; before the first hunk there
/// are no hunks.
proof fn lemma_fold_text(ls: Seq<Seq<char>>)
    ensures
        diff_fold(ls) matches Ok(st) ==> {
            &&& with_newlines(ls) == with_newlines(st.preamble) + hunks_text(all_hunks(st))
            &&& st.current is None ==> st.hunks.len() == 0
            &&& all_hunks(st).len() <= ls.len()
        },
    decreases ls.len(),
{
    if ls.len() == 0 {
        assert(with_newlines(Seq::<Seq<char>>::empty()) + hunks_text(Seq::<HunkView>::empty()) =~= Seq::<char>::empty());
    } else {
        let prev = ls.drop_last();
        let x = ls.last();
        lemma_fold_text(prev);
        match diff_fold(ls) {
            Ok(st) => {
                assert(diff_fold(prev) is Ok);
                let ps = diff_fold(prev)->Ok_0;
                assert(with_newlines(ls) == with_newlines(prev) + x.push('\n'));
                if starts_with(x, "@@"@) {
                    let h0 = st.current->0;
                    assert(all_hunks(st) == all_hunks(ps).push(h0));
                    assert(all_hunks(st).drop_last() =~= all_hunks(ps));
                    assert(h0.lines =~= Seq::<Seq<char>>::empty());
                    assert(hunk_text(h0) =~= x.push('\n'));
                    assert(with_newlines(ls) =~= with_newlines(st.preamble) + hunks_text(all_hunks(st)));
                } else {
                    match ps.current {
                        Some(h) => {
                            let h2 = st.current->0;
                            assert(h2.lines == h.lines.push(x));
                            assert(h2.lines.drop_last() =~= h.lines);
                            assert(hunk_text(h2) =~= hunk_text(h) + x.push('\n'));
                            assert(all_hunks(st).drop_last() =~= ps.hunks);
                            assert(all_hunks(ps).drop_last() =~= ps.hunks);
                            assert(with_newlines(ls) =~= with_newlines(st.preamble) + hunks_text(all_hunks(st)));
                        },
                        None => {
                            assert(st.preamble.drop_last() =~= ps.preamble);
                            assert(hunks_text(all_hunks(ps)) =~= Seq::<char>::empty());
                            assert(hunks_text(all_hunks(st)) =~= Seq::<char>::empty());
                            assert(with_newlines(ls) =~= with_newlines(st.preamble) + hunks_text(all_hunks(st)));
                        },
                    }
                }
            },
            Err(_) => {},
        }
    }
}

/// Selecting every hunk of a diff, in order, rebuilds the diff: the patch
/// is the diff's lines, each ending with a line break.
pub proof fn lemma_all_hunks_rebuild_diff(diff: Seq<char>)
    requires
        parsed_diff_of(diff) is Ok,
        lines_of(diff).len() <= usize::MAX,
    ensures
        ({
            let (pre, hunks) = parsed_diff_of(diff)->Ok_0;
            patch_text(pre, hunks, indices(hunks.len())) == with_newlines(lines_of(diff))
        }),
{
    let ls = lines_of(diff);
    lemma_fold_text(ls);
    let (pre, hunks) = parsed_diff_of(diff)->Ok_0;
    lemma_select_prefix(hunks, hunks.len() as int);
    assert(hunks.take(hunks.len() as int) =~= hunks);
}

/// Whether a hunk covers a new-file line (a hunk that adds nothing covers
/// its start line).
pub fn hunk_contains_line(hunk: &DiffHunk, line: usize) -> (r: bool)
    ensures
        r == covers_line(hunk@, line),
{
    if hunk.new_count == 0 {
        return line == hunk.new_start;
    }
    let end = hunk.new_start.saturating_add(hunk.new_count.saturating_sub(1));
    line >= hunk.new_start && line <= end
}

/// Whether a hunk intersects the new-file range `start..=end`.
pub fn hunk_intersects_range(hunk: &DiffHunk, start: usize, end: usize) -> (r: bool)
    ensures
        r == meets_range(hunk@, start, end),
{
    let hunk_start = hunk.new_start;
    let hunk_last = if hunk.new_count == 0 {
        hunk.new_start
    } else {
        hunk.new_start.saturating_add(hunk.new_count.saturating_sub(1))
    };
    hunk_start <= end && hunk_last >= start
}

/// The new-file range of a hunk header.
pub fn parse_hunk_header_new_range(header: &str) -> (r: Option<(usize, usize)>)
    ensures
        r == hunk_new_range(header@),
{
    let w = words_chars(&chars_of(header));
    let at = chars_of("@@");
    if w.len() < 3 {
        return None;
    }
    assert(views(w@)[0] == w@[0]@);
    assert(views(w@)[2] == w@[2]@);
    if !chars_eq(&w[0], &at) || w[2].len() == 0 || w[2][0] != '+' {
        return None;
    }
    let sp = slice_chars(&w[2], 1, w[2].len());
    assert(sp@ =~= w@[2]@.drop_first());
    match find_char(&sp, ',') {
        Some(i) => {
            let a = slice_chars(&sp, 0, i);
            let b = slice_chars(&sp, i + 1, sp.len());
            assert(a@ =~= sp@.take(i as int));
            assert(b@ =~= sp@.skip(i + 1));
            match (parse_usize(&a), parse_usize(&b)) {
                (Some(start), Some(count)) => Some((start, count)),
                _ => None,
            }
        },
        None => match parse_usize(&sp) {
            Some(start) => Some((start, 1)),
            None => None,
        },
    }
}

/// Appends `line` and a line break.
fn push_line(out: &mut Vec<char>, line: &[char])
    ensures
        final(out)@ == old(out)@ + line@.push('\n'),
{
    push_chars(out, line);
    out.push('\n');
    assert(out@ =~= old(out)@ + line@.push('\n'));
}

/// Appends each string followed by a line break.
fn push_lines(out: &mut Vec<char>, ls: &Vec<String>)
    ensures
        final(out)@ == old(out)@ + with_newlines(strs(ls@)),
{
    let ghost lv = strs(ls@);
    let mut i: usize = 0;
    assert(lv.take(0) =~= Seq::<Seq<char>>::empty());
    assert(out@ =~= old(out)@ + with_newlines(lv.take(0)));
    while i < ls.len()
        invariant
            i <= ls@.len(),
            lv == strs(ls@),
            out@ == old(out)@ + with_newlines(lv.take(i as int)),
        decreases ls@.len() - i,
    {
        assert(lv.take(i + 1).drop_last() =~= lv.take(i as int));
        assert(lv.take(i + 1).last() == ls@[i as int]@);
        let c = chars_of(ls[i].as_str());
        push_line(out, &c);
        assert(out@ =~= old(out)@ + with_newlines(lv.take(i + 1)));
        i += 1;
    }
    assert(lv.take(ls@.len() as int) =~= lv);
}

/// The view of a diff state.
pub open spec fn diff_state_of(preamble: Seq<String>, hunks: Seq<DiffHunk>, current: Option<DiffHunk>) -> DiffState {
    DiffState {
        preamble: strs(preamble),
        hunks: hunk_views(hunks),
        current: match current {
            Some(h) => Some(h@),
            None => None,
        },
    }
}

impl GitRepo {
    /// Parses a unified diff into its preamble and hunks.
    pub fn parse_diff(diff: &str) -> (r: Result<ParsedDiff, GitError>)
        ensures
            match parsed_diff_of(diff@) {
                Ok((pre, hunks)) => r matches Ok(p) && strs(p.preamble@) == pre && hunk_views(p.hunks@) == hunks,
                Err(m) => r matches Err(GitError::Parse(e)) && e@ == m,
            },
    {
        let ls = lines_chars(&chars_of(diff));
        let ghost lv = views(ls@);
        let mut preamble: Vec<String> = Vec::new();
        let mut hunks: Vec<DiffHunk> = Vec::new();
        let mut current: Option<DiffHunk> = None;
        let at = chars_of("@@");
        let mut i: usize = 0;
        assert(lv.take(0) =~= Seq::<Seq<char>>::empty());
        assert(strs(preamble@) =~= Seq::<Seq<char>>::empty());
        assert(hunk_views(hunks@) =~= Seq::<HunkView>::empty());
        while i < ls.len()
            invariant
                i <= ls@.len(),
                lv == views(ls@),
                lv == lines_of(diff@),
                at@ == "@@"@,
                diff_fold(lv.take(i as int)) == Ok::<DiffState, Seq<char>>(diff_state_of(preamble@, hunks@, current)),
            decreases ls@.len() - i,
        {
            assert(lv.take(i + 1).drop_last() =~= lv.take(i as int));
            assert(lv.take(i + 1).last() == ls@[i as int]@);
            let line = &ls[i];
            let ghost st = diff_state_of(preamble@, hunks@, current);
            if has_prefix(line, &at) {
                let header = string_from_chars(line);
                match parse_hunk_header_new_range(header.as_str()) {
                    Some((new_start, new_count)) => {
                        match current {
                            Some(h) => {
                                hunks.push(h);
                            },
                            None => {},
                        }
                        assert(hunk_views(hunks@) =~= all_hunks(st));
                        current = Some(DiffHunk { header, lines: Vec::new(), new_start, new_count });
                        assert(strs(Seq::<String>::empty()) =~= Seq::<Seq<char>>::empty());
                    },
                    None => {
                        let msg = concat("Invalid hunk header: ", line);
                        proof {
                            assert(diff_fold(lv.take(i + 1)) == Err::<DiffState, Seq<char>>("Invalid hunk header: "@ + line@));
                            lemma_diff_fold_error_sticks(lv, i + 1);
                            assert(lv.take(ls@.len() as int) =~= lv);
                        }
                        return Err(GitError::Parse(msg));
                    },
                }
            } else {
                match current {
                    Some(mut h) => {
                        let ghost old_h = h@;
                        push_arg(&mut h.lines, line);
                        current = Some(h);
                    },
                    None => {
                        push_arg(&mut preamble, line);
                    },
                }
            }
            i += 1;
        }
        assert(lv.take(ls@.len() as int) =~= lv);
        let ghost st = diff_state_of(preamble@, hunks@, current);
        match current {
            Some(h) => {
                hunks.push(h);
            },
            None => {},
        }
        assert(hunk_views(hunks@) =~= all_hunks(st));
        Ok(ParsedDiff { preamble, hunks })
    }

    /// A patch of the preamble and the selected hunks (indices past the end
    /// are skipped), each line ending with a line break.
    pub fn build_patch(parsed: &ParsedDiff, selected_hunks: &[usize]) -> (r: String)
        ensures
            r@ == patch_text(strs(parsed.preamble@), hunk_views(parsed.hunks@), selected_hunks@),
    {
        let mut out: Vec<char> = Vec::new();
        push_lines(&mut out, &parsed.preamble);
        assert(out@ =~= with_newlines(strs(parsed.preamble@)));
        let ghost pre = out@;
        let ghost hv = hunk_views(parsed.hunks@);
        let ghost sel = selected_hunks@;
        let mut i: usize = 0;
        assert(sel.take(0) =~= Seq::<usize>::empty());
        assert(out@ =~= pre + selected_text(hv, sel.take(0)));
        while i < selected_hunks.len()
            invariant
                i <= sel.len(),
                sel == selected_hunks@,
                hv == hunk_views(parsed.hunks@),
                out@ == pre + selected_text(hv, sel.take(i as int)),
            decreases sel.len() - i,
        {
            assert(sel.take(i + 1).drop_last() =~= sel.take(i as int));
            assert(sel.take(i + 1).last() == sel[i as int]);
            let idx = selected_hunks[i];
            if idx < parsed.hunks.len() {
                let h = &parsed.hunks[idx];
                assert(hv[idx as int] == h@);
                let hc = chars_of(h.header.as_str());
                let ghost before = out@;
                push_line(&mut out, &hc);
                push_lines(&mut out, &h.lines);
                assert(out@ =~= before + hunk_text(h@));
            }
            assert(out@ =~= pre + selected_text(hv, sel.take(i + 1)));
            i += 1;
        }
        assert(sel.take(sel.len() as int) =~= sel);
        string_from_chars(&out)
    }
}

/// Once reading a diff has failed, the lines after it leave the error as it
/// is.
pub proof fn lemma_diff_fold_error_sticks(ls: Seq<Seq<char>>, k: int)
    requires
        0 <= k <= ls.len(),
        diff_fold(ls.take(k)) is Err,
    ensures
        diff_fold(ls) == diff_fold(ls.take(k)),
    decreases ls.len() - k,
{
    if k == ls.len() {
        assert(ls.take(k) =~= ls);
    } else {
        assert(ls.take(k + 1).drop_last() =~= ls.take(k));
        assert(diff_fold(ls.take(k + 1)) == diff_fold(ls.take(k)));
        lemma_diff_fold_error_sticks(ls, k + 1);
    }
}


/// The view of a git error.
pub enum ErrorView {
    Command(Seq<char>),
    Exec(Seq<char>),
    Parse(Seq<char>),
}

impl View for GitError {
    type V = ErrorView;

    open spec fn view(&self) -> ErrorView {
        match self {
            GitError::Command(m) => ErrorView::Command(m@),
            GitError::Exec(m) => ErrorView::Exec(m@),
            GitError::Parse(m) => ErrorView::Parse(m@),
        }
    }
}

/// What is done with the hunks a selection picks.
#[derive(Debug, Clone, Copy, PartialEq, Eq, Structural)]
pub enum HunkAction {
    /// Stage unstaged changes.
    Stage,
    /// Unstage staged changes.
    Unstage,
    /// Discard unstaged changes from the working tree.
    Discard,
}

/// The indices (in order) of the first `n` hunks that cover `line`.
pub open spec fn covering(hunks: Seq<HunkView>, line: usize, n: int) -> Seq<usize>
    decreases n,
{
    if n <= 0 {
        Seq::empty()
    } else if covers_line(hunks[n - 1], line) {
        covering(hunks, line, n - 1).push((n - 1) as usize)
    } else {
        covering(hunks, line, n - 1)
    }
}

/// The indices (in order) of the first `n` hunks that meet `start..=end`.
pub open spec fn meeting(hunks: Seq<HunkView>, start: usize, end: usize, n: int) -> Seq<usize>
    decreases n,
{
    if n <= 0 {
        Seq::empty()
    } else if meets_range(hunks[n - 1], start, end) {
        meeting(hunks, start, end, n - 1).push((n - 1) as usize)
    } else {
        meeting(hunks, start, end, n - 1)
    }
}

/// `staged` or `unstaged`: the changes an action works on.
pub open spec fn changes_word(action: HunkAction) -> Seq<char> {
    if action == HunkAction::Unstage { "staged"@ } else { "unstaged"@ }
}

/// The plan that applies a patch for an action.
pub open spec fn action_plan(action: HunkAction, patch: Seq<char>, by_range: bool) -> PlanView {
    match action {
        HunkAction::Stage => run_with_input(apply_args(true, by_range, false), patch),
        HunkAction::Unstage => run_with_input(apply_args(true, by_range, true), patch),
        HunkAction::Discard => run_with_input(apply_args(false, by_range, true), patch),
    }
}

/// The outcome of selecting the hunk at a new-file line (`by_range` false)
/// or the hunks meeting `min..=max` of the two bounds (`by_range` true), from
/// the diff of [`GitRepo::selection_diff_plan`].
pub open spec fn selection_outcome(
    action: HunkAction,
    by_range: bool,
    a: usize,
    b: usize,
    diff: Result<Seq<char>, ErrorView>,
) -> Result<PlanView, ErrorView> {
    let (start, end) = if a <= b { (a, b) } else { (b, a) };
    match diff {
        Err(e) => Err(e),
        Ok(d) => match parsed_diff_of(d) {
            Err(m) => Err(ErrorView::Parse(m)),
            Ok((pre, hunks)) => if hunks.len() == 0 {
                Err(ErrorView::Command("No "@ + changes_word(action) + " hunks found for this file"@))
            } else if !by_range {
                let found = covering(hunks, a, hunks.len() as int);
                if found.len() == 0 {
                    Err(ErrorView::Command("No "@ + changes_word(action) + " hunk found at line "@ + decimal(a as nat)
                        + (if action == HunkAction::Unstage {
                        ". Select a staged line and retry."@
                    } else {
                        ". Select a changed line and retry."@
                    })))
                } else {
                    Ok(action_plan(action, patch_text(pre, hunks, seq![found[0]]), false))
                }
            } else {
                let found = meeting(hunks, start, end, hunks.len() as int);
                if found.len() == 0 {
                    Err(ErrorView::Command("No "@ + changes_word(action) + " changes intersect selected range "@
                        + decimal(start as nat) + "-"@ + decimal(end as nat)))
                } else {
                    Ok(action_plan(action, patch_text(pre, hunks, found), true))
                }
            },
        },
    }
}

/// The view of a plan outcome.
pub open spec fn plan_result_view(r: Result<GitPlan, GitError>) -> Result<PlanView, ErrorView> {
    match r {
        Ok(p) => Ok(p@),
        Err(e) => Err(e@),
    }
}

/// The view of a command outcome, with the error's view.
pub open spec fn out_error_view(r: Result<String, GitError>) -> Result<Seq<char>, ErrorView> {
    match r {
        Ok(s) => Ok(s@),
        Err(e) => Err(e@),
    }
}

impl GitRepo {
    /// The diff a selection is made from: staged changes to unstage,
    /// unstaged ones otherwise; 3 lines of context to pick a hunk at a line,
    /// none to pick by range.
    pub fn selection_diff_plan(&self, file_path: &str, action: HunkAction, by_range: bool) -> (p: GitPlan)
        ensures
            p@ == run(file_diff_args(
                action == HunkAction::Unstage,
                Some(if by_range { 0usize } else { 3usize }),
                rel_path(self.spec_workdir(), file_path@),
            )),
    {
        let context: usize = if by_range { 0 } else { 3 };
        match action {
            HunkAction::Unstage => self.get_staged_file_diff(file_path, Some(context)),
            _ => self.get_unstaged_file_diff(file_path, Some(context)),
        }
    }

    fn select_hunks(&self, action: HunkAction, by_range: bool, a: usize, b: usize, diff: Result<String, GitError>) -> (r: Result<GitPlan, GitError>)
        ensures
            plan_result_view(r) == selection_outcome(action, by_range, a, b, out_error_view(diff)),
    {
        let (start, end) = if a <= b { (a, b) } else { (b, a) };
        let d = match diff {
            Ok(d) => d,
            Err(e) => {
                return Err(e);
            },
        };
        let parsed = match Self::parse_diff(d.as_str()) {
            Ok(p) => p,
            Err(e) => {
                return Err(e);
            },
        };
        let word = if action == HunkAction::Unstage { "staged" } else { "unstaged" };
        let ghost hv = hunk_views(parsed.hunks@);
        if parsed.hunks.len() == 0 {
            let mut m = chars_of("No ");
            push_chars(&mut m, &chars_of(word));
            push_chars(&mut m, &chars_of(" hunks found for this file"));
            return Err(GitError::Command(string_from_chars(&m)));
        }
        let mut found: Vec<usize> = Vec::new();
        let mut i: usize = 0;
        while i < parsed.hunks.len()
            invariant
                i <= parsed.hunks@.len(),
                hv == hunk_views(parsed.hunks@),
                found@ == if by_range { meeting(hv, start, end, i as int) } else { covering(hv, a, i as int) },
            decreases parsed.hunks@.len() - i,
        {
            assert(hv[i as int] == parsed.hunks@[i as int]@);
            let hit = if by_range {
                hunk_intersects_range(&parsed.hunks[i], start, end)
            } else {
                hunk_contains_line(&parsed.hunks[i], a)
            };
            if hit {
                found.push(i);
            }
            i += 1;
        }
        if found.len() == 0 {
            let mut m = chars_of("No ");
            push_chars(&mut m, &chars_of(word));
            if by_range {
                push_chars(&mut m, &chars_of(" changes intersect selected range "));
                push_chars(&mut m, &usize_to_chars(start));
                push_chars(&mut m, &chars_of("-"));
                push_chars(&mut m, &usize_to_chars(end));
            } else {
                push_chars(&mut m, &chars_of(" hunk found at line "));
                push_chars(&mut m, &usize_to_chars(a));
                if action == HunkAction::Unstage {
                    push_chars(&mut m, &chars_of(". Select a staged line and retry."));
                } else {
                    push_chars(&mut m, &chars_of(". Select a changed line and retry."));
                }
            }
            return Err(GitError::Command(string_from_chars(&m)));
        }
        let patch = if by_range {
            Self::build_patch(&parsed, &found)
        } else {
            let mut first: Vec<usize> = Vec::new();
            first.push(found[0]);
            assert(first@ =~= seq![found@[0]]);
            Self::build_patch(&parsed, &first)
        };
        let plan = match action {
            HunkAction::Stage => self.apply_patch_to_index(patch.as_str(), by_range, false),
            HunkAction::Unstage => self.apply_patch_to_index(patch.as_str(), by_range, true),
            HunkAction::Discard => self.apply_patch_to_worktree(patch.as_str(), by_range, true),
        };
        Ok(plan)
    }

    /// Stages the unstaged hunk covering a new-file line (1-based), from the
    /// diff of `selection_diff_plan(file_path, Stage, false)`.
    pub fn stage_hunk_at_line(&self, line: usize, diff: Result<String, GitError>) -> (r: Result<GitPlan, GitError>)
        ensures
            plan_result_view(r) == selection_outcome(HunkAction::Stage, false, line, line, out_error_view(diff)),
    {
        self.select_hunks(HunkAction::Stage, false, line, line, diff)
    }

    /// Stages the unstaged changes meeting a new-file line range, from the
    /// diff of `selection_diff_plan(file_path, Stage, true)`.
    pub fn stage_line_range(&self, range_start: usize, range_end: usize, diff: Result<String, GitError>) -> (r: Result<GitPlan, GitError>)
        ensures
            plan_result_view(r) == selection_outcome(HunkAction::Stage, true, range_start, range_end, out_error_view(diff)),
    {
        self.select_hunks(HunkAction::Stage, true, range_start, range_end, diff)
    }

    /// Unstages the staged hunk covering a new-file line.
    pub fn unstage_hunk_at_line(&self, line: usize, diff: Result<String, GitError>) -> (r: Result<GitPlan, GitError>)
        ensures
            plan_result_view(r) == selection_outcome(HunkAction::Unstage, false, line, line, out_error_view(diff)),
    {
        self.select_hunks(HunkAction::Unstage, false, line, line, diff)
    }

    /// Unstages the staged changes meeting a new-file line range.
    pub fn unstage_line_range(&self, range_start: usize, range_end: usize, diff: Result<String, GitError>) -> (r: Result<GitPlan, GitError>)
        ensures
            plan_result_view(r) == selection_outcome(HunkAction::Unstage, true, range_start, range_end, out_error_view(diff)),
    {
        self.select_hunks(HunkAction::Unstage, true, range_start, range_end, diff)
    }

    /// Discards the unstaged hunk covering a new-file line.
    pub fn discard_hunk_at_line(&self, line: usize, diff: Result<String, GitError>) -> (r: Result<GitPlan, GitError>)
        ensures
            plan_result_view(r) == selection_outcome(HunkAction::Discard, false, line, line, out_error_view(diff)),
    {
        self.select_hunks(HunkAction::Discard, false, line, line, diff)
    }

    /// Discards the unstaged changes meeting a new-file line range.
    pub fn discard_line_range(&self, range_start: usize, range_end: usize, diff: Result<String, GitError>) -> (r: Result<GitPlan, GitError>)
        ensures
            plan_result_view(r) == selection_outcome(HunkAction::Discard, true, range_start, range_end, out_error_view(diff)),
    {
        self.select_hunks(HunkAction::Discard, true, range_start, range_end, diff)
    }
}

/// Each line prefixed with `mark` and followed by a line break.
pub open spec fn marked_lines(ls: Seq<Seq<char>>, mark: char) -> Seq<char>
    decreases ls.len(),
{
    if ls.len() == 0 {
        Seq::empty()
    } else {
        marked_lines(ls.drop_last(), mark) + seq![mark] + ls.last().push('\n')
    }
}

/// The name shown for a file in a generated diff.
pub open spec fn diff_file_name(file_path: Seq<char>) -> Seq<char> {
    match file_name_of(file_path) {
        Some(n) => n,
        None => "file"@,
    }
}

/// The diff of a new file: every line added.
pub open spec fn added_diff_text(file_path: Seq<char>, content: Seq<char>) -> Seq<char> {
    let ls = lines_of(content);
    "--- /dev/null\n"@ + "+++ b/"@ + diff_file_name(file_path) + "\n"@ + "@@ -0,0 +1,"@
        + decimal(ls.len()) + " @@\n"@ + marked_lines(ls, '+')
}

/// The diff of a deleted file: every line of its `HEAD` content removed.
pub open spec fn deleted_diff_text(file_path: Seq<char>, content: Seq<char>) -> Seq<char> {
    let ls = lines_of(content);
    "--- a/"@ + diff_file_name(file_path) + "\n"@ + "+++ /dev/null\n"@ + "@@ -1,"@ + decimal(ls.len())
        + " +0,0 @@\n"@ + marked_lines(ls, '-')
}

/// Appends each line prefixed with `mark`, followed by a line break.
fn push_marked(out: &mut Vec<char>, ls: &Vec<Vec<char>>, mark: char)
    ensures
        final(out)@ == old(out)@ + marked_lines(views(ls@), mark),
{
    let ghost lv = views(ls@);
    let mut i: usize = 0;
    assert(lv.take(0) =~= Seq::<Seq<char>>::empty());
    assert(out@ =~= old(out)@ + marked_lines(lv.take(0), mark));
    while i < ls.len()
        invariant
            i <= ls@.len(),
            lv == views(ls@),
            out@ == old(out)@ + marked_lines(lv.take(i as int), mark),
        decreases ls@.len() - i,
    {
        assert(lv.take(i + 1).drop_last() =~= lv.take(i as int));
        assert(lv.take(i + 1).last() == ls@[i as int]@);
        out.push(mark);
        push_chars(out, &ls[i]);
        out.push('\n');
        assert(out@ =~= old(out)@ + marked_lines(lv.take(i + 1), mark));
        i += 1;
    }
    assert(lv.take(ls@.len() as int) =~= lv);
}

impl GitRepo {
    /// The shown name of a file in a generated diff.
    fn diff_name(file_path: &str) -> (r: Vec<char>)
        ensures
            r@ == diff_file_name(file_path@),
    {
        match file_name(&chars_of(file_path)) {
            Some(n) => n,
            None => chars_of("file"),
        }
    }

    /// The diff of an untracked file with the given content (every line added).
    pub fn generate_added_diff(&self, file_path: &str, content: &str) -> (r: String)
        ensures
            r@ == added_diff_text(file_path@, content@),
    {
        let ls = lines_chars(&chars_of(content));
        let mut d = chars_of("--- /dev/null\n");
        push_chars(&mut d, &chars_of("+++ b/"));
        push_chars(&mut d, &Self::diff_name(file_path));
        push_chars(&mut d, &chars_of("\n"));
        push_chars(&mut d, &chars_of("@@ -0,0 +1,"));
        push_chars(&mut d, &usize_to_chars(ls.len()));
        push_chars(&mut d, &chars_of(" @@\n"));
        push_marked(&mut d, &ls, '+');
        string_from_chars(&d)
    }

    /// The diff of a deleted file from its `HEAD` content (the outcome of
    /// [`GitRepo::get_file_content_from_head`]): every line removed.
    pub fn generate_deleted_diff(&self, file_path: &str, head_content: Result<String, GitError>) -> (r: Result<String, GitError>)
        ensures
            match head_content {
                Ok(c) => r matches Ok(d) && d@ == deleted_diff_text(file_path@, c@),
                Err(e) => r == Err::<String, GitError>(e),
            },
    {
        let content = match head_content {
            Ok(c) => c,
            Err(e) => {
                return Err(e);
            },
        };
        let ls = lines_chars(&chars_of(content.as_str()));
        let mut d = chars_of("--- a/");
        push_chars(&mut d, &Self::diff_name(file_path));
        push_chars(&mut d, &chars_of("\n"));
        push_chars(&mut d, &chars_of("+++ /dev/null\n"));
        push_chars(&mut d, &chars_of("@@ -1,"));
        push_chars(&mut d, &usize_to_chars(ls.len()));
        push_chars(&mut d, &chars_of(" +0,0 @@\n"));
        push_marked(&mut d, &ls, '-');
        Ok(string_from_chars(&d))
    }
}


} // verus!
