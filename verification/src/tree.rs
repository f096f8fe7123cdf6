//! The rows of a file list shown as a tree: at each level the directories
//! (in path order, each followed by its contents when expanded), then the
//! files, each row with its depth.

use vstd::prelude::*;
use crate::path::{
    comps_eq, comps_string, comps_to_chars, components, cur_comp, file_name, file_name_of, is_normal,
    parent_comp, path_comps, root_comp,
};
use crate::text::{chars_eq, chars_of, string_from_chars, to_vec, views};

verus! {

/// One row of the tree.
#[derive(Debug, Clone)]
pub enum TreeRow {
    /// A directory: its path, its name, its depth, and whether it is open.
    Dir { path: String, name: String, depth: usize, expanded: bool },
    /// A file: its index in the list, its name, and its depth.
    File { index: usize, name: String, depth: usize },
}

/// The view of a row.
pub enum RowView {
    Dir { path: Seq<char>, name: Seq<char>, depth: nat, expanded: bool },
    File { index: nat, name: Seq<char>, depth: nat },
}

impl View for TreeRow {
    type V = RowView;

    open spec fn view(&self) -> RowView {
        match self {
            TreeRow::Dir { path, name, depth, expanded } => RowView::Dir {
                path: path@,
                name: name@,
                depth: *depth as nat,
                expanded: *expanded,
            },
            TreeRow::File { index, name, depth } => RowView::File {
                index: *index as nat,
                name: name@,
                depth: *depth as nat,
            },
        }
    }
}

/// The views of a list of rows.
pub open spec fn row_views(v: Seq<TreeRow>) -> Seq<RowView> {
    Seq::new(v.len(), |i: int| v[i]@)
}

/// The components of each path.
pub open spec fn comps_of_all(paths: Seq<String>) -> Seq<Seq<Seq<char>>> {
    Seq::new(paths.len(), |i: int| path_comps(paths[i]@))
}

/// The components of a path below the directory `cur` (all of them at the
/// top, where `cur` has none), if it lies under it.
pub open spec fn below(c: Seq<Seq<char>>, cur: Seq<Seq<char>>) -> Option<Seq<Seq<char>>> {
    if cur.len() == 0 {
        Some(c)
    } else if cur.is_prefix_of(c) {
        Some(c.skip(cur.len() as int))
    } else {
        None
    }
}

/// The rank of a component in path order: the root, `.`, `..`, then names.
pub open spec fn comp_rank(c: Seq<char>) -> int {
    if c == root_comp() {
        0
    } else if c == cur_comp() {
        1
    } else if c == parent_comp() {
        2
    } else {
        3
    }
}

/// Lexicographic order of code points.
pub open spec fn chars_lt(a: Seq<char>, b: Seq<char>) -> bool
    decreases a.len(),
{
    if a.len() == 0 {
        b.len() > 0
    } else if b.len() == 0 {
        false
    } else if a[0] != b[0] {
        (a[0] as u32) < (b[0] as u32)
    } else {
        chars_lt(a.drop_first(), b.drop_first())
    }
}

/// The order of sibling directories: by component kind, then by name.
pub open spec fn comp_lt(a: Seq<char>, b: Seq<char>) -> bool {
    comp_rank(a) < comp_rank(b) || (comp_rank(a) == comp_rank(b) && chars_lt(a, b))
}

/// `x` added to the ordered list `s` unless it is there: before the first
/// entry that does not come before it.
pub open spec fn insert_name(s: Seq<Seq<char>>, x: Seq<char>) -> Seq<Seq<char>>
    decreases s.len(),
{
    if s.len() == 0 {
        seq![x]
    } else if comp_lt(s[0], x) {
        seq![s[0]] + insert_name(s.drop_first(), x)
    } else if s[0] == x {
        s
    } else {
        seq![x] + s
    }
}

/// The ordered names of the directories directly under `cur` that hold
/// paths of `files` (the first `n` of them).
pub open spec fn dir_names(files: Seq<Seq<Seq<char>>>, cur: Seq<Seq<char>>, n: int) -> Seq<Seq<char>>
    decreases n,
{
    if n <= 0 {
        Seq::empty()
    } else {
        let prev = dir_names(files, cur, n - 1);
        match below(files[n - 1], cur) {
            Some(rel) => if rel.len() > 1 { insert_name(prev, rel[0]) } else { prev },
            None => prev,
        }
    }
}

/// The indices of the paths of `files` (the first `n`) directly in `cur`.
pub open spec fn level_files(files: Seq<Seq<Seq<char>>>, cur: Seq<Seq<char>>, n: int) -> Seq<int>
    decreases n,
{
    if n <= 0 {
        Seq::empty()
    } else {
        let prev = level_files(files, cur, n - 1);
        match below(files[n - 1], cur) {
            Some(rel) => if rel.len() == 1 { prev.push(n - 1) } else { prev },
            None => prev,
        }
    }
}

/// Whether the directory with components `d` is open.
pub open spec fn is_expanded(expanded: Seq<Seq<Seq<char>>>, d: Seq<Seq<char>>) -> bool {
    exists|k: int| 0 <= k < expanded.len() && expanded[k] == d
}

/// A directory's displayed name: its own name, or nothing for the root and
/// the dot components.
pub open spec fn dir_label(c: Seq<char>) -> Seq<char> {
    if is_normal(c) { c } else { Seq::empty() }
}

/// A file's displayed name.
pub open spec fn file_label(path: Seq<char>) -> Seq<char> {
    match file_name_of(path) {
        Some(n) => n,
        None => Seq::empty(),
    }
}

/// The rows of the level `cur` at `depth`: its directories, each followed
/// by its contents when open, then its files. `fuel` bounds the nesting.
pub open spec fn level_rows(
    paths: Seq<String>,
    expanded: Seq<Seq<Seq<char>>>,
    cur: Seq<Seq<char>>,
    depth: nat,
    fuel: nat,
) -> Seq<RowView>
    decreases fuel, 0nat,
{
    if fuel == 0 {
        Seq::empty()
    } else {
        let files = comps_of_all(paths);
        dir_rows(paths, expanded, cur, depth, (fuel - 1) as nat, dir_names(files, cur, files.len() as int))
            + file_rows(paths, level_files(files, cur, files.len() as int), depth)
    }
}

/// The rows of the directories `names` under `cur`, in order.
pub open spec fn dir_rows(
    paths: Seq<String>,
    expanded: Seq<Seq<Seq<char>>>,
    cur: Seq<Seq<char>>,
    depth: nat,
    fuel: nat,
    names: Seq<Seq<char>>,
) -> Seq<RowView>
    decreases fuel, names.len(),
{
    if names.len() == 0 {
        Seq::empty()
    } else {
        let d = cur.push(names[0]);
        let open = is_expanded(expanded, d);
        seq![RowView::Dir { path: comps_string(d), name: dir_label(names[0]), depth, expanded: open }]
            + (if open { level_rows(paths, expanded, d, depth + 1, fuel) } else { Seq::empty() })
            + dir_rows(paths, expanded, cur, depth, fuel, names.drop_first())
    }
}

/// The rows of the files at `idx`, at `depth`.
pub open spec fn file_rows(paths: Seq<String>, idx: Seq<int>, depth: nat) -> Seq<RowView> {
    Seq::new(idx.len(), |i: int| RowView::File { index: idx[i] as nat, name: file_label(paths[idx[i]]@), depth })
}

/// The most components any path has.
pub open spec fn max_comps(files: Seq<Seq<Seq<char>>>, n: int) -> nat
    decreases n,
{
    if n <= 0 {
        0
    } else {
        let m = max_comps(files, n - 1);
        if files[n - 1].len() > m { files[n - 1].len() } else { m }
    }
}

/// How deep the rows are built: one level more than the most components
/// any path has (which no directory can reach).
pub open spec fn nesting_bound(paths: Seq<String>) -> nat {
    let m = max_comps(comps_of_all(paths), paths.len() as int);
    if m < usize::MAX { m + 1 } else { m }
}

/// The rows of the whole tree.
pub open spec fn tree_rows_of(paths: Seq<String>, expanded: Seq<String>) -> Seq<RowView> {
    level_rows(paths, comps_of_all(expanded), Seq::empty(), 0, nesting_bound(paths))
}

/// The files of a level are among the first `n`.
pub proof fn lemma_level_files_bounds(files: Seq<Seq<Seq<char>>>, cur: Seq<Seq<char>>, n: int)
    requires
        0 <= n,
    ensures
        forall|j: int| 0 <= j < level_files(files, cur, n).len() ==> 0 <= #[trigger] level_files(files, cur, n)[j] < n,
    decreases n,
{
    if n > 0 {
        lemma_level_files_bounds(files, cur, n - 1);
        let prev = level_files(files, cur, n - 1);
        let now = level_files(files, cur, n);
        assert forall|j: int| 0 <= j < now.len() implies 0 <= #[trigger] now[j] < n by {
            if j < prev.len() {
                assert(now[j] == prev[j]);
            }
        }
    }
}

/// Directory rows of a concatenation of names.
pub proof fn lemma_dir_rows_concat(
    paths: Seq<String>,
    expanded: Seq<Seq<Seq<char>>>,
    cur: Seq<Seq<char>>,
    depth: nat,
    fuel: nat,
    a: Seq<Seq<char>>,
    b: Seq<Seq<char>>,
)
    ensures
        dir_rows(paths, expanded, cur, depth, fuel, a + b)
            == dir_rows(paths, expanded, cur, depth, fuel, a) + dir_rows(paths, expanded, cur, depth, fuel, b),
    decreases a.len(),
{
    if a.len() == 0 {
        assert(a + b =~= b);
        assert(Seq::<RowView>::empty() + dir_rows(paths, expanded, cur, depth, fuel, b)
            =~= dir_rows(paths, expanded, cur, depth, fuel, b));
    } else {
        assert((a + b).drop_first() =~= a.drop_first() + b);
        assert((a + b)[0] == a[0]);
        lemma_dir_rows_concat(paths, expanded, cur, depth, fuel, a.drop_first(), b);
        let d = cur.push(a[0]);
        let head = seq![RowView::Dir {
            path: comps_string(d),
            name: dir_label(a[0]),
            depth,
            expanded: is_expanded(expanded, d),
        }] + (if is_expanded(expanded, d) {
            level_rows(paths, expanded, d, depth + 1, fuel)
        } else {
            Seq::empty()
        });
        assert(head + (dir_rows(paths, expanded, cur, depth, fuel, a.drop_first())
            + dir_rows(paths, expanded, cur, depth, fuel, b))
            =~= (head + dir_rows(paths, expanded, cur, depth, fuel, a.drop_first()))
            + dir_rows(paths, expanded, cur, depth, fuel, b));
    }
}

/// Code-point order of two character sequences.
fn chars_less(a: &[char], b: &[char]) -> (r: bool)
    ensures
        r == chars_lt(a@, b@),
{
    let mut i: usize = 0;
    assert(a@.skip(0) =~= a@);
    assert(b@.skip(0) =~= b@);
    while i < a.len() && i < b.len()
        invariant
            i <= a@.len(),
            i <= b@.len(),
            forall|j: int| 0 <= j < i ==> a@[j] == b@[j],
            chars_lt(a@, b@) == chars_lt(a@.skip(i as int), b@.skip(i as int)),
        decreases a@.len() - i,
    {
        assert(a@.skip(i as int).drop_first() =~= a@.skip(i + 1));
        assert(b@.skip(i as int).drop_first() =~= b@.skip(i + 1));
        if a[i] != b[i] {
            return (a[i] as u32) < (b[i] as u32);
        }
        i += 1;
    }
    i == a.len() && i < b.len()
}

/// The rank of a component.
fn rank(c: &[char]) -> (r: u8)
    ensures
        r as int == comp_rank(c@),
{
    if chars_eq(c, &chars_of("/")) {
        proof {
            reveal_strlit("/");
        }
        assert(c@ =~= root_comp());
        0
    } else if chars_eq(c, &chars_of(".")) {
        proof {
            reveal_strlit("/");
            reveal_strlit(".");
        }
        assert(c@ =~= cur_comp());
        assert(c@[0] != root_comp()[0]);
        1
    } else if chars_eq(c, &chars_of("..")) {
        proof {
            reveal_strlit("/");
            reveal_strlit(".");
            reveal_strlit("..");
        }
        assert(c@ =~= parent_comp());
        2
    } else {
        proof {
            reveal_strlit("/");
            reveal_strlit(".");
            reveal_strlit("..");
            assert("/"@ =~= root_comp());
            assert("."@ =~= cur_comp());
            assert(".."@ =~= parent_comp());
        }
        3
    }
}

/// Whether directory `a` comes before directory `b`.
fn comp_less(a: &[char], b: &[char]) -> (r: bool)
    ensures
        r == comp_lt(a@, b@),
{
    let ra = rank(a);
    let rb = rank(b);
    ra < rb || (ra == rb && chars_less(a, b))
}

/// Adds `x` to the ordered list `s` unless it is there.
fn insert_sorted(s: &mut Vec<Vec<char>>, x: &[char])
    ensures
        views(final(s)@) == insert_name(views(old(s)@), x@),
{
    let ghost orig = views(s@);
    let mut i: usize = 0;
    assert(orig.take(0) + orig.skip(0) =~= orig);
    assert(orig.take(0) + insert_name(orig, x@) =~= insert_name(orig, x@));
    assert(orig.skip(0) =~= orig);
    while i < s.len() && comp_less(&s[i], x)
        invariant
            i <= s@.len(),
            views(s@) == orig,
            insert_name(orig, x@) == orig.take(i as int) + insert_name(orig.skip(i as int), x@),
        decreases s@.len() - i,
    {
        let ghost rest = orig.skip(i as int);
        assert(rest[0] == s@[i as int]@);
        assert(rest.drop_first() =~= orig.skip(i + 1));
        assert(orig.take(i + 1) =~= orig.take(i as int) + seq![rest[0]]);
        assert(orig.take(i as int) + (seq![rest[0]] + insert_name(orig.skip(i + 1), x@))
            =~= orig.take(i + 1) + insert_name(orig.skip(i + 1), x@));
        i += 1;
    }
    let ghost rest = orig.skip(i as int);
    if i < s.len() && chars_eq(&s[i], x) {
        assert(rest[0] == s@[i as int]@);
        assert(orig.take(i as int) + rest =~= orig);
        return;
    }
    if i < s.len() {
        assert(rest[0] == s@[i as int]@);
    } else {
        assert(rest =~= Seq::<Seq<char>>::empty());
    }
    let ghost before = s@;
    s.insert(i, to_vec(x));
    assert(views(s@) =~= orig.take(i as int) + (seq![x@] + rest));
}

/// The components of each path.
fn comps_list(paths: &Vec<String>) -> (r: Vec<Vec<Vec<char>>>)
    ensures
        r@.len() == paths@.len(),
        forall|i: int| 0 <= i < r@.len() ==> views(#[trigger] r@[i]@) == comps_of_all(paths@)[i],
{
    let mut r: Vec<Vec<Vec<char>>> = Vec::new();
    let mut i: usize = 0;
    while i < paths.len()
        invariant
            i <= paths@.len(),
            r@.len() == i,
            forall|j: int| 0 <= j < i ==> views(#[trigger] r@[j]@) == comps_of_all(paths@)[j],
        decreases paths@.len() - i,
    {
        r.push(components(&chars_of(paths[i].as_str())));
        i += 1;
    }
    r
}

/// The components of `c` below `cur`, if it lies under it.
fn below_exec(c: &Vec<Vec<char>>, cur: &Vec<Vec<char>>) -> (r: Option<usize>)
    ensures
        match below(views(c@), views(cur@)) {
            Some(rel) => r == Some(cur@.len() as usize) && rel.len() == c@.len() - cur@.len(),
            None => r is None,
        },
{
    if cur.len() == 0 {
        assert(views(c@).skip(0) =~= views(c@));
        return Some(0);
    }
    if cur.len() > c.len() {
        return None;
    }
    let mut i: usize = 0;
    while i < cur.len()
        invariant
            cur@.len() <= c@.len(),
            i <= cur@.len(),
            forall|j: int| 0 <= j < i ==> views(cur@)[j] == views(c@)[j],
        decreases cur@.len() - i,
    {
        if !chars_eq(&cur[i], &c[i]) {
            assert(views(cur@)[i as int] != views(c@)[i as int]);
            return None;
        }
        i += 1;
    }
    Some(cur.len())
}

/// The names of the directories directly under `cur`, ordered, and the
/// indices of the files directly in it.
fn level_of(files: &Vec<Vec<Vec<char>>>, cur: &Vec<Vec<char>>, fs: Ghost<Seq<Seq<Seq<char>>>>) -> (r: (Vec<Vec<char>>, Vec<usize>))
    requires
        fs@.len() == files@.len(),
        forall|i: int| 0 <= i < files@.len() ==> views(#[trigger] files@[i]@) == fs@[i],
    ensures
        views(r.0@) == dir_names(fs@, views(cur@), fs@.len() as int),
        r.1@.len() == level_files(fs@, views(cur@), fs@.len() as int).len(),
        forall|k: int| 0 <= k < r.1@.len() ==> r.1@[k] as int == #[trigger] level_files(fs@, views(cur@), fs@.len() as int)[k],
{
    let mut names: Vec<Vec<char>> = Vec::new();
    let mut idx: Vec<usize> = Vec::new();
    let mut i: usize = 0;
    while i < files.len()
        invariant
            fs@.len() == files@.len(),
            forall|j: int| 0 <= j < files@.len() ==> views(#[trigger] files@[j]@) == fs@[j],
            i <= files@.len(),
            views(names@) == dir_names(fs@, views(cur@), i as int),
            idx@.len() == level_files(fs@, views(cur@), i as int).len(),
            forall|k: int| 0 <= k < idx@.len() ==> idx@[k] as int == #[trigger] level_files(fs@, views(cur@), i as int)[k],
        decreases files@.len() - i,
    {
        let ghost c = fs@[i as int];
        match below_exec(&files[i], cur) {
            Some(start) => {
                let ghost rel = below(c, views(cur@))->0;
                let n = files[i].len() - start;
                if n == 1 {
                    idx.push(i);
                } else if n > 1 {
                    assert(rel[0] == views(files@[i as int]@)[start as int]);
                    insert_sorted(&mut names, &files[i][start]);
                }
            },
            None => {},
        }
        i += 1;
    }
    (names, idx)
}

/// Whether some open directory has the components `d`.
fn expanded_has(expanded: &Vec<Vec<Vec<char>>>, d: &Vec<Vec<char>>, es: Ghost<Seq<Seq<Seq<char>>>>) -> (r: bool)
    requires
        es@.len() == expanded@.len(),
        forall|i: int| 0 <= i < expanded@.len() ==> views(#[trigger] expanded@[i]@) == es@[i],
    ensures
        r == is_expanded(es@, views(d@)),
{
    let mut i: usize = 0;
    while i < expanded.len()
        invariant
            es@.len() == expanded@.len(),
            forall|j: int| 0 <= j < expanded@.len() ==> views(#[trigger] expanded@[j]@) == es@[j],
            i <= expanded@.len(),
            forall|j: int| 0 <= j < i ==> es@[j] != views(d@),
        decreases expanded@.len() - i,
    {
        if comps_eq(&expanded[i], d) {
            assert(es@[i as int] == views(d@));
            return true;
        }
        i += 1;
    }
    false
}

/// Appends the rows of the level `cur`.
fn push_level(
    paths: &Vec<String>,
    files: &Vec<Vec<Vec<char>>>,
    expanded: &Vec<Vec<Vec<char>>>,
    es: Ghost<Seq<Seq<Seq<char>>>>,
    cur: &Vec<Vec<char>>,
    depth: usize,
    fuel: usize,
    out: &mut Vec<TreeRow>,
)
    requires
        files@.len() == paths@.len(),
        forall|i: int| 0 <= i < files@.len() ==> views(#[trigger] files@[i]@) == comps_of_all(paths@)[i],
        es@.len() == expanded@.len(),
        forall|i: int| 0 <= i < expanded@.len() ==> views(#[trigger] expanded@[i]@) == es@[i],
        depth + fuel <= usize::MAX,
    ensures
        row_views(final(out)@) == row_views(old(out)@) + level_rows(paths@, es@, views(cur@), depth as nat, fuel as nat),
    decreases fuel, 0nat,
{
    if fuel == 0 {
        assert(row_views(out@) =~= row_views(out@) + Seq::<RowView>::empty());
        return;
    }
    let ghost fs = comps_of_all(paths@);
    let ghost start = row_views(out@);
    let (names, idx) = level_of(files, cur, Ghost(fs));
    let ghost all_names = views(names@);
    let mut i: usize = 0;
    assert(all_names.take(0) =~= Seq::<Seq<char>>::empty());
    while i < names.len()
        invariant
            files@.len() == paths@.len(),
            forall|j: int| 0 <= j < files@.len() ==> views(#[trigger] files@[j]@) == comps_of_all(paths@)[j],
            es@.len() == expanded@.len(),
            forall|j: int| 0 <= j < expanded@.len() ==> views(#[trigger] expanded@[j]@) == es@[j],
            depth + fuel <= usize::MAX,
            fuel > 0,
            all_names == views(names@),
            i <= names@.len(),
            row_views(out@) == start + dir_rows(paths@, es@, views(cur@), depth as nat, (fuel - 1) as nat, all_names.take(i as int)),
        decreases names@.len() - i,
    {
        let mut d = to_vec_comps(cur);
        d.push(to_vec(&names[i]));
        let ghost dv = views(cur@).push(all_names[i as int]);
        assert(views(d@) =~= dv);
        let open = expanded_has(expanded, &d, es);
        let path = string_from_chars(&comps_to_chars(&d, 0));
        assert(views(d@).skip(0) =~= views(d@));
        let name = if is_normal_exec(&names[i]) { string_from_chars(&names[i]) } else { String::new() };
        let ghost before = row_views(out@);
        assert(before.len() == out@.len());
        out.push(TreeRow::Dir { path, name, depth, expanded: open });
        assert(row_views(out@) =~= before + seq![RowView::Dir {
            path: comps_string(dv),
            name: dir_label(all_names[i as int]),
            depth: depth as nat,
            expanded: is_expanded(es@, dv),
        }]);
        let ghost after_head = row_views(out@);
        if open {
            push_level(paths, files, expanded, es, &d, depth + 1, fuel - 1, out);
        }
        proof {
            let one = seq![all_names[i as int]];
            assert(all_names.take(i + 1) =~= all_names.take(i as int) + one);
            lemma_dir_rows_concat(paths@, es@, views(cur@), depth as nat, (fuel - 1) as nat, all_names.take(i as int), one);
            assert(one.drop_first() =~= Seq::<Seq<char>>::empty());
            let tail = dir_rows(paths@, es@, views(cur@), depth as nat, (fuel - 1) as nat, one.drop_first());
            assert(tail =~= Seq::<RowView>::empty());
        }
        i += 1;
        assert(row_views(out@) =~= start + dir_rows(paths@, es@, views(cur@), depth as nat, (fuel - 1) as nat, all_names.take(i as int)));
    }
    assert(all_names.take(i as int) =~= all_names);
    proof {
        lemma_level_files_bounds(fs, views(cur@), fs.len() as int);
    }
    let ghost mid = row_views(out@);
    let ghost lf = level_files(fs, views(cur@), fs.len() as int);
    let mut k: usize = 0;
    while k < idx.len()
        invariant
            files@.len() == paths@.len(),
            idx@.len() == lf.len(),
            forall|j: int| 0 <= j < idx@.len() ==> idx@[j] as int == #[trigger] lf[j],
            forall|j: int| 0 <= j < lf.len() ==> 0 <= #[trigger] lf[j] < paths@.len(),
            k <= idx@.len(),
            row_views(out@) == mid + file_rows(paths@, lf.take(k as int), depth as nat),
        decreases idx@.len() - k,
    {
        let j = idx[k];
        assert(j as int == lf[k as int]);
        let name = match file_name(&chars_of(paths[j].as_str())) {
            Some(n) => string_from_chars(&n),
            None => String::new(),
        };
        let ghost before = row_views(out@);
        assert(before.len() == out@.len());
        let ghost prev_out = out@;
        out.push(TreeRow::File { index: j, name, depth });
        k += 1;
        proof {
            let want = mid + file_rows(paths@, lf.take(k as int), depth as nat);
            let had = mid + file_rows(paths@, lf.take(k - 1), depth as nat);
            assert(before == had);
            assert forall|t: int| 0 <= t < out@.len() implies #[trigger] row_views(out@)[t] == want[t] by {
                if t < prev_out.len() {
                    assert(row_views(out@)[t] == out@[t]@);
                    assert(out@[t] == prev_out[t]);
                    assert(before[t] == prev_out[t]@);
                    if t >= mid.len() {
                        assert(lf.take(k as int)[t - mid.len()] == lf.take(k - 1)[t - mid.len()]);
                    }
                }
            }
        }
        assert(row_views(out@) =~= mid + file_rows(paths@, lf.take(k as int), depth as nat));
    }
    assert(lf.take(k as int) =~= lf);
    assert(row_views(out@) =~= start + level_rows(paths@, es@, views(cur@), depth as nat, fuel as nat));
}

/// The most components any of the paths has.
fn max_comps_exec(files: &Vec<Vec<Vec<char>>>, fs: Ghost<Seq<Seq<Seq<char>>>>) -> (m: usize)
    requires
        fs@.len() == files@.len(),
        forall|i: int| 0 <= i < files@.len() ==> views(#[trigger] files@[i]@) == fs@[i],
    ensures
        m == max_comps(fs@, fs@.len() as int),
{
    let mut m: usize = 0;
    let mut i: usize = 0;
    while i < files.len()
        invariant
            fs@.len() == files@.len(),
            forall|j: int| 0 <= j < files@.len() ==> views(#[trigger] files@[j]@) == fs@[j],
            i <= files@.len(),
            m == max_comps(fs@, i as int),
        decreases files@.len() - i,
    {
        assert(views(files@[i as int]@).len() == files@[i as int]@.len());
        if files[i].len() > m {
            m = files[i].len();
        }
        i += 1;
    }
    m
}

/// The rows of a file list shown as a tree, with the directories at
/// `expanded_dirs` open.
pub fn tree_rows(paths: &Vec<String>, expanded_dirs: &Vec<String>) -> (rows: Vec<TreeRow>)
    ensures
        row_views(rows@) == tree_rows_of(paths@, expanded_dirs@),
{
    let files = comps_list(paths);
    let expanded = comps_list(expanded_dirs);
    let m = max_comps_exec(&files, Ghost(comps_of_all(paths@)));
    let fuel = if m < usize::MAX { m + 1 } else { m };
    let mut out: Vec<TreeRow> = Vec::new();
    let top: Vec<Vec<char>> = Vec::new();
    assert(views(top@) =~= Seq::<Seq<char>>::empty());
    push_level(paths, &files, &expanded, Ghost(comps_of_all(expanded_dirs@)), &top, 0, fuel, &mut out);
    assert(row_views(out@) =~= tree_rows_of(paths@, expanded_dirs@));
    out
}

/// A copy of a list of components.
fn to_vec_comps(c: &Vec<Vec<char>>) -> (r: Vec<Vec<char>>)
    ensures
        views(r@) == views(c@),
{
    let mut r: Vec<Vec<char>> = Vec::new();
    let mut i: usize = 0;
    while i < c.len()
        invariant
            i <= c@.len(),
            views(r@) == views(c@).take(i as int),
        decreases c@.len() - i,
    {
        let ghost prev = r@;
        assert(views(prev).len() == prev.len());
        r.push(to_vec(&c[i]));
        i += 1;
        assert forall|j: int| 0 <= j < i implies #[trigger] views(r@)[j] == views(c@)[j] by {
            if j < i - 1 {
                assert(views(prev)[j] == views(c@).take(i - 1)[j]);
            }
        }
        assert(views(r@) =~= views(c@).take(i as int));
    }
    assert(views(c@).take(i as int) =~= views(c@));
    r
}

/// Whether a component names a file or directory.
fn is_normal_exec(c: &[char]) -> (r: bool)
    ensures
        r == is_normal(c@),
{
    rank(c) == 3
}

} // verus!
