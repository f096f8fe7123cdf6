//! Line diffs of two texts, numbered, counted, and laid out side by side.
//!
//! The line-level comparison itself is `similar`'s; this module numbers its
//! changes, counts them, and pairs deletions with insertions for a two-column
//! view.

use vstd::prelude::*;

verus! {

/// The kind of a diff line.
#[derive(Debug, Clone, Copy, PartialEq, Eq, Structural)]
pub enum DiffLineType {
    Equal,
    Insert,
    Delete,
}

/// The changes `similar` reports for a line diff of `old` and `new`, in
/// order: each with its kind and its line's text (newline included).
pub uninterp spec fn line_changes(old: Seq<char>, new: Seq<char>) -> Seq<(DiffLineType, Seq<char>)>;

/// The views of a list of changes.
pub open spec fn change_views(v: Seq<(DiffLineType, String)>) -> Seq<(DiffLineType, Seq<char>)> {
    Seq::new(v.len(), |i: int| (v[i].0, v[i].1@))
}

/// The text that the changes' lines of every kind but `skip` make, in order:
/// skipping insertions gives the old text, skipping deletions the new one.
pub open spec fn side_text(cs: Seq<(DiffLineType, Seq<char>)>, skip: DiffLineType) -> Seq<char>
    decreases cs.len(),
{
    if cs.len() == 0 {
        Seq::empty()
    } else {
        side_text(cs.drop_last(), skip) + if cs.last().0 == skip { Seq::<char>::empty() } else { cs.last().1 }
    }
}

/// `similar`'s `TextDiff::from_lines(old, new).iter_all_changes()`, each
/// change as its kind and its text. similar splits each text into lines
/// (newlines kept), diffs them exactly (no deadline is set) and reports every
/// line of both texts in order: the equal and deleted lines are the old
/// text's lines, the equal and inserted ones the new text's.
#[verifier::external_body]
fn similar_line_changes(old_text: &str, new_text: &str) -> (r: Vec<(DiffLineType, String)>)
    ensures
        change_views(r@) == line_changes(old_text@, new_text@),
        side_text(change_views(r@), DiffLineType::Insert) == old_text@,
        side_text(change_views(r@), DiffLineType::Delete) == new_text@,
{
    similar::TextDiff::from_lines(old_text, new_text)
        .iter_all_changes()
        .map(|c| {
            let kind = match c.tag() {
                similar::ChangeTag::Equal => DiffLineType::Equal,
                similar::ChangeTag::Delete => DiffLineType::Delete,
                similar::ChangeTag::Insert => DiffLineType::Insert,
            };
            (kind, c.value().to_string())
        })
        .collect()
}

/// One line of a diff.
#[derive(Debug, Clone)]
pub struct DiffLine {
    pub line_type: DiffLineType,
    pub old_line_num: Option<usize>,
    pub new_line_num: Option<usize>,
    pub content: String,
}

/// The view of a diff line.
pub struct LineView {
    pub kind: DiffLineType,
    pub old_num: Option<nat>,
    pub new_num: Option<nat>,
    pub content: Seq<char>,
}

impl View for DiffLine {
    type V = LineView;

    open spec fn view(&self) -> LineView {
        LineView {
            kind: self.line_type,
            old_num: match self.old_line_num {
                Some(n) => Some(n as nat),
                None => None,
            },
            new_num: match self.new_line_num {
                Some(n) => Some(n as nat),
                None => None,
            },
            content: self.content@,
        }
    }
}

/// The views of a list of diff lines.
pub open spec fn line_views(v: Seq<DiffLine>) -> Seq<LineView> {
    Seq::new(v.len(), |i: int| v[i]@)
}

/// Counts of a diff's lines.
#[derive(Debug, Clone, Copy, PartialEq, Eq, Structural)]
pub struct DiffStats {
    pub additions: usize,
    pub deletions: usize,
    pub unchanged: usize,
}

impl Default for DiffStats {
    fn default() -> (s: DiffStats)
        ensures
            s.additions == 0 && s.deletions == 0 && s.unchanged == 0,
    {
        DiffStats { additions: 0, deletions: 0, unchanged: 0 }
    }
}

/// A diff: its numbered lines and their counts.
#[derive(Debug, Clone)]
pub struct DiffResult {
    pub lines: Vec<DiffLine>,
    pub stats: DiffStats,
}

/// How many of the changes are of kind `k`.
pub open spec fn count_kind(cs: Seq<(DiffLineType, Seq<char>)>, k: DiffLineType) -> nat
    decreases cs.len(),
{
    if cs.len() == 0 {
        0
    } else {
        count_kind(cs.drop_last(), k) + if cs.last().0 == k { 1nat } else { 0nat }
    }
}

/// How many of the changes are lines of the old text.
pub open spec fn old_count(cs: Seq<(DiffLineType, Seq<char>)>) -> nat {
    count_kind(cs, DiffLineType::Equal) + count_kind(cs, DiffLineType::Delete)
}

/// How many of the changes are lines of the new text.
pub open spec fn new_count(cs: Seq<(DiffLineType, Seq<char>)>) -> nat {
    count_kind(cs, DiffLineType::Equal) + count_kind(cs, DiffLineType::Insert)
}

/// The numbered line for change `i`: an equal line has both line numbers, a
/// deleted line its old one, an inserted line its new one, counting from 1.
pub open spec fn numbered_line(cs: Seq<(DiffLineType, Seq<char>)>, i: int) -> LineView {
    let before = cs.take(i);
    let (kind, content) = cs[i];
    LineView {
        kind,
        old_num: if kind == DiffLineType::Insert { None } else { Some(old_count(before) + 1) },
        new_num: if kind == DiffLineType::Delete { None } else { Some(new_count(before) + 1) },
        content,
    }
}

/// The numbered lines of a list of changes.
pub open spec fn numbered_lines(cs: Seq<(DiffLineType, Seq<char>)>) -> Seq<LineView> {
    Seq::new(cs.len(), |i: int| numbered_line(cs, i))
}

/// The diff made of the changes `cs`: its numbered lines, and the number of
/// insertions, deletions and equal lines.
pub open spec fn diff_of_changes(cs: Seq<(DiffLineType, Seq<char>)>, r: DiffResult) -> bool {
    &&& line_views(r.lines@) == numbered_lines(cs)
    &&& r.stats.additions == count_kind(cs, DiffLineType::Insert)
    &&& r.stats.deletions == count_kind(cs, DiffLineType::Delete)
    &&& r.stats.unchanged == count_kind(cs, DiffLineType::Equal)
}

/// Counts of kinds grow by one change at a time.
proof fn lemma_count_step(cs: Seq<(DiffLineType, Seq<char>)>, i: int)
    requires
        0 <= i < cs.len(),
    ensures
        cs.take(i + 1).drop_last() == cs.take(i),
        cs.take(i + 1).last() == cs[i],
        count_kind(cs.take(i), DiffLineType::Equal) + count_kind(cs.take(i), DiffLineType::Delete)
            + count_kind(cs.take(i), DiffLineType::Insert) == i,
{
    assert(cs.take(i + 1).drop_last() =~= cs.take(i));
    lemma_count_total(cs.take(i));
}

/// Every change has one of the three kinds.
proof fn lemma_count_total(cs: Seq<(DiffLineType, Seq<char>)>)
    ensures
        count_kind(cs, DiffLineType::Equal) + count_kind(cs, DiffLineType::Delete)
            + count_kind(cs, DiffLineType::Insert) == cs.len(),
    decreases cs.len(),
{
    if cs.len() > 0 {
        lemma_count_total(cs.drop_last());
    }
}

/// The diff of a list of changes: numbers the lines and counts the kinds.
pub fn diff_from_changes(changes: Vec<(DiffLineType, String)>) -> (r: DiffResult)
    ensures
        diff_of_changes(change_views(changes@), r),
{
    let ghost cs = change_views(changes@);
    let mut lines: Vec<DiffLine> = Vec::new();
    let mut stats = DiffStats::default();
    let mut i: usize = 0;
    while i < changes.len()
        invariant
            cs == change_views(changes@),
            i <= changes@.len(),
            line_views(lines@) == numbered_lines(cs.take(i as int)),
            forall|j: int| 0 <= j < i ==> #[trigger] numbered_line(cs.take(i as int), j) == numbered_line(cs, j),
            stats.additions == count_kind(cs.take(i as int), DiffLineType::Insert),
            stats.deletions == count_kind(cs.take(i as int), DiffLineType::Delete),
            stats.unchanged == count_kind(cs.take(i as int), DiffLineType::Equal),
        decreases changes@.len() - i,
    {
        proof {
            lemma_count_step(cs, i as int);
        }
        let ghost before = cs.take(i as int);
        let old_num = stats.unchanged + stats.deletions + 1;
        let new_num = stats.unchanged + stats.additions + 1;
        let kind = changes[i].0;
        let content = changes[i].1.clone();
        let line = match kind {
            DiffLineType::Equal => {
                stats.unchanged += 1;
                DiffLine { line_type: kind, old_line_num: Some(old_num), new_line_num: Some(new_num), content }
            },
            DiffLineType::Delete => {
                stats.deletions += 1;
                DiffLine { line_type: kind, old_line_num: Some(old_num), new_line_num: None, content }
            },
            DiffLineType::Insert => {
                stats.additions += 1;
                DiffLine { line_type: kind, old_line_num: None, new_line_num: Some(new_num), content }
            },
        };
        let ghost prev = lines@;
        assert(line_views(prev).len() == prev.len());
        lines.push(line);
        i += 1;
        proof {
            let now = cs.take(i as int);
            assert(now.drop_last() == before);
            assert forall|j: int| 0 <= j < i implies #[trigger] numbered_line(now, j) == numbered_line(cs, j) by {
                assert(now.take(j) =~= cs.take(j));
            }
            assert forall|j: int| 0 <= j < i - 1 implies #[trigger] numbered_line(before, j) == numbered_line(now, j) by {
                assert(now.take(j) =~= before.take(j));
            }
            assert(before.take(i - 1) =~= before);
            assert(line_views(lines@)[i - 1] == numbered_line(now, i - 1));
            assert forall|j: int| 0 <= j < i implies line_views(lines@)[j] == numbered_lines(now)[j] by {
                if j < i - 1 {
                    assert(lines@[j] == prev[j]);
                    assert(line_views(prev)[j] == numbered_lines(before)[j]);
                }
            }
            assert(line_views(lines@) =~= numbered_lines(now));
        }
    }
    proof {
        assert(cs.take(i as int) =~= cs);
    }
    DiffResult { lines, stats }
}

/// The text that a diff's lines of every kind but `skip` make, in order.
pub open spec fn lines_text(ls: Seq<LineView>, skip: DiffLineType) -> Seq<char>
    decreases ls.len(),
{
    if ls.len() == 0 {
        Seq::empty()
    } else {
        lines_text(ls.drop_last(), skip) + if ls.last().kind == skip { Seq::<char>::empty() } else { ls.last().content }
    }
}

/// Numbering changes keeps their kinds and texts, so the numbered lines make
/// the same texts as the changes.
pub proof fn lemma_numbered_text(cs: Seq<(DiffLineType, Seq<char>)>, skip: DiffLineType)
    ensures
        lines_text(numbered_lines(cs), skip) == side_text(cs, skip),
    decreases cs.len(),
{
    if cs.len() > 0 {
        let d = cs.drop_last();
        lemma_numbered_text(d, skip);
        assert forall|j: int| 0 <= j < d.len() implies #[trigger] numbered_lines(cs).drop_last()[j]
            == numbered_lines(d)[j] by {
            assert(cs.take(j) =~= d.take(j));
        }
        assert(numbered_lines(cs).drop_last() =~= numbered_lines(d));
    }
}

/// The line diff of two texts. Its equal and deleted lines, in order, make
/// the old text, and its equal and inserted lines the new text.
pub fn calculate_diff(old_text: &str, new_text: &str) -> (r: DiffResult)
    ensures
        diff_of_changes(line_changes(old_text@, new_text@), r),
        lines_text(line_views(r.lines@), DiffLineType::Insert) == old_text@,
        lines_text(line_views(r.lines@), DiffLineType::Delete) == new_text@,
{
    let changes = similar_line_changes(old_text, new_text);
    let r = diff_from_changes(changes);
    proof {
        lemma_numbered_text(line_changes(old_text@, new_text@), DiffLineType::Insert);
        lemma_numbered_text(line_changes(old_text@, new_text@), DiffLineType::Delete);
    }
    r
}

/// The kinds of a diff's lines add up to its length.
pub proof fn lemma_stats_add_up(cs: Seq<(DiffLineType, Seq<char>)>, r: DiffResult)
    requires
        diff_of_changes(cs, r),
    ensures
        r.stats.additions + r.stats.deletions + r.stats.unchanged == r.lines@.len(),
{
    lemma_count_total(cs);
    assert(line_views(r.lines@).len() == r.lines@.len());
}

// ---------------------------------------------------------------------------
// Side by side
// ---------------------------------------------------------------------------

/// One row of a two-column diff: an old line on the left, a new line on the
/// right, either of which may be missing.
#[derive(Debug, Clone)]
pub struct SideBySideLine {
    pub left_line_num: Option<usize>,
    pub left_content: Option<String>,
    pub left_type: DiffLineType,
    pub right_line_num: Option<usize>,
    pub right_content: Option<String>,
    pub right_type: DiffLineType,
}

/// The view of a row.
pub struct RowView {
    pub left_num: Option<nat>,
    pub left: Option<Seq<char>>,
    pub left_type: DiffLineType,
    pub right_num: Option<nat>,
    pub right: Option<Seq<char>>,
    pub right_type: DiffLineType,
}

/// The view of an optional line number.
pub open spec fn num_view(n: Option<usize>) -> Option<nat> {
    match n {
        Some(x) => Some(x as nat),
        None => None,
    }
}

/// The view of an optional text.
pub open spec fn text_view(t: Option<String>) -> Option<Seq<char>> {
    match t {
        Some(x) => Some(x@),
        None => None,
    }
}

impl View for SideBySideLine {
    type V = RowView;

    open spec fn view(&self) -> RowView {
        RowView {
            left_num: num_view(self.left_line_num),
            left: text_view(self.left_content),
            left_type: self.left_type,
            right_num: num_view(self.right_line_num),
            right: text_view(self.right_content),
            right_type: self.right_type,
        }
    }
}

/// The views of a list of rows.
pub open spec fn row_views(v: Seq<SideBySideLine>) -> Seq<RowView> {
    Seq::new(v.len(), |i: int| v[i]@)
}

/// The row of an unchanged line: the same text on both sides.
pub open spec fn equal_row(l: LineView) -> RowView {
    RowView {
        left_num: l.old_num,
        left: Some(l.content),
        left_type: DiffLineType::Equal,
        right_num: l.new_num,
        right: Some(l.content),
        right_type: DiffLineType::Equal,
    }
}

/// The row of an inserted line with nothing facing it.
pub open spec fn insert_row(l: LineView) -> RowView {
    RowView {
        left_num: None,
        left: None,
        left_type: DiffLineType::Equal,
        right_num: l.new_num,
        right: Some(l.content),
        right_type: DiffLineType::Insert,
    }
}

/// The row pairing a deleted line (left) with an inserted one (right),
/// either of which may be missing.
pub open spec fn pair_row(left: Option<LineView>, right: Option<LineView>) -> RowView {
    RowView {
        left_num: match left {
            Some(l) => l.old_num,
            None => None,
        },
        left: match left {
            Some(l) => Some(l.content),
            None => None,
        },
        left_type: if left is Some { DiffLineType::Delete } else { DiffLineType::Equal },
        right_num: match right {
            Some(r) => r.new_num,
            None => None,
        },
        right: match right {
            Some(r) => Some(r.content),
            None => None,
        },
        right_type: if right is Some { DiffLineType::Insert } else { DiffLineType::Equal },
    }
}

/// The end of the run of lines of kind `k` starting at `i`.
pub open spec fn run_end(ls: Seq<LineView>, i: int, k: DiffLineType) -> int
    decreases ls.len() - i,
{
    if 0 <= i < ls.len() && ls[i].kind == k {
        run_end(ls, i + 1, k)
    } else {
        i
    }
}

/// A run ends at or after its start, within the lines, and after a line of
/// its kind.
pub proof fn lemma_run_end(ls: Seq<LineView>, i: int, k: DiffLineType)
    requires
        0 <= i <= ls.len(),
    ensures
        i <= run_end(ls, i, k) <= ls.len(),
        i < ls.len() && ls[i].kind == k ==> run_end(ls, i, k) > i,
        forall|j: int| i <= j < run_end(ls, i, k) ==> #[trigger] ls[j].kind == k,
        run_end(ls, i, k) < ls.len() ==> ls[run_end(ls, i, k)].kind != k,
    decreases ls.len() - i,
{
    if i < ls.len() && ls[i].kind == k {
        lemma_run_end(ls, i + 1, k);
    }
}

/// The rows pairing the deletions `i..d` with the insertions `d..e`, one
/// row per position of the longer run.
pub open spec fn paired_rows(ls: Seq<LineView>, i: int, d: int, e: int) -> Seq<RowView> {
    let nd = d - i;
    let ni = e - d;
    Seq::new(
        (if nd > ni { nd } else { ni }) as nat,
        |j: int| pair_row(if j < nd { Some(ls[i + j]) } else { None }, if j < ni { Some(ls[d + j]) } else { None }),
    )
}

/// The rows for the lines from `i` on: an unchanged line faces itself, a run
/// of deletions is paired with the run of insertions that follows it, and an
/// insertion with no deletion before it stands alone on the right.
pub open spec fn rows_from(ls: Seq<LineView>, i: int) -> Seq<RowView>
    decreases ls.len() - i,
{
    if i < 0 || i >= ls.len() {
        Seq::empty()
    } else if ls[i].kind == DiffLineType::Equal {
        seq![equal_row(ls[i])] + rows_from(ls, i + 1)
    } else if ls[i].kind == DiffLineType::Insert {
        seq![insert_row(ls[i])] + rows_from(ls, i + 1)
    } else {
        let d = run_end(ls, i, DiffLineType::Delete);
        let e = run_end(ls, d, DiffLineType::Insert);
        proof {
            lemma_run_end(ls, i, DiffLineType::Delete);
            lemma_run_end(ls, d, DiffLineType::Insert);
        }
        paired_rows(ls, i, d, e) + rows_from(ls, e)
    }
}

/// The texts in the left column with their line numbers, top to bottom,
/// gaps skipped.
pub open spec fn left_column(rows: Seq<RowView>) -> Seq<(Option<nat>, Seq<char>)>
    decreases rows.len(),
{
    if rows.len() == 0 {
        Seq::empty()
    } else {
        left_column(rows.drop_last()) + match rows.last().left {
            Some(t) => seq![(rows.last().left_num, t)],
            None => Seq::empty(),
        }
    }
}

/// The texts in the right column with their line numbers, top to bottom,
/// gaps skipped.
pub open spec fn right_column(rows: Seq<RowView>) -> Seq<(Option<nat>, Seq<char>)>
    decreases rows.len(),
{
    if rows.len() == 0 {
        Seq::empty()
    } else {
        right_column(rows.drop_last()) + match rows.last().right {
            Some(t) => seq![(rows.last().right_num, t)],
            None => Seq::empty(),
        }
    }
}

/// The old text's lines from line `i` of the diff on, each with its old
/// line number: all but insertions.
pub open spec fn old_side(ls: Seq<LineView>, i: int) -> Seq<(Option<nat>, Seq<char>)>
    decreases ls.len() - i,
{
    if i < 0 || i >= ls.len() {
        Seq::empty()
    } else if ls[i].kind == DiffLineType::Insert {
        old_side(ls, i + 1)
    } else {
        seq![(ls[i].old_num, ls[i].content)] + old_side(ls, i + 1)
    }
}

/// The new text's lines from line `i` of the diff on, each with its new
/// line number: all but deletions.
pub open spec fn new_side(ls: Seq<LineView>, i: int) -> Seq<(Option<nat>, Seq<char>)>
    decreases ls.len() - i,
{
    if i < 0 || i >= ls.len() {
        Seq::empty()
    } else if ls[i].kind == DiffLineType::Delete {
        new_side(ls, i + 1)
    } else {
        seq![(ls[i].new_num, ls[i].content)] + new_side(ls, i + 1)
    }
}

/// The columns of stacked rows are the columns of each part, stacked.
proof fn lemma_columns_concat(a: Seq<RowView>, b: Seq<RowView>)
    ensures
        left_column(a + b) == left_column(a) + left_column(b),
        right_column(a + b) == right_column(a) + right_column(b),
    decreases b.len(),
{
    if b.len() == 0 {
        assert(a + b =~= a);
        assert(left_column(a) + left_column(b) =~= left_column(a));
        assert(right_column(a) + right_column(b) =~= right_column(a));
    } else {
        assert((a + b).drop_last() =~= a + b.drop_last());
        assert((a + b).last() == b.last());
        lemma_columns_concat(a, b.drop_last());
        let lt = match b.last().left { Some(t) => seq![(b.last().left_num, t)], None => Seq::<(Option<nat>, Seq<char>)>::empty() };
        let rt = match b.last().right { Some(t) => seq![(b.last().right_num, t)], None => Seq::<(Option<nat>, Seq<char>)>::empty() };
        assert(left_column(a) + left_column(b.drop_last()) + lt =~= left_column(a) + (left_column(b.drop_last()) + lt));
        assert(right_column(a) + right_column(b.drop_last()) + rt =~= right_column(a) + (right_column(b.drop_last()) + rt));
    }
}

/// The lines `i..d`, each with its old line number.
pub open spec fn old_entries(ls: Seq<LineView>, i: int, d: int) -> Seq<(Option<nat>, Seq<char>)> {
    Seq::new((d - i) as nat, |j: int| (ls[i + j].old_num, ls[i + j].content))
}

/// The lines `i..d`, each with its new line number.
pub open spec fn new_entries(ls: Seq<LineView>, i: int, d: int) -> Seq<(Option<nat>, Seq<char>)> {
    Seq::new((d - i) as nat, |j: int| (ls[i + j].new_num, ls[i + j].content))
}

/// The first `k` paired rows show the first deletions on the left and the
/// first insertions on the right.
proof fn lemma_paired_prefix(ls: Seq<LineView>, i: int, d: int, e: int, k: int)
    requires
        0 <= i <= d <= e <= ls.len(),
        0 <= k <= paired_rows(ls, i, d, e).len(),
    ensures
        left_column(paired_rows(ls, i, d, e).take(k)) == old_entries(ls, i, if k < d - i { i + k } else { d }),
        right_column(paired_rows(ls, i, d, e).take(k)) == new_entries(ls, d, if k < e - d { d + k } else { e }),
    decreases k,
{
    let rows = paired_rows(ls, i, d, e);
    if k == 0 {
        assert(rows.take(0) =~= Seq::<RowView>::empty());
        assert(old_entries(ls, i, i) =~= Seq::<(Option<nat>, Seq<char>)>::empty());
        assert(new_entries(ls, d, d) =~= Seq::<(Option<nat>, Seq<char>)>::empty());
    } else {
        lemma_paired_prefix(ls, i, d, e, k - 1);
        assert(rows.take(k).drop_last() =~= rows.take(k - 1));
        assert(rows.take(k).last() == rows[k - 1]);
        let l_end = if k - 1 < d - i { i + k - 1 } else { d };
        let r_end = if k - 1 < e - d { d + k - 1 } else { e };
        if k - 1 < d - i {
            assert(old_entries(ls, i, l_end) + seq![(ls[i + k - 1].old_num, ls[i + k - 1].content)] =~= old_entries(ls, i, i + k));
        } else {
            assert(old_entries(ls, i, l_end) + Seq::<(Option<nat>, Seq<char>)>::empty() =~= old_entries(ls, i, d));
        }
        if k - 1 < e - d {
            assert(new_entries(ls, d, r_end) + seq![(ls[d + k - 1].new_num, ls[d + k - 1].content)] =~= new_entries(ls, d, d + k));
        } else {
            assert(new_entries(ls, d, r_end) + Seq::<(Option<nat>, Seq<char>)>::empty() =~= new_entries(ls, d, e));
        }
    }
}

/// The old side over a run of deletions then a run of insertions: the
/// deleted lines, then what follows the insertions.
proof fn lemma_sides_over_runs(ls: Seq<LineView>, i: int, d: int, e: int, j: int)
    requires
        0 <= i <= j <= d <= e <= ls.len(),
        forall|k: int| i <= k < d ==> #[trigger] ls[k].kind == DiffLineType::Delete,
        forall|k: int| d <= k < e ==> #[trigger] ls[k].kind == DiffLineType::Insert,
    ensures
        old_side(ls, j) == old_entries(ls, j, d) + old_side(ls, e),
        new_side(ls, j) == new_side(ls, d),
    decreases e - j,
{
    if j < d {
        lemma_sides_over_runs(ls, i, d, e, j + 1);
        assert(seq![(ls[j].old_num, ls[j].content)] + (old_entries(ls, j + 1, d) + old_side(ls, e))
            =~= old_entries(ls, j, d) + old_side(ls, e));
    } else {
        lemma_inserts_skipped(ls, d, e, j);
        assert(old_entries(ls, j, d) =~= Seq::<(Option<nat>, Seq<char>)>::empty());
        assert(Seq::<(Option<nat>, Seq<char>)>::empty() + old_side(ls, e) =~= old_side(ls, e));
    }
}

/// Insertions do not show on the old side; the new side over them is their
/// text, then what follows.
proof fn lemma_inserts_skipped(ls: Seq<LineView>, d: int, e: int, j: int)
    requires
        0 <= d <= j <= e <= ls.len(),
        forall|k: int| d <= k < e ==> #[trigger] ls[k].kind == DiffLineType::Insert,
    ensures
        old_side(ls, j) == old_side(ls, e),
        new_side(ls, j) == new_entries(ls, j, e) + new_side(ls, e),
    decreases e - j,
{
    if j < e {
        lemma_inserts_skipped(ls, d, e, j + 1);
        assert(seq![(ls[j].new_num, ls[j].content)] + (new_entries(ls, j + 1, e) + new_side(ls, e))
            =~= new_entries(ls, j, e) + new_side(ls, e));
    } else {
        assert(new_entries(ls, j, e) =~= Seq::<(Option<nat>, Seq<char>)>::empty());
        assert(Seq::<(Option<nat>, Seq<char>)>::empty() + new_side(ls, e) =~= new_side(ls, e));
    }
}

/// Read down its left column, the two-column layout of a diff gives the old
/// text's lines in order, each beside its old line number; read down its
/// right column, the new text's lines, each beside its new line number.
pub proof fn lemma_columns_are_sides(ls: Seq<LineView>, i: int)
    requires
        0 <= i <= ls.len(),
    ensures
        left_column(rows_from(ls, i)) == old_side(ls, i),
        right_column(rows_from(ls, i)) == new_side(ls, i),
    decreases ls.len() - i,
{
    if i < ls.len() {
        if ls[i].kind == DiffLineType::Equal || ls[i].kind == DiffLineType::Insert {
            lemma_columns_are_sides(ls, i + 1);
            let head = if ls[i].kind == DiffLineType::Equal { equal_row(ls[i]) } else { insert_row(ls[i]) };
            assert(rows_from(ls, i) == seq![head] + rows_from(ls, i + 1));
            lemma_columns_concat(seq![head], rows_from(ls, i + 1));
            assert(seq![head].drop_last() =~= Seq::<RowView>::empty());
            assert(left_column(Seq::<RowView>::empty()) =~= Seq::<(Option<nat>, Seq<char>)>::empty());
            assert(right_column(Seq::<RowView>::empty()) =~= Seq::<(Option<nat>, Seq<char>)>::empty());
            if ls[i].kind == DiffLineType::Equal {
                assert(left_column(seq![head]) =~= seq![(ls[i].old_num, ls[i].content)]);
                assert(right_column(seq![head]) =~= seq![(ls[i].new_num, ls[i].content)]);
            } else {
                assert(left_column(seq![head]) =~= Seq::<(Option<nat>, Seq<char>)>::empty());
                assert(right_column(seq![head]) =~= seq![(ls[i].new_num, ls[i].content)]);
                assert(Seq::<(Option<nat>, Seq<char>)>::empty() + old_side(ls, i + 1) =~= old_side(ls, i + 1));
            }
        } else {
            let d = run_end(ls, i, DiffLineType::Delete);
            let e = run_end(ls, d, DiffLineType::Insert);
            lemma_run_end(ls, i, DiffLineType::Delete);
            lemma_run_end(ls, d, DiffLineType::Insert);
            lemma_columns_are_sides(ls, e);
            let p = paired_rows(ls, i, d, e);
            lemma_columns_concat(p, rows_from(ls, e));
            lemma_paired_prefix(ls, i, d, e, p.len() as int);
            assert(p.take(p.len() as int) =~= p);
            lemma_sides_over_runs(ls, i, d, e, i);
            lemma_inserts_skipped(ls, d, e, d);
            assert(rows_from(ls, i) == p + rows_from(ls, e));
        }
    } else {
        assert(left_column(rows_from(ls, i)) =~= Seq::<(Option<nat>, Seq<char>)>::empty());
        assert(right_column(rows_from(ls, i)) =~= Seq::<(Option<nat>, Seq<char>)>::empty());
    }
}

/// The row of an unchanged line.
fn equal_row_of(l: &DiffLine) -> (r: SideBySideLine)
    ensures
        r@ == equal_row(l@),
{
    SideBySideLine {
        left_line_num: l.old_line_num,
        left_content: Some(l.content.clone()),
        left_type: DiffLineType::Equal,
        right_line_num: l.new_line_num,
        right_content: Some(l.content.clone()),
        right_type: DiffLineType::Equal,
    }
}

/// The row of an inserted line alone.
fn insert_row_of(l: &DiffLine) -> (r: SideBySideLine)
    ensures
        r@ == insert_row(l@),
{
    SideBySideLine {
        left_line_num: None,
        left_content: None,
        left_type: DiffLineType::Equal,
        right_line_num: l.new_line_num,
        right_content: Some(l.content.clone()),
        right_type: DiffLineType::Insert,
    }
}

/// The view of an optional line.
pub open spec fn opt_line(l: Option<&DiffLine>) -> Option<LineView> {
    match l {
        Some(x) => Some(x@),
        None => None,
    }
}

/// The row pairing two optional lines.
fn pair_row_of(left: Option<&DiffLine>, right: Option<&DiffLine>) -> (r: SideBySideLine)
    ensures
        r@ == pair_row(opt_line(left), opt_line(right)),
{
    let (left_line_num, left_content, left_type) = match left {
        Some(l) => (l.old_line_num, Some(l.content.clone()), DiffLineType::Delete),
        None => (None, None, DiffLineType::Equal),
    };
    let (right_line_num, right_content, right_type) = match right {
        Some(x) => (x.new_line_num, Some(x.content.clone()), DiffLineType::Insert),
        None => (None, None, DiffLineType::Equal),
    };
    SideBySideLine { left_line_num, left_content, left_type, right_line_num, right_content, right_type }
}

/// Lays a diff out in two columns.
pub fn to_side_by_side(diff_result: &DiffResult) -> (rows: Vec<SideBySideLine>)
    ensures
        row_views(rows@) == rows_from(line_views(diff_result.lines@), 0),
{
    let lines = &diff_result.lines;
    let ghost ls = line_views(lines@);
    let mut result: Vec<SideBySideLine> = Vec::new();
    let mut i: usize = 0;
    assert(row_views(result@) + rows_from(ls, 0) =~= rows_from(ls, 0));
    while i < lines.len()
        invariant
            ls == line_views(lines@),
            i <= lines@.len(),
            row_views(result@) + rows_from(ls, i as int) == rows_from(ls, 0),
        decreases lines@.len() - i,
    {
        let ghost before = row_views(result@);
        assert(before.len() == result@.len());
        assert(ls[i as int] == lines@[i as int]@);
        let kind = lines[i].line_type;
        if kind == DiffLineType::Equal {
            result.push(equal_row_of(&lines[i]));
            i += 1;
            assert(row_views(result@) =~= before + seq![equal_row(ls[i - 1])]);
            assert(row_views(result@) + rows_from(ls, i as int) =~= before + rows_from(ls, i - 1));
        } else if kind == DiffLineType::Insert {
            result.push(insert_row_of(&lines[i]));
            i += 1;
            assert(row_views(result@) =~= before + seq![insert_row(ls[i - 1])]);
            assert(row_views(result@) + rows_from(ls, i as int) =~= before + rows_from(ls, i - 1));
        } else {
            let start = i;
            proof {
                lemma_run_end(ls, start as int, DiffLineType::Delete);
            }
            while i < lines.len() && lines[i].line_type == DiffLineType::Delete
                invariant
                    ls == line_views(lines@),
                    start < lines@.len(),
                    start <= i <= run_end(ls, start as int, DiffLineType::Delete),
                    run_end(ls, start as int, DiffLineType::Delete) <= lines@.len(),
                    forall|j: int| start <= j < run_end(ls, start as int, DiffLineType::Delete)
                        ==> #[trigger] ls[j].kind == DiffLineType::Delete,
                    run_end(ls, start as int, DiffLineType::Delete) < ls.len()
                        ==> ls[run_end(ls, start as int, DiffLineType::Delete)].kind != DiffLineType::Delete,
                decreases lines@.len() - i,
            {
                assert(ls[i as int] == lines@[i as int]@);
                i += 1;
            }
            let d = i;
            assert(d == run_end(ls, start as int, DiffLineType::Delete)) by {
                if d < run_end(ls, start as int, DiffLineType::Delete) {
                    assert(ls[d as int] == lines@[d as int]@);
                }
            }
            proof {
                lemma_run_end(ls, d as int, DiffLineType::Insert);
            }
            while i < lines.len() && lines[i].line_type == DiffLineType::Insert
                invariant
                    ls == line_views(lines@),
                    d <= i <= run_end(ls, d as int, DiffLineType::Insert),
                    run_end(ls, d as int, DiffLineType::Insert) <= lines@.len(),
                    forall|j: int| d <= j < run_end(ls, d as int, DiffLineType::Insert)
                        ==> #[trigger] ls[j].kind == DiffLineType::Insert,
                    run_end(ls, d as int, DiffLineType::Insert) < ls.len()
                        ==> ls[run_end(ls, d as int, DiffLineType::Insert)].kind != DiffLineType::Insert,
                decreases lines@.len() - i,
            {
                assert(ls[i as int] == lines@[i as int]@);
                i += 1;
            }
            let e = i;
            assert(e == run_end(ls, d as int, DiffLineType::Insert)) by {
                if e < run_end(ls, d as int, DiffLineType::Insert) {
                    assert(ls[e as int] == lines@[e as int]@);
                    assert(ls[e as int].kind == DiffLineType::Insert);
                    assert(lines@[e as int].line_type == DiffLineType::Insert);
                }
            }
            let nd = d - start;
            let ni = e - d;
            let count = if nd > ni { nd } else { ni };
            let ghost seg = paired_rows(ls, start as int, d as int, e as int);
            let mut j: usize = 0;
            while j < count
                invariant
                    ls == line_views(lines@),
                    start < d <= e <= lines@.len(),
                    nd == d - start,
                    ni == e - d,
                    count == (if nd > ni { nd } else { ni }),
                    j <= count,
                    seg == paired_rows(ls, start as int, d as int, e as int),
                    row_views(result@) == before + seg.take(j as int),
                decreases count - j,
            {
                let left = if j < nd { Some(&lines[start + j]) } else { None };
                let right = if j < ni { Some(&lines[d + j]) } else { None };
                let ghost prev = result@;
                assert(row_views(prev).len() == prev.len());
                let row = pair_row_of(left, right);
                result.push(row);
                proof {
                    if j < nd {
                        assert(opt_line(left) == Some(ls[start + j]));
                    }
                    if j < ni {
                        assert(opt_line(right) == Some(ls[d + j]));
                    }
                    assert(row@ == seg[j as int]);
                    assert forall|t: int| 0 <= t < prev.len() + 1 implies row_views(result@)[t]
                        == (before + seg.take(j + 1))[t] by {
                        if t < prev.len() {
                            assert(result@[t] == prev[t]);
                            assert(row_views(prev)[t] == (before + seg.take(j as int))[t]);
                        }
                    }
                    assert(row_views(result@) =~= before + seg.take(j + 1));
                }
                j += 1;
            }
            proof {
                assert(seg.take(count as int) =~= seg);
                assert(rows_from(ls, start as int) == seg + rows_from(ls, e as int));
                assert(row_views(result@) + rows_from(ls, e as int) =~= before + rows_from(ls, start as int));
            }
        }
    }
    assert(rows_from(ls, i as int) =~= Seq::<RowView>::empty());
    assert(row_views(result@) =~= rows_from(ls, 0));
    result
}

} // verus!
