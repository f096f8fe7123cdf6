//! Web addresses on the terminal screen: found per line by a pattern, with
//! trailing punctuation dropped, and placed by column so that a cell can be
//! mapped back to the address under it.

use vstd::prelude::*;
use vstd::utf8::{encode_scalar, encode_utf8};
use crate::adapter::byte_len;
use crate::frame::{CellWidth, FrameCell, FrameRow};
use crate::text::{slice_chars, string_from_chars};

verus! {

/// The pattern an address matches: `http://` or `https://` and then
/// characters that are neither white space, control characters, nor
/// `<>"')]`.
pub const URL_PATTERN: &'static str = "https?://[^\\s\\x00-\\x1f\\x7f<>\"'\\)\\]]+";

/// The byte ranges of the successive matches of the regular expression
/// `pattern` in `text`, as `regex` finds them (leftmost-first, not
/// overlapping), or `None` when `pattern` does not compile.
pub uninterp spec fn regex_matches(pattern: Seq<char>, text: Seq<char>) -> Option<Seq<(usize, usize)>>;

/// `regex::Regex::new(pattern)`, then `find_iter(text)` with each match as
/// its byte range; `None` when the pattern does not compile.
#[verifier::external_body]
fn regex_find_iter(pattern: &str, text: &str) -> (r: Option<Vec<(usize, usize)>>)
    ensures
        match r {
            Some(v) => regex_matches(pattern@, text@) == Some(v@),
            None => regex_matches(pattern@, text@) is None,
        },
{
    let re = regex::Regex::new(pattern).ok()?;
    Some(re.find_iter(text).map(|m| (m.start(), m.end())).collect())
}

/// The byte ranges of the addresses in a line: the matches of
/// `URL_PATTERN`, or none should the pattern not compile.
pub open spec fn url_matches(line: Seq<char>) -> Seq<(usize, usize)> {
    match regex_matches(URL_PATTERN@, line) {
        Some(m) => m,
        None => Seq::empty(),
    }
}

/// The byte ranges of the matches of `URL_PATTERN` in each line.
fn find_url_matches(lines: &Vec<String>) -> (r: Vec<Vec<(usize, usize)>>)
    ensures
        r@.len() == lines@.len(),
        forall|i: int| 0 <= i < lines@.len() ==> (#[trigger] r@[i])@ == url_matches(lines@[i]@),
{
    let mut r: Vec<Vec<(usize, usize)>> = Vec::new();
    let mut i: usize = 0;
    while i < lines.len()
        invariant
            i <= lines@.len(),
            r@.len() == i,
            forall|k: int| 0 <= k < i ==> (#[trigger] r@[k])@ == url_matches(lines@[k]@),
        decreases lines@.len() - i,
    {
        let found = match regex_find_iter(URL_PATTERN, lines[i].as_str()) {
            Some(m) => m,
            None => Vec::new(),
        };
        r.push(found);
        i += 1;
    }
    r
}

/// The text of a screen row, one character per column: a spacer column
/// (the second half of a wide character) reads as a space.
pub open spec fn grid_text(cells: Seq<FrameCell>) -> Seq<char> {
    Seq::new(cells.len(), |i: int| if cells[i].width == CellWidth::Spacer { ' ' } else { cells[i].ch })
}

/// How many of the leading characters of `line` end within its first `b`
/// bytes.
pub open spec fn col_of(line: Seq<char>, b: int) -> nat
    decreases line.len(),
{
    if line.len() == 0 {
        0
    } else if encode_scalar(line[0] as u32).len() <= b {
        1 + col_of(line.drop_first(), b - encode_scalar(line[0] as u32).len())
    } else {
        0
    }
}

/// Punctuation that ends a sentence rather than an address.
pub open spec fn is_trailing_punct(c: char) -> bool {
    c == '.' || c == ',' || c == ';' || c == ':' || c == '!' || c == '?'
}

/// `s` without its trailing punctuation.
pub open spec fn trim_punct(s: Seq<char>) -> Seq<char>
    decreases s.len(),
{
    if s.len() > 0 && is_trailing_punct(s.last()) { trim_punct(s.drop_last()) } else { s }
}

/// Dropping punctuation does not lengthen a text.
proof fn lemma_trim_punct_len(s: Seq<char>)
    ensures
        trim_punct(s).len() <= s.len(),
    decreases s.len(),
{
    if s.len() > 0 && is_trailing_punct(s.last()) {
        lemma_trim_punct_len(s.drop_last());
    }
}

/// An address found on the screen: its text, its row, and its first and
/// last column.
#[derive(Debug, Clone)]
pub struct DetectedUrl {
    pub url: String,
    pub line: usize,
    pub start_col: usize,
    pub end_col: usize,
}

/// The view of a found address.
pub struct UrlView {
    pub url: Seq<char>,
    pub line: nat,
    pub start_col: nat,
    pub end_col: nat,
}

impl View for DetectedUrl {
    type V = UrlView;

    open spec fn view(&self) -> UrlView {
        UrlView { url: self.url@, line: self.line as nat, start_col: self.start_col as nat, end_col: self.end_col as nat }
    }
}

/// The views of some found addresses.
pub open spec fn url_views(v: Seq<DetectedUrl>) -> Seq<UrlView> {
    Seq::new(v.len(), |i: int| v[i]@)
}

/// The address a match on row `row` gives: the matched characters without
/// trailing punctuation, when more than `https://` is left.
pub open spec fn url_of_match(line: Seq<char>, m: (usize, usize), row: nat) -> Option<UrlView> {
    let sc = col_of(line, m.0 as int);
    let ec = col_of(line, m.1 as int);
    let text = if sc <= ec { trim_punct(line.subrange(sc as int, ec as int)) } else { Seq::empty() };
    if byte_len(text) > 8 {
        Some(UrlView { url: text, line: row, start_col: sc, end_col: (sc + text.len() - 1) as nat })
    } else {
        None
    }
}

/// The addresses the first `n` matches on row `row` give, in order.
pub open spec fn urls_of_matches(line: Seq<char>, ms: Seq<(usize, usize)>, row: nat, n: int) -> Seq<UrlView>
    decreases n,
{
    if n <= 0 {
        Seq::empty()
    } else {
        let prev = urls_of_matches(line, ms, row, n - 1);
        match url_of_match(line, ms[n - 1], row) {
            Some(u) => prev.push(u),
            None => prev,
        }
    }
}

/// The column of a byte offset lies within the line.
proof fn lemma_col_of_bound(line: Seq<char>, b: int)
    ensures
        col_of(line, b) <= line.len(),
    decreases line.len(),
{
    if line.len() > 0 {
        lemma_col_of_bound(line.drop_first(), b - encode_scalar(line[0] as u32).len());
    }
}

/// What is left of a text without its trailing punctuation does not end
/// with punctuation.
proof fn lemma_trim_punct_end(s: Seq<char>)
    ensures
        trim_punct(s).len() > 0 ==> !is_trailing_punct(trim_punct(s).last()),
    decreases s.len(),
{
    if s.len() > 0 && is_trailing_punct(s.last()) {
        lemma_trim_punct_end(s.drop_last());
    }
}

/// Every address found on a row is longer than its scheme, does not end
/// with punctuation, lies on that row, and spans one column per character.
pub proof fn lemma_found_urls(line: Seq<char>, ms: Seq<(usize, usize)>, row: nat, n: int)
    requires
        0 <= n <= ms.len(),
    ensures
        forall|k: int| 0 <= k < urls_of_matches(line, ms, row, n).len() ==> {
            let u = #[trigger] urls_of_matches(line, ms, row, n)[k];
            &&& byte_len(u.url) > 8
            &&& !is_trailing_punct(u.url.last())
            &&& u.line == row
            &&& u.end_col + 1 == u.start_col + u.url.len()
        },
    decreases n,
{
    if n > 0 {
        lemma_found_urls(line, ms, row, n - 1);
        let prev = urls_of_matches(line, ms, row, n - 1);
        let m = ms[n - 1];
        let sc = col_of(line, m.0 as int);
        let ec = col_of(line, m.1 as int);
        lemma_col_of_bound(line, m.1 as int);
        if sc <= ec {
            lemma_trim_punct_end(line.subrange(sc as int, ec as int));
        }
        let text = if sc <= ec { trim_punct(line.subrange(sc as int, ec as int)) } else { Seq::empty() };
        if text.len() == 0 {
            assert(encode_utf8(text) =~= Seq::<u8>::empty());
        }
        let now = urls_of_matches(line, ms, row, n);
        assert forall|k: int| 0 <= k < now.len() implies #[trigger] now[k] == prev[k] || k == prev.len() by {}
    }
}

/// The addresses on the first `n` rows, row by row.
pub open spec fn urls_of_rows(lines: Seq<Seq<char>>, ms: Seq<Seq<(usize, usize)>>, n: int) -> Seq<UrlView>
    decreases n,
{
    if n <= 0 {
        Seq::empty()
    } else {
        urls_of_rows(lines, ms, n - 1) + urls_of_matches(lines[n - 1], ms[n - 1], (n - 1) as nat, ms[n - 1].len() as int)
    }
}

/// The bytes a character takes in UTF-8.
fn char_bytes(c: char) -> (n: usize)
    ensures
        n == encode_scalar(c as u32).len(),
{
    let v = c as u32;
    if v <= 0x7f {
        1
    } else if v <= 0x7ff {
        2
    } else if v <= 0xffff {
        3
    } else {
        4
    }
}

/// How many leading characters of `line` end within its first `b` bytes.
fn column_of(line: &[char], b: usize) -> (col: usize)
    ensures
        col == col_of(line@, b as int),
        col <= line@.len(),
{
    let mut i: usize = 0;
    let mut used: usize = 0;
    assert(line@.skip(0) =~= line@);
    while i < line.len()
        invariant
            i <= line@.len(),
            used <= b,
            col_of(line@, b as int) == i + col_of(line@.skip(i as int), b - used),
        decreases line@.len() - i,
    {
        let w = char_bytes(line[i]);
        let ghost rest = line@.skip(i as int);
        assert(rest[0] == line@[i as int]);
        if w > b - used {
            return i;
        }
        assert(rest.drop_first() =~= line@.skip(i + 1));
        used = used + w;
        i += 1;
    }
    assert(line@.skip(i as int) =~= Seq::<char>::empty());
    i
}

/// Drops trailing punctuation.
fn trim_trailing_punct(s: &[char]) -> (out: Vec<char>)
    ensures
        out@ == trim_punct(s@),
{
    let mut n = s.len();
    assert(s@.take(n as int) =~= s@);
    while n > 0 && (s[n - 1] == '.' || s[n - 1] == ',' || s[n - 1] == ';' || s[n - 1] == ':'
        || s[n - 1] == '!' || s[n - 1] == '?')
        invariant
            n <= s@.len(),
            trim_punct(s@) == trim_punct(s@.take(n as int)),
        decreases n,
    {
        assert(s@.take(n as int).drop_last() =~= s@.take(n - 1));
        n -= 1;
    }
    slice_chars(s, 0, n)
}

/// The addresses that the matches on one row give, added to `out`.
fn push_row_urls(line: &[char], matches: &Vec<(usize, usize)>, row: usize, out: &mut Vec<DetectedUrl>)
    ensures
        url_views(final(out)@) == url_views(old(out)@) + urls_of_matches(line@, matches@, row as nat, matches@.len() as int),
{
    let ghost start = url_views(out@);
    let mut k: usize = 0;
    assert(url_views(out@) =~= start + urls_of_matches(line@, matches@, row as nat, 0));
    while k < matches.len()
        invariant
            k <= matches@.len(),
            url_views(out@) == start + urls_of_matches(line@, matches@, row as nat, k as int),
        decreases matches@.len() - k,
    {
        let (s, e) = matches[k];
        let sc = column_of(line, s);
        let ec = column_of(line, e);
        let text = if sc <= ec { trim_trailing_punct(&slice_chars(line, sc, ec)) } else { Vec::new() };
        let url = string_from_chars(&text);
        let bytes = url.as_str().as_bytes().len();
        let ghost before = out@;
        proof {
            assert(matches@[k as int] == (s, e));
            if sc <= ec {
                lemma_trim_punct_len(line@.subrange(sc as int, ec as int));
            }
            assert(text@ == (if sc <= ec { trim_punct(line@.subrange(sc as int, ec as int)) } else { Seq::<char>::empty() }));
            assert(bytes == byte_len(text@));
            if text@.len() == 0 {
                assert(encode_utf8(text@) =~= Seq::<u8>::empty());
            }
        }
        if bytes > 8 {
            let end_col = sc + text.len() - 1;
            out.push(DetectedUrl { url, line: row, start_col: sc, end_col });
            assert(url_views(out@) =~= url_views(before).push(url_views(out@).last()));
        }
        k += 1;
        assert(url_views(out@) =~= start + urls_of_matches(line@, matches@, row as nat, k as int));
    }
}

/// The addresses that the matches give, row by row: `matches[i]` holds the
/// byte ranges matched on row `i`.
pub fn urls_from_matches(lines: &Vec<Vec<char>>, matches: &Vec<Vec<(usize, usize)>>) -> (urls: Vec<DetectedUrl>)
    requires
        lines@.len() == matches@.len(),
    ensures
        url_views(urls@) == urls_of_rows(
            Seq::new(lines@.len(), |i: int| lines@[i]@),
            Seq::new(matches@.len(), |i: int| matches@[i]@),
            lines@.len() as int,
        ),
{
    let ghost ls = Seq::new(lines@.len(), |i: int| lines@[i]@);
    let ghost ms = Seq::new(matches@.len(), |i: int| matches@[i]@);
    let mut out: Vec<DetectedUrl> = Vec::new();
    let mut r: usize = 0;
    assert(url_views(out@) =~= urls_of_rows(ls, ms, 0));
    while r < lines.len()
        invariant
            r <= lines@.len() == matches@.len(),
            ls == Seq::new(lines@.len(), |i: int| lines@[i]@),
            ms == Seq::new(matches@.len(), |i: int| matches@[i]@),
            url_views(out@) == urls_of_rows(ls, ms, r as int),
        decreases lines@.len() - r,
    {
        push_row_urls(&lines[r], &matches[r], r, &mut out);
        assert(ls[r as int] == lines@[r as int]@);
        assert(ms[r as int] == matches@[r as int]@);
        r += 1;
    }
    out
}

/// The text of a screen row, one character per column.
fn row_chars(row: &FrameRow) -> (v: Vec<char>)
    ensures
        v@ == grid_text(row.cells@),
{
    let mut v: Vec<char> = Vec::new();
    let mut i: usize = 0;
    while i < row.cells.len()
        invariant
            i <= row.cells@.len(),
            v@ == grid_text(row.cells@).take(i as int),
        decreases row.cells@.len() - i,
    {
        let cell = &row.cells[i];
        let c = match cell.width {
            CellWidth::Spacer => ' ',
            _ => cell.ch,
        };
        v.push(c);
        i += 1;
        assert(v@ =~= grid_text(row.cells@).take(i as int));
    }
    assert(grid_text(row.cells@).take(i as int) =~= grid_text(row.cells@));
    v
}

/// The addresses shown on the screen rows.
pub fn detect_urls(rows: &Vec<FrameRow>) -> (urls: Vec<DetectedUrl>)
    ensures
        url_views(urls@) == urls_of_rows(
            Seq::new(rows@.len(), |i: int| grid_text(rows@[i].cells@)),
            Seq::new(rows@.len(), |i: int| url_matches(grid_text(rows@[i].cells@))),
            rows@.len() as int,
        ),
{
    let mut lines: Vec<Vec<char>> = Vec::new();
    let mut texts: Vec<String> = Vec::new();
    let mut i: usize = 0;
    while i < rows.len()
        invariant
            i <= rows@.len(),
            lines@.len() == i,
            texts@.len() == i,
            forall|k: int| 0 <= k < i ==> (#[trigger] lines@[k])@ == grid_text(rows@[k].cells@)
                && texts@[k]@ == grid_text(rows@[k].cells@),
        decreases rows@.len() - i,
    {
        let v = row_chars(&rows[i]);
        texts.push(string_from_chars(&v));
        lines.push(v);
        i += 1;
    }
    let matches = find_url_matches(&texts);
    assert forall|k: int| 0 <= k < rows@.len() implies #[trigger] matches@[k]@ == url_matches(grid_text(rows@[k].cells@)) by {
        assert(lines@[k]@ == grid_text(rows@[k].cells@));
        assert(texts@[k]@ == grid_text(rows@[k].cells@));
    }
    let urls = urls_from_matches(&lines, &matches);
    assert(Seq::new(lines@.len(), |k: int| lines@[k]@) =~= Seq::new(rows@.len(), |k: int| grid_text(rows@[k].cells@)));
    assert(Seq::new(matches@.len(), |k: int| matches@[k]@)
        =~= Seq::new(rows@.len(), |k: int| url_matches(grid_text(rows@[k].cells@))));
    urls
}

/// The last address found that covers column `col` of row `line`.
pub open spec fn url_index_at(urls: Seq<UrlView>, line: nat, col: nat) -> Option<int>
    decreases urls.len(),
{
    if urls.len() == 0 {
        None
    } else {
        let u = urls.last();
        if u.line == line && u.start_col <= col <= u.end_col {
            Some(urls.len() - 1)
        } else {
            url_index_at(urls.drop_last(), line, col)
        }
    }
}

/// The address under a cell: the last one found that covers it.
pub fn url_at(urls: &Vec<DetectedUrl>, line: usize, col: usize) -> (r: Option<usize>)
    ensures
        match url_index_at(url_views(urls@), line as nat, col as nat) {
            Some(i) => r == Some(i as usize),
            None => r is None,
        },
{
    let mut n = urls.len();
    assert(url_views(urls@).take(n as int) =~= url_views(urls@));
    while n > 0
        invariant
            n <= urls@.len(),
            url_index_at(url_views(urls@), line as nat, col as nat)
                == url_index_at(url_views(urls@).take(n as int), line as nat, col as nat),
        decreases n,
    {
        let u = &urls[n - 1];
        assert(url_views(urls@).take(n as int).last() == u@);
        if u.line == line && u.start_col <= col && col <= u.end_col {
            return Some(n - 1);
        }
        assert(url_views(urls@).take(n as int).drop_last() =~= url_views(urls@).take(n - 1));
        n -= 1;
    }
    None
}

} // verus!
