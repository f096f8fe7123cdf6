//! Highlighted lines from a stream of highlight events: the source is cut
//! into lines, and each highlighted byte range becomes a span on every line
//! it touches, styled by the innermost open highlight.

use vstd::prelude::*;
use vstd::utf8::encode_utf8;
use crate::highlight::{capture_style, highlight_style_for_capture, TokenStyle};
use crate::text::{chars_of, split_chars, split_on, string_from_chars, strip_cr, strip_cr_chars, views};

verus! {

/// How many bytes the UTF-8 encoding of `s` takes.
pub open spec fn byte_len(s: Seq<char>) -> nat {
    encode_utf8(s).len()
}

/// Encoding a concatenation encodes the parts one after the other.
pub proof fn lemma_encode_concat(a: Seq<char>, b: Seq<char>)
    ensures
        encode_utf8(a + b) == encode_utf8(a) + encode_utf8(b),
    decreases a.len(),
{
    if a.len() == 0 {
        assert(a + b =~= b);
        assert(encode_utf8(a) =~= Seq::<u8>::empty());
        assert(encode_utf8(a) + encode_utf8(b) =~= encode_utf8(b));
    } else {
        assert((a + b).drop_first() =~= a.drop_first() + b);
        assert((a + b)[0] == a[0]);
        lemma_encode_concat(a.drop_first(), b);
        let head = vstd::utf8::encode_scalar(a[0] as u32);
        assert(head + (encode_utf8(a.drop_first()) + encode_utf8(b))
            =~= (head + encode_utf8(a.drop_first())) + encode_utf8(b));
    }
}

/// The byte where line `i` of the pieces starts: each earlier piece and
/// its line break.
pub open spec fn line_start(pieces: Seq<Seq<char>>, i: int) -> nat
    decreases i,
{
    if i <= 0 {
        0
    } else {
        line_start(pieces, i - 1) + byte_len(pieces[i - 1]) + 1
    }
}

/// Where line `i` starts depends only on the pieces before it.
proof fn lemma_line_start_prefix(p: Seq<Seq<char>>, q: Seq<Seq<char>>, i: int)
    requires
        0 <= i <= p.len(),
        i <= q.len(),
        forall|k: int| 0 <= k < i ==> p[k] == q[k],
    ensures
        line_start(p, i) == line_start(q, i),
    decreases i,
{
    if i > 0 {
        lemma_line_start_prefix(p, q, i - 1);
    }
}

/// Line starts grow.
proof fn lemma_line_start_grows(p: Seq<Seq<char>>, i: int, j: int)
    requires
        0 <= i <= j,
    ensures
        line_start(p, i) <= line_start(p, j),
    decreases j,
{
    if i < j {
        lemma_line_start_grows(p, i, j - 1);
    }
}

/// The pieces of a text split at line breaks, each with a line break after
/// it, take one byte more than the text.
pub proof fn lemma_pieces_bytes(s: Seq<char>)
    ensures
        line_start(split_on(s, '\n'), split_on(s, '\n').len() as int) == byte_len(s) + 1,
    decreases s.len(),
{
    let p = split_on(s, '\n');
    if s.len() == 0 {
        assert(encode_utf8(s) =~= Seq::<u8>::empty());
        assert(p =~= seq![Seq::<char>::empty()]);
        assert(encode_utf8(p[0]) =~= Seq::<u8>::empty());
        assert(line_start(p, 0) == 0);
        assert(line_start(p, 1) == line_start(p, 0) + byte_len(p[0]) + 1);
    } else {
        let rest = s.drop_last();
        let c = s.last();
        let q = split_on(rest, '\n');
        lemma_pieces_bytes(rest);
        crate::text::lemma_split_nonempty(rest, '\n');
        assert(rest + seq![c] =~= s);
        lemma_encode_concat(rest, seq![c]);
        if c == '\n' {
            assert(p == q.push(Seq::<char>::empty()));
            lemma_line_start_prefix(p, q, q.len() as int);
            assert(line_start(p, p.len() as int) == line_start(p, q.len() as int) + byte_len(p[q.len() as int]) + 1);
            assert(encode_utf8(Seq::<char>::empty()) =~= Seq::<u8>::empty());
            assert(encode_utf8(seq![c]).len() == 1) by {
                assert(seq![c].drop_first() =~= Seq::<char>::empty());
                assert(encode_utf8(seq![c].drop_first()) =~= Seq::<u8>::empty());
            }
        } else {
            let n = q.len() as int;
            assert(p == q.update(n - 1, q.last().push(c)));
            lemma_line_start_prefix(p, q, n - 1);
            assert(q.last().push(c) =~= q.last() + seq![c]);
            lemma_encode_concat(q.last(), seq![c]);
            assert(line_start(p, n) == line_start(p, n - 1) + byte_len(p[n - 1]) + 1);
            assert(line_start(q, n) == line_start(q, n - 1) + byte_len(q[n - 1]) + 1);
        }
    }
}

/// A byte range of one line.
#[derive(Debug, Clone, Copy, PartialEq, Eq, Structural)]
pub struct LineMeta {
    pub start: usize,
    pub end: usize,
}

/// The byte ranges of the lines of a text: each starts after the earlier
/// lines and their line breaks, and covers the line without a carriage
/// return before its break.
pub open spec fn line_metas(s: Seq<char>) -> Seq<LineMeta> {
    let p = split_on(s, '\n');
    Seq::new(p.len(), |i: int| LineMeta {
        start: line_start(p, i) as usize,
        end: (line_start(p, i) + byte_len(strip_cr(p[i]))) as usize,
    })
}

/// A span of highlighted bytes within a line: from `start` up to `end`.
#[derive(Debug, Clone, Copy, PartialEq, Eq, Structural)]
pub struct HighlightedSpan {
    pub start: usize,
    pub end: usize,
    pub style: TokenStyle,
}

/// The view of a span: its first byte, the byte after it, and its style.
pub struct SpanView {
    pub start: nat,
    pub end: nat,
    pub style: TokenStyle,
}

impl View for HighlightedSpan {
    type V = SpanView;

    open spec fn view(&self) -> SpanView {
        SpanView { start: self.start as nat, end: self.end as nat, style: self.style }
    }
}

/// The views of some spans.
pub open spec fn span_views(v: Seq<HighlightedSpan>) -> Seq<SpanView> {
    Seq::new(v.len(), |i: int| v[i]@)
}

/// A line of text with its highlighted spans.
#[derive(Debug, Clone, Default, PartialEq)]
pub struct HighlightedLine {
    pub text: String,
    pub spans: Vec<HighlightedSpan>,
}

/// A highlighted document.
#[derive(Debug, Clone, Default, PartialEq)]
pub struct HighlightedDoc {
    pub lines: Vec<HighlightedLine>,
}

/// The texts of the lines of `s`: its pieces between line breaks, without
/// a carriage return before a break.
pub open spec fn line_texts(s: Seq<char>) -> Seq<Seq<char>> {
    Seq::new(split_on(s, '\n').len(), |i: int| strip_cr(split_on(s, '\n')[i]))
}

/// The lines of `source`, without spans, and their byte ranges.
pub fn build_lines(source: &str) -> (r: (Vec<HighlightedLine>, Vec<LineMeta>))
    ensures
        r.0@.len() == line_texts(source@).len(),
        forall|i: int| 0 <= i < r.0@.len() ==> (#[trigger] r.0@[i]).text@ == line_texts(source@)[i]
            && r.0@[i].spans@.len() == 0,
        r.1@ == line_metas(source@),
{
    let byte_count = source.as_bytes().len();
    let chars = chars_of(source);
    let pieces = split_chars(&chars, '\n');
    let ghost p = split_on(source@, '\n');
    proof {
        lemma_pieces_bytes(source@);
        crate::text::lemma_split_nonempty(source@, '\n');
    }
    let mut lines: Vec<HighlightedLine> = Vec::new();
    let mut metas: Vec<LineMeta> = Vec::new();
    let mut start: usize = 0;
    let mut i: usize = 0;
    while i < pieces.len()
        invariant
            views(pieces@) == p,
            p == split_on(source@, '\n'),
            p.len() > 0,
            line_start(p, p.len() as int) == byte_len(source@) + 1,
            encode_utf8(source@).len() <= usize::MAX,
            i <= pieces@.len(),
            i < pieces@.len() ==> start == line_start(p, i as int),
            lines@.len() == i,
            forall|k: int| 0 <= k < i ==> (#[trigger] lines@[k]).text@ == line_texts(source@)[k]
                && lines@[k].spans@.len() == 0,
            metas@ == line_metas(source@).take(i as int),
        decreases pieces@.len() - i,
    {
        assert(views(pieces@).len() == pieces@.len());
        assert(p.len() == pieces@.len());
        assert(line_metas(source@).len() == p.len());
        assert(pieces@[i as int]@ == p[i as int]);
        let text = strip_cr_chars(&pieces[i]);
        let text_s = string_from_chars(&text);
        let raw_s = string_from_chars(&pieces[i]);
        proof {
            let n = p.len() as int;
            assert(line_start(p, n) == line_start(p, n - 1) + byte_len(p[n - 1]) + 1);
            assert(line_start(p, i + 1) == line_start(p, i as int) + byte_len(p[i as int]) + 1);
            if i + 1 <= n - 1 {
                lemma_line_start_grows(p, i + 1, n - 1);
            }
            lemma_line_start_grows(p, i as int, n - 1);
            if text@.len() < p[i as int].len() {
                assert(p[i as int] =~= text@ + seq!['\r']);
                lemma_encode_concat(text@, seq!['\r']);
            } else {
                assert(text@ == p[i as int]);
            }
        }
        let text_end = start + text_s.as_str().len();
        let raw_len = raw_s.as_str().len();
        assert(text_end == line_start(p, i as int) + byte_len(strip_cr(p[i as int])));
        let ghost before = metas@;
        lines.push(HighlightedLine { text: text_s, spans: Vec::new() });
        metas.push(LineMeta { start, end: text_end });
        assert(metas@[i as int] == line_metas(source@)[i as int]);
        assert(before == line_metas(source@).take(i as int));
        assert(metas@ =~= line_metas(source@).take(i + 1));
        if i + 1 < pieces.len() {
            start = start + raw_len + 1;
        } else {
            start = start + raw_len;
        }
        i += 1;
    }
    assert(line_metas(source@).take(i as int) =~= line_metas(source@));
    (lines, metas)
}

/// Line ranges in order: each starts no later than it ends, and ends
/// before any later line starts.
pub open spec fn metas_wf(metas: Seq<LineMeta>) -> bool {
    &&& forall|i: int| 0 <= i < metas.len() ==> (#[trigger] metas[i]).start <= metas[i].end
    &&& forall|i: int, j: int| 0 <= i < j < metas.len() ==> (#[trigger] metas[i]).end < (#[trigger] metas[j]).start
}

/// Dropping a carriage return does not lengthen the encoding.
proof fn lemma_strip_cr_bytes(s: Seq<char>)
    ensures
        byte_len(strip_cr(s)) <= byte_len(s),
{
    if s.len() > 0 && s.last() == '\r' {
        assert(s =~= s.drop_last() + seq!['\r']);
        lemma_encode_concat(s.drop_last(), seq!['\r']);
    }
}

/// The line ranges of a text whose encoding fits in memory are in order.
pub proof fn lemma_metas_ordered(s: Seq<char>)
    requires
        byte_len(s) <= usize::MAX,
    ensures
        metas_wf(line_metas(s)),
{
    let p = split_on(s, '\n');
    let m = line_metas(s);
    let n = p.len() as int;
    lemma_pieces_bytes(s);
    crate::text::lemma_split_nonempty(s, '\n');
    assert forall|i: int| 0 <= i < n implies line_start(p, i) + byte_len(strip_cr(p[i])) < line_start(p, i + 1)
        && line_start(p, i + 1) <= byte_len(s) + 1 by {
        lemma_strip_cr_bytes(p[i]);
        lemma_line_start_grows(p, i + 1, n);
    }
    assert forall|i: int| 0 <= i < m.len() implies (#[trigger] m[i]).start <= m[i].end by {
        assert(line_start(p, i + 1) == line_start(p, i) + byte_len(p[i]) + 1);
    }
    assert forall|i: int, j: int| 0 <= i < j < m.len() implies (#[trigger] m[i]).end < (#[trigger] m[j]).start by {
        lemma_line_start_grows(p, i + 1, j);
        assert(line_start(p, i + 1) == line_start(p, i) + byte_len(p[i]) + 1);
        assert(line_start(p, j + 1) == line_start(p, j) + byte_len(p[j]) + 1);
    }
}

/// The part of the bytes `start..end` that lies on a line, as a span
/// relative to the line's start, if any.
pub open spec fn line_span(start: int, end: int, meta: LineMeta, style: TokenStyle) -> Option<SpanView> {
    let lo = if start > meta.start { start } else { meta.start as int };
    let hi = if end < meta.end { end } else { meta.end as int };
    if lo < hi {
        Some(SpanView { start: (lo - meta.start) as nat, end: (hi - meta.start) as nat, style })
    } else {
        None
    }
}

/// Each line's spans with the part of `start..end` on it added.
pub open spec fn add_spans(
    spans: Seq<Seq<SpanView>>,
    metas: Seq<LineMeta>,
    start: int,
    end: int,
    style: TokenStyle,
) -> Seq<Seq<SpanView>> {
    Seq::new(spans.len(), |i: int| match line_span(start, end, metas[i], style) {
        Some(sp) => spans[i].push(sp),
        None => spans[i],
    })
}

/// The texts of some lines.
pub open spec fn texts_of(lines: Seq<HighlightedLine>) -> Seq<Seq<char>> {
    Seq::new(lines.len(), |i: int| lines[i].text@)
}

/// The spans of some lines.
pub open spec fn spans_of(lines: Seq<HighlightedLine>) -> Seq<Seq<SpanView>> {
    Seq::new(lines.len(), |i: int| span_views(lines[i].spans@))
}

/// Adds the part of the bytes `start..end` on each line to its spans.
fn push_span_for_byte_range(
    start: usize,
    end: usize,
    style: TokenStyle,
    lines: &mut Vec<HighlightedLine>,
    line_meta: &[LineMeta],
)
    requires
        old(lines)@.len() == line_meta@.len(),
        metas_wf(line_meta@),
    ensures
        final(lines)@.len() == old(lines)@.len(),
        texts_of(final(lines)@) == texts_of(old(lines)@),
        spans_of(final(lines)@) == add_spans(spans_of(old(lines)@), line_meta@, start as int, end as int, style),
{
    let ghost m = line_meta@;
    let ghost spans0 = spans_of(lines@);
    let ghost texts0 = texts_of(lines@);
    let ghost want = add_spans(spans0, m, start as int, end as int, style);
    let n = line_meta.len();
    // The first line that ends after `start`.
    let mut lo: usize = 0;
    let mut hi: usize = n;
    while lo < hi
        invariant
            hi <= n == m.len(),
            m == line_meta@,
            lo <= hi,
            metas_wf(m),
            forall|k: int| 0 <= k < lo ==> (#[trigger] m[k]).end <= start,
            forall|k: int| hi <= k < n ==> (#[trigger] m[k]).end > start,
        decreases hi - lo,
    {
        let mid = lo + (hi - lo) / 2;
        if line_meta[mid].end <= start {
            proof {
                assert forall|k: int| 0 <= k <= mid implies (#[trigger] m[k]).end <= start by {
                    if k < mid {
                        assert(m[k].end < m[mid as int].start);
                    }
                }
            }
            lo = mid + 1;
        } else {
            proof {
                assert forall|k: int| mid <= k < n implies (#[trigger] m[k]).end > start by {
                    if k > mid {
                        assert(m[mid as int].end < m[k].start);
                    }
                }
            }
            hi = mid;
        }
    }
    let first = lo;
    assert forall|k: int| 0 <= k < first implies line_span(start as int, end as int, #[trigger] m[k], style) is None by {}
    let mut i = first;
    assert(spans_of(lines@) =~= Seq::new(n as nat, |k: int| if first <= k < i { want[k] } else { spans0[k] }));
    while i < n && line_meta[i].start < end
        invariant
            first <= i <= n == m.len(),
            m == line_meta@,
            lines@.len() == n,
            metas_wf(m),
            texts_of(lines@) == texts0,
            spans0.len() == n,
            want == add_spans(spans0, m, start as int, end as int, style),
            forall|k: int| 0 <= k < first ==> line_span(start as int, end as int, #[trigger] m[k], style) is None,
            spans_of(lines@) == Seq::new(n as nat, |k: int| if first <= k < i { want[k] } else { spans0[k] }),
        decreases n - i,
    {
        let ms = line_meta[i].start;
        let me = line_meta[i].end;
        let a = if start > ms { start } else { ms };
        let b = if end < me { end } else { me };
        let ghost before = lines@;
        if a < b {
            let sp = HighlightedSpan { start: a - ms, end: b - ms, style };
            lines[i].spans.push(sp);
            assert(span_views(lines@[i as int].spans@) =~= span_views(before[i as int].spans@).push(sp@));
        }
        assert(spans_of(before)[i as int] == span_views(before[i as int].spans@));
        assert(spans_of(before)[i as int] == spans0[i as int]);
        assert(spans_of(lines@)[i as int] == span_views(lines@[i as int].spans@));
        assert(spans_of(lines@)[i as int] == want[i as int]);
        i += 1;
        assert(texts_of(lines@) =~= texts0) by {
            assert forall|k: int| 0 <= k < n implies #[trigger] texts_of(lines@)[k] == texts_of(before)[k] by {
                assert(lines@[k].text == before[k].text);
            }
        }
        assert(spans_of(lines@) =~= Seq::new(n as nat, |k: int| if first <= k < i { want[k] } else { spans0[k] })) by {
            assert forall|k: int| 0 <= k < n && k != i - 1 implies #[trigger] spans_of(lines@)[k] == spans_of(before)[k] by {
                assert(lines@[k] == before[k]);
            }
        }
    }
    assert forall|k: int| i <= k < n implies line_span(start as int, end as int, #[trigger] m[k], style) is None by {
        if k > i {
            assert(m[i as int].end < m[k].start);
        }
    }
    assert(spans_of(lines@) =~= want);
}

/// What the highlighter reports while walking the source: a highlight
/// (by capture index) opens, the innermost one closes, or a byte range of
/// source comes under the open highlights.
#[derive(Debug, Clone, Copy, PartialEq, Eq, Structural)]
pub enum HighlightEvent {
    HighlightStart(usize),
    HighlightEnd,
    Source { start: usize, end: usize },
}

/// The open highlights and each line's spans after the first `n` events:
/// a byte range under at least one open highlight becomes spans styled by
/// the innermost one; ranges under none are left unstyled.
pub open spec fn fold_events(
    evs: Seq<HighlightEvent>,
    n: int,
    names: Seq<String>,
    metas: Seq<LineMeta>,
) -> (Seq<usize>, Seq<Seq<SpanView>>)
    decreases n,
{
    if n <= 0 {
        (Seq::empty(), Seq::new(metas.len(), |i: int| Seq::<SpanView>::empty()))
    } else {
        let prev = fold_events(evs, n - 1, names, metas);
        let stack = prev.0;
        let spans = prev.1;
        match evs[n - 1] {
            HighlightEvent::HighlightStart(h) => (stack.push(h), spans),
            HighlightEvent::HighlightEnd => (if stack.len() > 0 { stack.drop_last() } else { stack }, spans),
            HighlightEvent::Source { start, end } => if start < end && stack.len() > 0 {
                (stack, add_spans(spans, metas, start as int, end as int, capture_style(names, stack.last() as int)))
            } else {
                (stack, spans)
            },
        }
    }
}

/// The spans the events leave on each line.
pub open spec fn highlighted_spans(source: Seq<char>, evs: Seq<HighlightEvent>, names: Seq<String>) -> Seq<Seq<SpanView>> {
    fold_events(evs, evs.len() as int, names, line_metas(source)).1
}

/// The lines of `source` with the spans that the highlight events give them.
pub fn highlight_events(source: &str, events: &[HighlightEvent], capture_names: &[String]) -> (doc: HighlightedDoc)
    ensures
        texts_of(doc.lines@) == line_texts(source@),
        spans_of(doc.lines@) == highlighted_spans(source@, events@, capture_names@),
{
    let byte_count = source.as_bytes().len();
    let (mut lines, line_meta) = build_lines(source);
    let ghost metas = line_metas(source@);
    proof {
        lemma_metas_ordered(source@);
    }
    assert(texts_of(lines@) =~= line_texts(source@));
    assert(spans_of(lines@) =~= fold_events(events@, 0, capture_names@, metas).1) by {
        assert forall|i: int| 0 <= i < lines@.len() implies #[trigger] spans_of(lines@)[i] == Seq::<SpanView>::empty() by {
            assert(span_views(lines@[i].spans@) =~= Seq::<SpanView>::empty());
        }
    }
    let mut stack: Vec<usize> = Vec::new();
    let mut k: usize = 0;
    while k < events.len()
        invariant
            k <= events@.len(),
            line_meta@ == metas,
            metas == line_metas(source@),
            metas_wf(metas),
            lines@.len() == metas.len(),
            texts_of(lines@) == line_texts(source@),
            stack@ == fold_events(events@, k as int, capture_names@, metas).0,
            spans_of(lines@) == fold_events(events@, k as int, capture_names@, metas).1,
        decreases events@.len() - k,
    {
        match events[k] {
            HighlightEvent::HighlightStart(h) => {
                stack.push(h);
            },
            HighlightEvent::HighlightEnd => {
                let ghost before = stack@;
                stack.pop();
                assert(before.len() > 0 ==> stack@ =~= before.drop_last());
            },
            HighlightEvent::Source { start, end } => {
                if start < end && stack.len() > 0 {
                    let top = stack[stack.len() - 1];
                    let style = highlight_style_for_capture(top, capture_names);
                    push_span_for_byte_range(start, end, style, &mut lines, &line_meta);
                }
            },
        }
        k += 1;
    }
    HighlightedDoc { lines }
}

/// Every span lies within its line: it is not empty and ends no later than
/// the line's text.
pub open spec fn spans_within(spans: Seq<Seq<SpanView>>, metas: Seq<LineMeta>) -> bool {
    &&& spans.len() == metas.len()
    &&& forall|i: int, j: int| 0 <= i < spans.len() && 0 <= j < spans[i].len() ==>
        (#[trigger] spans[i][j]).start < spans[i][j].end
        && spans[i][j].end <= metas[i].end - metas[i].start
}

/// Whatever the highlight events, each span they leave on a line is a
/// non-empty range of that line's text.
pub proof fn lemma_spans_within_lines(evs: Seq<HighlightEvent>, n: int, names: Seq<String>, metas: Seq<LineMeta>)
    requires
        0 <= n <= evs.len(),
        metas_wf(metas),
    ensures
        spans_within(fold_events(evs, n, names, metas).1, metas),
    decreases n,
{
    if n > 0 {
        lemma_spans_within_lines(evs, n - 1, names, metas);
        let prev = fold_events(evs, n - 1, names, metas);
        match evs[n - 1] {
            HighlightEvent::Source { start, end } => {
                if start < end && prev.0.len() > 0 {
                    let style = capture_style(names, prev.0.last() as int);
                    let next = add_spans(prev.1, metas, start as int, end as int, style);
                    assert forall|i: int, j: int| 0 <= i < next.len() && 0 <= j < next[i].len() implies
                        (#[trigger] next[i][j]).start < next[i][j].end
                        && next[i][j].end <= metas[i].end - metas[i].start by {
                        if j >= prev.1[i].len() {
                            assert(metas[i].start <= metas[i].end);
                        }
                    }
                }
            },
            _ => {},
        }
    } else {
        let empty = fold_events(evs, 0, names, metas).1;
        assert forall|i: int, j: int| 0 <= i < empty.len() && 0 <= j < empty[i].len() implies
            (#[trigger] empty[i][j]).start < empty[i][j].end && empty[i][j].end <= metas[i].end - metas[i].start by {
            assert(empty[i].len() == 0);
        }
    }
}

} // verus!
