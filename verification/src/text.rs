//! Character-level text utilities: the string model shared by the parsers.
//!
//! Text is handled as sequences of `char`. The spec functions below state what
//! the line, separator and whitespace operations of `str` compute, and the
//! executable functions are proved against them.

use vstd::prelude::*;
use vstd::utf8::encode_scalar;

verus! {

// ---------------------------------------------------------------------------
// Specifications
// ---------------------------------------------------------------------------

/// Pieces of `s` between occurrences of `sep` (always at least one piece).
pub open spec fn split_on(s: Seq<char>, sep: char) -> Seq<Seq<char>>
    decreases s.len(),
{
    if s.len() == 0 {
        seq![Seq::<char>::empty()]
    } else {
        let p = split_on(s.drop_last(), sep);
        if s.last() == sep {
            p.push(Seq::<char>::empty())
        } else {
            p.update(p.len() - 1, p.last().push(s.last()))
        }
    }
}

/// Drops one trailing carriage return.
pub open spec fn strip_cr(s: Seq<char>) -> Seq<char> {
    if s.len() > 0 && s.last() == '\r' {
        s.drop_last()
    } else {
        s
    }
}

/// What `str::lines` yields: pieces split at `\n`, a `\r` directly before a
/// `\n` removed, and no final empty piece after a trailing line break.
pub open spec fn lines_of(s: Seq<char>) -> Seq<Seq<char>> {
    let p = split_on(s, '\n');
    let n: int = if p.last().len() == 0 { p.len() - 1 } else { p.len() as int };
    Seq::new(n as nat, |i: int| if i + 1 < p.len() { strip_cr(p[i]) } else { p[i] })
}

/// `s` begins with `p`.
pub open spec fn starts_with(s: Seq<char>, p: Seq<char>) -> bool {
    p.len() <= s.len() && s.take(p.len() as int) == p
}

/// `s` ends with `p`.
pub open spec fn ends_with(s: Seq<char>, p: Seq<char>) -> bool {
    p.len() <= s.len() && s.skip(s.len() - p.len()) == p
}

/// `p` occurs in `s` at position `i`.
pub open spec fn occurs_at(s: Seq<char>, p: Seq<char>, i: int) -> bool {
    0 <= i && i + p.len() <= s.len() && s.subrange(i, i + p.len()) == p
}

/// `p` occurs somewhere in `s`.
pub open spec fn contains_seq(s: Seq<char>, p: Seq<char>) -> bool {
    exists|i: int| occurs_at(s, p, i)
}

/// `i` is the first position at which `p` occurs in `s`.
pub open spec fn first_occurrence(s: Seq<char>, p: Seq<char>, i: int) -> bool {
    occurs_at(s, p, i) && forall|j: int| 0 <= j < i ==> !occurs_at(s, p, j)
}

/// The Unicode `White_Space` property, as `char::is_whitespace` defines it.
pub open spec fn is_ws(c: char) -> bool {
    ||| ('\u{9}' <= c && c <= '\u{d}')
    ||| c == ' '
    ||| c == '\u{85}'
    ||| c == '\u{a0}'
    ||| c == '\u{1680}'
    ||| ('\u{2000}' <= c && c <= '\u{200a}')
    ||| c == '\u{2028}'
    ||| c == '\u{2029}'
    ||| c == '\u{202f}'
    ||| c == '\u{205f}'
    ||| c == '\u{3000}'
}

/// `s` without leading whitespace.
pub open spec fn trim_start(s: Seq<char>) -> Seq<char>
    decreases s.len(),
{
    if s.len() > 0 && is_ws(s[0]) {
        trim_start(s.drop_first())
    } else {
        s
    }
}

/// `s` without trailing whitespace.
pub open spec fn trim_end(s: Seq<char>) -> Seq<char>
    decreases s.len(),
{
    if s.len() > 0 && is_ws(s.last()) {
        trim_end(s.drop_last())
    } else {
        s
    }
}

/// `str::trim`.
pub open spec fn trim(s: Seq<char>) -> Seq<char> {
    trim_end(trim_start(s))
}

/// `s` without any trailing copies of `c`.
pub open spec fn trim_end_char(s: Seq<char>, c: char) -> Seq<char>
    decreases s.len(),
{
    if s.len() > 0 && s.last() == c {
        trim_end_char(s.drop_last(), c)
    } else {
        s
    }
}

/// The decimal digit character for `d < 10`.
pub open spec fn digit_char(d: nat) -> char {
    (('0' as u32) + d) as char
}

/// Decimal representation of `n`, as `Display` prints an unsigned integer.
pub open spec fn decimal(n: nat) -> Seq<char>
    decreases n,
{
    if n < 10 {
        seq![digit_char(n)]
    } else {
        decimal(n / 10).push(digit_char(n % 10))
    }
}

/// Whether `c` is an ASCII decimal digit.
pub open spec fn is_digit(c: char) -> bool {
    '0' <= c && c <= '9'
}

/// The value of a string of decimal digits.
pub open spec fn digits_value(s: Seq<char>) -> nat
    decreases s.len(),
{
    if s.len() == 0 {
        0
    } else {
        digits_value(s.drop_last()) * 10 + ((s.last() as u32) - ('0' as u32)) as nat
    }
}

/// What `str::parse::<usize>` accepts: an optional `+`, then at least one
/// ASCII digit and nothing else, with a value that fits in `usize`.
pub open spec fn parse_usize_spec(s: Seq<char>) -> Option<usize> {
    parse_digits_spec(if s.len() > 0 && s[0] == '+' { s.drop_first() } else { s })
}

/// A non-empty run of ASCII digits whose value fits in `usize`.
pub open spec fn parse_digits_spec(d: Seq<char>) -> Option<usize> {
    if d.len() > 0 && (forall|i: int| 0 <= i < d.len() ==> is_digit(#[trigger] d[i]))
        && digits_value(d) <= usize::MAX {
        Some(digits_value(d) as usize)
    } else {
        None
    }
}

/// Non-empty runs of non-whitespace, as `str::split_whitespace` yields them.
pub open spec fn words(s: Seq<char>) -> Seq<Seq<char>>
    decreases s.len(),
{
    if s.len() == 0 {
        Seq::empty()
    } else {
        let w = words(s.drop_last());
        if is_ws(s.last()) {
            w
        } else if s.len() >= 2 && !is_ws(s[s.len() - 2]) {
            w.update(w.len() - 1, w.last().push(s.last()))
        } else {
            w.push(seq![s.last()])
        }
    }
}

// ---------------------------------------------------------------------------
// Lemmas
// ---------------------------------------------------------------------------

/// Splitting always gives at least one piece.
pub proof fn lemma_split_nonempty(s: Seq<char>, sep: char)
    ensures
        split_on(s, sep).len() >= 1,
    decreases s.len(),
{
    if s.len() > 0 {
        lemma_split_nonempty(s.drop_last(), sep);
    }
}

/// Trailing white space adds no word; a text ending in a non-space has one.
pub proof fn lemma_words_last_nonempty(s: Seq<char>)
    ensures
        s.len() >= 1 && !is_ws(s.last()) ==> words(s).len() >= 1,
        s.len() >= 1 && is_ws(s.last()) ==> words(s) == words(s.drop_last()),
    decreases s.len(),
{
    if s.len() > 0 {
        lemma_words_last_nonempty(s.drop_last());
    }
}

// ---------------------------------------------------------------------------
// Executable helpers
// ---------------------------------------------------------------------------

/// Appends one character to a string (`String::push`).
#[verifier::external_body]
fn push_char(s: &mut String, c: char)
    ensures
        final(s)@ == old(s)@.push(c),
{
    s.push(c);
}

/// The characters of a string slice, in order.
pub fn chars_of(s: &str) -> (out: Vec<char>)
    ensures
        out@ == s@,
{
    let mut out: Vec<char> = Vec::new();
    for c in it: s.chars()
        invariant
            out@ == it.seq().take(it.index() as int),
    {
        out.push(c);
    }
    out
}

/// Builds a string from a sequence of characters.
pub fn string_from_chars(v: &[char]) -> (s: String)
    ensures
        s@ == v@,
{
    let mut s = String::new();
    let mut i: usize = 0;
    while i < v.len()
        invariant
            i <= v@.len(),
            s@ == v@.take(i as int),
        decreases v@.len() - i,
    {
        push_char(&mut s, v[i]);
        i += 1;
        assert(v@.take(i as int) == v@.take((i - 1) as int).push(v@[i - 1]));
    }
    assert(v@.take(v@.len() as int) == v@);
    s
}

/// Appends all characters of `v` to `out`.
pub fn push_chars(out: &mut Vec<char>, v: &[char])
    ensures
        final(out)@ == old(out)@ + v@,
{
    let mut i: usize = 0;
    while i < v.len()
        invariant
            i <= v@.len(),
            out@ == old(out)@ + v@.take(i as int),
        decreases v@.len() - i,
    {
        out.push(v[i]);
        i += 1;
        assert(v@.take(i as int) == v@.take((i - 1) as int).push(v@[i - 1]));
    }
    assert(v@.take(v@.len() as int) == v@);
}

/// Copies a slice of characters into a vector.
pub fn to_vec(v: &[char]) -> (out: Vec<char>)
    ensures
        out@ == v@,
{
    let mut out: Vec<char> = Vec::new();
    push_chars(&mut out, v);
    out
}

/// The characters `v[from..to]`.
pub fn slice_chars(v: &[char], from: usize, to: usize) -> (out: Vec<char>)
    requires
        from <= to <= v@.len(),
    ensures
        out@ == v@.subrange(from as int, to as int),
{
    let mut out: Vec<char> = Vec::new();
    let mut i = from;
    while i < to
        invariant
            from <= i <= to <= v@.len(),
            out@ == v@.subrange(from as int, i as int),
        decreases to - i,
    {
        out.push(v[i]);
        i += 1;
        assert(v@.subrange(from as int, i as int) == v@.subrange(from as int, (i - 1) as int).push(
            v@[i - 1],
        ));
    }
    out
}

/// Whether two character sequences are equal.
pub fn chars_eq(a: &[char], b: &[char]) -> (r: bool)
    ensures
        r == (a@ == b@),
{
    if a.len() != b.len() {
        return false;
    }
    let mut i: usize = 0;
    while i < a.len()
        invariant
            a@.len() == b@.len(),
            i <= a@.len(),
            forall|j: int| 0 <= j < i ==> a@[j] == b@[j],
        decreases a@.len() - i,
    {
        if a[i] != b[i] {
            return false;
        }
        i += 1;
    }
    assert(a@ =~= b@);
    true
}

/// Whether `p` occurs in `s` at position `at`.
pub fn matches_at(s: &[char], p: &[char], at: usize) -> (r: bool)
    ensures
        r == occurs_at(s@, p@, at as int),
{
    let slen = s.len();
    if at > slen || p.len() > slen - at {
        return false;
    }
    let mut i: usize = 0;
    while i < p.len()
        invariant
            slen == s@.len(),
            at + p@.len() <= s@.len(),
            at <= s@.len(),
            i <= p@.len(),
            forall|j: int| 0 <= j < i ==> s@[at + j] == p@[j],
        decreases p@.len() - i,
    {
        assert(at + i < s@.len());
        if s[at + i] != p[i] {
            assert(s@.subrange(at as int, at + p@.len())[i as int] != p@[i as int]);
            return false;
        }
        i += 1;
    }
    assert(s@.subrange(at as int, at + p@.len()) =~= p@);
    true
}

/// Whether `s` begins with `p`.
pub fn has_prefix(s: &[char], p: &[char]) -> (r: bool)
    ensures
        r == starts_with(s@, p@),
{
    let r = matches_at(s, p, 0);
    proof {
        if p@.len() <= s@.len() {
            assert(s@.subrange(0, p@.len() as int) == s@.take(p@.len() as int));
        }
    }
    r
}

/// Whether `s` ends with `p`.
pub fn has_suffix(s: &[char], p: &[char]) -> (r: bool)
    ensures
        r == ends_with(s@, p@),
{
    if p.len() > s.len() {
        return false;
    }
    let r = matches_at(s, p, s.len() - p.len());
    proof {
        assert(s@.subrange(s@.len() - p@.len(), s@.len() as int) == s@.skip(
            s@.len() - p@.len(),
        ));
    }
    r
}

/// The first position at which `p` occurs in `s`.
pub fn find_seq(s: &[char], p: &[char]) -> (r: Option<usize>)
    ensures
        match r {
            Some(i) => first_occurrence(s@, p@, i as int),
            None => !contains_seq(s@, p@),
        },
{
    let mut i: usize = 0;
    loop
        invariant
            i <= s@.len(),
            forall|j: int| 0 <= j < i ==> !occurs_at(s@, p@, j),
        ensures
            forall|j: int| 0 <= j <= s@.len() ==> !occurs_at(s@, p@, j),
        decreases s@.len() - i,
    {
        if matches_at(s, p, i) {
            return Some(i);
        }
        if i == s.len() {
            break;
        }
        i += 1;
    }
    None
}

/// Whether `p` occurs in `s`.
pub fn contains_chars(s: &[char], p: &[char]) -> (r: bool)
    ensures
        r == contains_seq(s@, p@),
{
    find_seq(s, p).is_some()
}

/// Whether `c` occurs in `s`.
pub fn contains_char(s: &[char], c: char) -> (r: bool)
    ensures
        r == s@.contains(c),
{
    let mut i: usize = 0;
    while i < s.len()
        invariant
            i <= s@.len(),
            forall|j: int| 0 <= j < i ==> s@[j] != c,
        decreases s@.len() - i,
    {
        if s[i] == c {
            return true;
        }
        i += 1;
    }
    false
}

/// `char::is_whitespace`.
pub fn is_whitespace(c: char) -> (r: bool)
    ensures
        r == is_ws(c),
{
    ('\u{9}' <= c && c <= '\u{d}') || c == ' ' || c == '\u{85}' || c == '\u{a0}' || c
        == '\u{1680}' || ('\u{2000}' <= c && c <= '\u{200a}') || c == '\u{2028}' || c
        == '\u{2029}' || c == '\u{202f}' || c == '\u{205f}' || c == '\u{3000}'
}

/// The views of a sequence of character vectors.
pub open spec fn views(v: Seq<Vec<char>>) -> Seq<Seq<char>> {
    Seq::new(v.len(), |i: int| v[i]@)
}

/// Splits `s` at every occurrence of `sep` (`str::split` with a char).
pub fn split_chars(s: &[char], sep: char) -> (out: Vec<Vec<char>>)
    ensures
        views(out@) == split_on(s@, sep),
{
    let mut out: Vec<Vec<char>> = Vec::new();
    let mut cur: Vec<char> = Vec::new();
    let mut i: usize = 0;
    assert(s@.take(0) =~= Seq::<char>::empty());
    assert(views(out@).push(cur@) =~= split_on(s@.take(0), sep));
    while i < s.len()
        invariant
            i <= s@.len(),
            views(out@).push(cur@) == split_on(s@.take(i as int), sep),
        decreases s@.len() - i,
    {
        let c = s[i];
        let ghost prev = s@.take(i as int);
        assert(s@.take(i + 1).drop_last() =~= prev);
        assert(s@.take(i + 1).last() == c);
        proof { lemma_split_nonempty(prev, sep); }
        if c == sep {
            let done = cur;
            out.push(done);
            cur = Vec::new();
            assert(views(out@).push(cur@) =~= split_on(prev, sep).push(Seq::<char>::empty()));
        } else {
            cur.push(c);
            let ghost p = split_on(prev, sep);
            assert(views(out@).push(cur@) =~= p.update(p.len() - 1, p.last().push(c)));
        }
        i += 1;
    }
    assert(s@.take(s@.len() as int) =~= s@);
    out.push(cur);
    assert(views(out@) =~= split_on(s@, sep));
    out
}

/// Removes one trailing carriage return.
pub fn strip_cr_chars(s: &[char]) -> (out: Vec<char>)
    ensures
        out@ == strip_cr(s@),
{
    if s.len() > 0 && s[s.len() - 1] == '\r' {
        slice_chars(s, 0, s.len() - 1)
    } else {
        to_vec(s)
    }
}

/// The lines of `s`, as `str::lines` yields them.
pub fn lines_chars(s: &[char]) -> (out: Vec<Vec<char>>)
    ensures
        views(out@) == lines_of(s@),
{
    let pieces = split_chars(s, '\n');
    proof {
        lemma_split_nonempty(s@, '\n');
    }
    let np = pieces.len();
    assert(views(pieces@)[np - 1] == pieces@[np - 1]@);
    let n = if pieces[np - 1].len() == 0 {
        np - 1
    } else {
        np
    };
    let ghost p = split_on(s@, '\n');
    let mut out: Vec<Vec<char>> = Vec::new();
    let mut i: usize = 0;
    while i < n
        invariant
            n <= np,
            np == pieces@.len(),
            views(pieces@) == p,
            i <= n,
            out@.len() == i,
            forall|k: int|
                0 <= k < i ==> out@[k]@ == (if k + 1 < p.len() {
                    strip_cr(p[k])
                } else {
                    p[k]
                }),
        decreases n - i,
    {
        assert(views(pieces@)[i as int] == pieces@[i as int]@);
        if i + 1 < np {
            let line = strip_cr_chars(&pieces[i]);
            out.push(line);
        } else {
            let line = to_vec(&pieces[i]);
            out.push(line);
        }
        i += 1;
    }
    assert(views(out@) =~= lines_of(s@));
    out
}

/// Trimming the start drops exactly the leading white space.
pub proof fn lemma_trim_start_skip(s: Seq<char>, a: int)
    requires
        0 <= a <= s.len(),
        forall|j: int| 0 <= j < a ==> is_ws(#[trigger] s[j]),
        a == s.len() || !is_ws(s[a]),
    ensures
        trim_start(s) == s.skip(a),
    decreases a,
{
    if a == 0 {
        assert(s.skip(0) =~= s);
    } else {
        let t = s.drop_first();
        assert forall|j: int| 0 <= j < a - 1 implies is_ws(#[trigger] t[j]) by {
            assert(t[j] == s[j + 1]);
        }
        if a - 1 < t.len() {
            assert(t[a - 1] == s[a]);
        }
        lemma_trim_start_skip(t, a - 1);
        assert(t.skip(a - 1) =~= s.skip(a));
    }
}

/// Trimming the end drops exactly the trailing white space.
pub proof fn lemma_trim_end_take(s: Seq<char>, b: int)
    requires
        0 <= b <= s.len(),
        forall|j: int| b <= j < s.len() ==> is_ws(#[trigger] s[j]),
        b == 0 || !is_ws(s[b - 1]),
    ensures
        trim_end(s) == s.take(b),
    decreases s.len() - b,
{
    if b == s.len() {
        assert(s.take(b) =~= s);
    } else {
        let t = s.drop_last();
        assert forall|j: int| b <= j < t.len() implies is_ws(#[trigger] t[j]) by {
            assert(t[j] == s[j]);
        }
        if b > 0 {
            assert(t[b - 1] == s[b - 1]);
        }
        lemma_trim_end_take(t, b);
        assert(t.take(b) =~= s.take(b));
    }
}

/// `str::trim`: removes leading and trailing whitespace.
pub fn trim_chars(s: &[char]) -> (out: Vec<char>)
    ensures
        out@ == trim(s@),
{
    let mut a: usize = 0;
    while a < s.len() && is_whitespace(s[a])
        invariant
            a <= s@.len(),
            forall|j: int| 0 <= j < a ==> is_ws(#[trigger] s@[j]),
        decreases s@.len() - a,
    {
        a += 1;
    }
    proof {
        lemma_trim_start_skip(s@, a as int);
    }
    let mut b: usize = s.len();
    while b > a && is_whitespace(s[b - 1])
        invariant
            a <= b <= s@.len(),
            forall|j: int| b <= j < s@.len() ==> is_ws(#[trigger] s@[j]),
        decreases b,
    {
        b -= 1;
    }
    let ghost t = s@.skip(a as int);
    proof {
        assert forall|j: int| (b - a) <= j < t.len() implies is_ws(#[trigger] t[j]) by {
            assert(t[j] == s@[j + a]);
        }
        if b > a {
            assert(t[b - a - 1] == s@[b - 1]);
        }
        lemma_trim_end_take(t, (b - a) as int);
        assert(t.take((b - a) as int) =~= s@.subrange(a as int, b as int));
    }
    slice_chars(s, a, b)
}

/// Trimming a character from the end drops exactly its trailing copies.
pub proof fn lemma_trim_end_char_take(s: Seq<char>, c: char, b: int)
    requires
        0 <= b <= s.len(),
        forall|j: int| b <= j < s.len() ==> #[trigger] s[j] == c,
        b == 0 || s[b - 1] != c,
    ensures
        trim_end_char(s, c) == s.take(b),
    decreases s.len() - b,
{
    if b == s.len() {
        assert(s.take(b) =~= s);
    } else {
        let t = s.drop_last();
        assert forall|j: int| b <= j < t.len() implies #[trigger] t[j] == c by {
            assert(t[j] == s[j]);
        }
        if b > 0 {
            assert(t[b - 1] == s[b - 1]);
        }
        lemma_trim_end_char_take(t, c, b);
        assert(t.take(b) =~= s.take(b));
    }
}

/// `str::trim_end_matches` with a single character.
pub fn trim_end_char_chars(s: &[char], c: char) -> (out: Vec<char>)
    ensures
        out@ == trim_end_char(s@, c),
{
    let mut b: usize = s.len();
    while b > 0 && s[b - 1] == c
        invariant
            b <= s@.len(),
            forall|j: int| b <= j < s@.len() ==> #[trigger] s@[j] == c,
        decreases b,
    {
        b -= 1;
    }
    proof {
        lemma_trim_end_char_take(s@, c, b as int);
        assert(s@.take(b as int) =~= s@.subrange(0, b as int));
    }
    slice_chars(s, 0, b)
}

/// A prefix of a digit string has no greater value than the whole string.
pub proof fn lemma_digits_monotone(s: Seq<char>, i: int)
    requires
        0 <= i <= s.len(),
    ensures
        digits_value(s.take(i)) <= digits_value(s),
    decreases s.len() - i,
{
    if i < s.len() {
        lemma_digits_monotone(s.drop_last(), i);
        assert(s.drop_last().take(i) =~= s.take(i));
        if s.len() > 0 {
            assert(digits_value(s) >= digits_value(s.drop_last()));
        }
    } else {
        assert(s.take(i) =~= s);
    }
}

/// `str::parse::<usize>`.
pub fn parse_usize(s: &[char]) -> (r: Option<usize>)
    ensures
        r == parse_usize_spec(s@),
{
    let start: usize = if s.len() > 0 && s[0] == '+' {
        1
    } else {
        0
    };
    let ghost d = if s@.len() > 0 && s@[0] == '+' {
        s@.drop_first()
    } else {
        s@
    };
    assert(d =~= s@.skip(start as int));
    if start >= s.len() {
        return None;
    }
    let mut value: usize = 0;
    let mut i: usize = start;
    while i < s.len()
        invariant
            start <= i <= s@.len(),
            start < s@.len(),
            start == (if s@.len() > 0 && s@[0] == '+' { 1int } else { 0int }),
            d == s@.skip(start as int),
            forall|j: int| 0 <= j < i - start ==> is_digit(#[trigger] d[j]),
            value == digits_value(d.take(i - start)),
        decreases s@.len() - i,
    {
        let c = s[i];
        let ghost k = i - start;
        assert(d[k] == c);
        if !('0' <= c && c <= '9') {
            assert(!is_digit(d[k]));
            assert(0 <= k < d.len());
            assert(!(forall|j: int| 0 <= j < d.len() ==> is_digit(#[trigger] d[j])));
            assert(d == (if s@.len() > 0 && s@[0] == '+' { s@.drop_first() } else { s@ }));
            return None;
        }
        assert(d.take(k + 1).drop_last() =~= d.take(k));
        let dv = (c as u32 - '0' as u32) as usize;
        proof {
            assert forall|j: int| 0 <= j < k + 1 implies is_digit(#[trigger] d.take(k + 1)[j]) by {
                assert(d.take(k + 1)[j] == d[j]);
            }
            lemma_digits_monotone(d, k + 1);
        }
        match value.checked_mul(10) {
            Some(v10) => match v10.checked_add(dv) {
                Some(v) => {
                    value = v;
                },
                None => {
                    assert(digits_value(d.take(k + 1)) > usize::MAX);
                    assert(d == (if s@.len() > 0 && s@[0] == '+' { s@.drop_first() } else { s@ }));
                    return None;
                },
            },
            None => {
                assert(digits_value(d.take(k + 1)) > usize::MAX);
                assert(d == (if s@.len() > 0 && s@[0] == '+' { s@.drop_first() } else { s@ }));
                return None;
            },
        }
        i += 1;
    }
    assert(d.take(d.len() as int) =~= d);
    Some(value)
}

/// Decimal digits of `n`, as `Display` prints it.
pub fn usize_to_chars(n: usize) -> (out: Vec<char>)
    ensures
        out@ == decimal(n as nat),
    decreases n,
{
    let d = n % 10;
    let c = char_of_digit(d);
    if n < 10 {
        let mut out = Vec::new();
        out.push(c);
        proof {
            assert(out@ =~= seq![digit_char(n as nat)]);
        }
        out
    } else {
        let mut out = usize_to_chars(n / 10);
        out.push(c);
        out
    }
}

/// The digit character for `d < 10`.
pub fn char_of_digit(d: usize) -> (c: char)
    requires
        d < 10,
    ensures
        c == digit_char(d as nat),
{
    if d == 0 {
        '0'
    } else if d == 1 {
        '1'
    } else if d == 2 {
        '2'
    } else if d == 3 {
        '3'
    } else if d == 4 {
        '4'
    } else if d == 5 {
        '5'
    } else if d == 6 {
        '6'
    } else if d == 7 {
        '7'
    } else if d == 8 {
        '8'
    } else {
        '9'
    }
}

/// `str::split_whitespace`.
pub fn words_chars(s: &[char]) -> (out: Vec<Vec<char>>)
    ensures
        views(out@) == words(s@),
{
    let mut out: Vec<Vec<char>> = Vec::new();
    let mut i: usize = 0;
    assert(s@.take(0) =~= Seq::<char>::empty());
    while i < s.len()
        invariant
            i <= s@.len(),
            views(out@) == words(s@.take(i as int)),
        decreases s@.len() - i,
    {
        let c = s[i];
        let ghost prev = s@.take(i as int);
        let ghost next = s@.take(i + 1);
        assert(next.drop_last() =~= prev);
        assert(next.last() == c);
        if is_whitespace(c) {
        } else if i >= 1 && !is_whitespace(s[i - 1]) {
            assert(next[next.len() - 2] == s@[i - 1]);
            proof {
                lemma_words_last_nonempty(prev);
                assert(prev.last() == s@[i - 1]);
            }
            let last = out.len() - 1;
            assert(views(out@)[last as int] == out@[last as int]@);
            let mut w = to_vec(&out[last]);
            w.push(c);
            out.set(last, w);
            assert(views(out@) =~= words(prev).update(
                words(prev).len() - 1,
                words(prev).last().push(c),
            ));
        } else {
            if i >= 1 {
                assert(next[next.len() - 2] == s@[i - 1]);
            }
            let mut w: Vec<char> = Vec::new();
            w.push(c);
            out.push(w);
            assert(views(out@) =~= words(prev).push(seq![c]));
        }
        i += 1;
    }
    assert(s@.take(s@.len() as int) =~= s@);
    out
}


// ---------------------------------------------------------------------------
// UTF-8 sizes
// ---------------------------------------------------------------------------

/// The bytes a character takes in UTF-8.
pub open spec fn utf8_len(c: char) -> nat {
    encode_scalar(c as u32).len()
}

/// The bytes a text takes in UTF-8.
pub open spec fn utf8_size(s: Seq<char>) -> nat
    decreases s.len(),
{
    if s.len() == 0 {
        0
    } else {
        utf8_len(s[0]) + utf8_size(s.drop_first())
    }
}

/// How many leading characters take exactly the first `b` bytes of the
/// text, when a character starts (or the text ends) at byte `b`; `None`
/// when byte `b` falls inside a character or past the end.
pub open spec fn chars_in_bytes(s: Seq<char>, b: int) -> Option<nat>
    decreases s.len(),
{
    if b == 0 {
        Some(0)
    } else if b < 0 || s.len() == 0 {
        None
    } else {
        match chars_in_bytes(s.drop_first(), b - utf8_len(s[0])) {
            Some(k) => Some(k + 1),
            None => None,
        }
    }
}

/// Whether a character is ASCII (one byte in UTF-8).
pub open spec fn is_ascii_char(c: char) -> bool {
    (c as u32) < 0x80
}

/// The bytes a character takes in UTF-8.
pub fn char_utf8_len(c: char) -> (n: usize)
    ensures
        n == utf8_len(c),
        1 <= n <= 4,
{
    let v = c as u32;
    if v <= 0x7f {
        1
    } else if v <= 0x7ff {
        2
    } else if v <= 0xffff {
        3
    } else {
        4
    }
}

/// Whether `s` takes at least `n` bytes in UTF-8.
pub fn utf8_at_least(s: &[char], n: usize) -> (r: bool)
    ensures
        r == (utf8_size(s@) >= n),
{
    let mut i: usize = 0;
    let mut used: usize = 0;
    assert(s@.skip(0) =~= s@);
    while i < s.len()
        invariant
            i <= s@.len(),
            used < n || n == 0,
            utf8_size(s@) == used + utf8_size(s@.skip(i as int)),
        decreases s@.len() - i,
    {
        if used >= n {
            return true;
        }
        let c = char_utf8_len(s[i]);
        assert(s@.skip(i as int).drop_first() =~= s@.skip(i + 1));
        if c >= n - used {
            proof {
                lemma_utf8_size_nonneg(s@.skip(i + 1));
            }
            return true;
        }
        used = used + c;
        i += 1;
    }
    assert(s@.skip(i as int) =~= Seq::<char>::empty());
    used >= n
}

/// A size is never negative (stated for the solver).
proof fn lemma_utf8_size_nonneg(s: Seq<char>)
    ensures
        utf8_size(s) >= 0,
{
}

/// The number of leading characters that take exactly the first `b` bytes
/// of `s`, when a character starts (or the text ends) at byte `b`.
pub fn chars_within_bytes(s: &[char], b: usize) -> (r: Option<usize>)
    ensures
        match r {
            Some(k) => chars_in_bytes(s@, b as int) == Some(k as nat) && k <= s@.len(),
            None => chars_in_bytes(s@, b as int) is None,
        },
{
    let mut i: usize = 0;
    let mut left: usize = b;
    assert(s@.skip(0) =~= s@);
    while left > 0
        invariant
            i <= s@.len(),
            chars_in_bytes(s@, b as int) == match chars_in_bytes(s@.skip(i as int), left as int) {
                Some(k) => Some((k + i) as nat),
                None => None::<nat>,
            },
        decreases left,
    {
        if i == s.len() {
            assert(s@.skip(i as int).len() == 0);
            return None;
        }
        let c = char_utf8_len(s[i]);
        assert(s@.skip(i as int).drop_first() =~= s@.skip(i + 1));
        assert(s@.skip(i as int)[0] == s@[i as int]);
        if c > left {
            assert(chars_in_bytes(s@.skip(i + 1), left as int - c as int) is None);
            return None;
        }
        left = left - c;
        i += 1;
    }
    Some(i)
}

} // verus!
