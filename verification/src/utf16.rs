//! Text ranges given in UTF-16 code units, as platform text input reports
//! them, mapped back to the characters of a string.

use vstd::prelude::*;
use vstd::utf8::encode_scalar;
use crate::adapter::{byte_len, lemma_encode_concat};
use crate::text::{chars_of, slice_chars, string_from_chars};

verus! {

/// How many UTF-16 code units a character takes.
pub open spec fn utf16_width(c: char) -> nat {
    if (c as u32) < 0x10000 { 1 } else { 2 }
}

/// The UTF-16 offset where character `p` of `s` starts.
pub open spec fn utf16_offset(s: Seq<char>, p: int) -> nat
    decreases p,
{
    if p <= 0 { 0 } else { utf16_offset(s, p - 1) + utf16_width(s[p - 1]) }
}

/// The first character from `p` on that ends past offset `u` (the length
/// when there is none).
pub open spec fn first_ending_after(s: Seq<char>, u: int, p: int) -> int
    decreases s.len() - p,
{
    if p >= s.len() {
        s.len() as int
    } else if utf16_offset(s, p + 1) > u {
        p
    } else {
        first_ending_after(s, u, p + 1)
    }
}

/// The first character from `p` on that starts at or past offset `u` (the
/// length when there is none).
pub open spec fn first_starting_from(s: Seq<char>, u: int, p: int) -> int
    decreases s.len() - p,
{
    if p >= s.len() {
        s.len() as int
    } else if utf16_offset(s, p) >= u {
        p
    } else {
        first_starting_from(s, u, p + 1)
    }
}

/// The characters that the UTF-16 range `start..end` covers: from the one
/// holding `start` up to (and including) the one holding the unit before
/// `end`; nothing for an empty text or range.
pub open spec fn utf16_slice(s: Seq<char>, start: int, end: int) -> Seq<char> {
    if s.len() == 0 || start >= end {
        Seq::empty()
    } else {
        let a = first_ending_after(s, start, 0);
        let b = first_starting_from(s, end, 0);
        s.subrange(a, if b > a { b } else { a })
    }
}

/// Both searches end within the text, no earlier than where they start.
proof fn lemma_search_bounds(s: Seq<char>, u: int, p: int)
    requires
        0 <= p <= s.len(),
    ensures
        p <= first_ending_after(s, u, p) <= s.len(),
        p <= first_starting_from(s, u, p) <= s.len(),
    decreases s.len() - p,
{
    if p < s.len() {
        lemma_search_bounds(s, u, p + 1);
    }
}

/// A character takes no more UTF-16 units than UTF-8 bytes.
proof fn lemma_offset_bytes(s: Seq<char>, p: int)
    requires
        0 <= p <= s.len(),
    ensures
        utf16_offset(s, p) <= byte_len(s.take(p)),
    decreases p,
{
    if p > 0 {
        lemma_offset_bytes(s, p - 1);
        assert(s.take(p) =~= s.take(p - 1) + seq![s[p - 1]]);
        lemma_encode_concat(s.take(p - 1), seq![s[p - 1]]);
        assert(seq![s[p - 1]].drop_first() =~= Seq::<char>::empty());
        assert(vstd::utf8::encode_utf8(Seq::<char>::empty()) =~= Seq::<u8>::empty());
        assert(vstd::utf8::encode_utf8(seq![s[p - 1]]) =~= encode_scalar(s[p - 1] as u32));
    }
}

/// Longer prefixes take no fewer bytes.
proof fn lemma_prefix_bytes(s: Seq<char>, p: int)
    requires
        0 <= p <= s.len(),
    ensures
        byte_len(s.take(p)) <= byte_len(s),
{
    assert(s =~= s.take(p) + s.skip(p));
    lemma_encode_concat(s.take(p), s.skip(p));
}

/// The part of `text` that the UTF-16 range covers.
pub fn slice_utf16(text: &str, range: std::ops::Range<usize>) -> (r: String)
    ensures
        r@ == utf16_slice(text@, range.start as int, range.end as int),
{
    let start = range.start;
    let end = range.end;
    let byte_count = text.as_bytes().len();
    let chars = chars_of(text);
    if chars.len() == 0 || start >= end {
        return String::new();
    }
    let ghost s = text@;
    proof {
        lemma_search_bounds(s, start as int, 0);
        lemma_search_bounds(s, end as int, 0);
    }
    let mut offset: usize = 0;
    let mut first: Option<usize> = None;
    let mut last: Option<usize> = None;
    let mut i: usize = 0;
    while i < chars.len()
        invariant_except_break
            chars@ == s,
            start < end,
            byte_len(s) == byte_count,
            i <= s.len(),
            offset == utf16_offset(s, i as int),
            last is None,
            match first {
                Some(f) => f < i && f == first_ending_after(s, start as int, 0),
                None => first_ending_after(s, start as int, 0) == first_ending_after(s, start as int, i as int),
            },
            first_starting_from(s, end as int, 0) == first_starting_from(s, end as int, i as int),
            0 <= first_ending_after(s, start as int, 0) <= s.len(),
            0 <= first_starting_from(s, end as int, 0) <= s.len(),
        ensures
            first == Some(first_ending_after(s, start as int, 0) as usize) || (first is None
                && first_ending_after(s, start as int, 0) == s.len()),
            last == Some(first_starting_from(s, end as int, 0) as usize) || (last is None
                && first_starting_from(s, end as int, 0) == s.len()),
        decreases s.len() - i,
    {
        let c = chars[i];
        let width: usize = if (c as u32) < 0x10000 { 1 } else { 2 };
        proof {
            lemma_offset_bytes(s, i + 1);
            lemma_prefix_bytes(s, i + 1);
        }
        let next = offset + width;
        if first.is_none() && start <= offset {
            first = Some(i);
        }
        if end <= offset {
            last = Some(i);
            break;
        }
        if first.is_none() && start < next {
            first = Some(i);
        }
        if end <= next {
            last = Some(i + 1);
            assert(first_starting_from(s, end as int, i + 1) == i + 1);
            break;
        }
        offset = next;
        i += 1;
    }
    let a = match first {
        Some(f) => f,
        None => chars.len(),
    };
    let b = match last {
        Some(l) => l,
        None => chars.len(),
    };
    let b = if b > a { b } else { a };
    string_from_chars(&slice_chars(&chars, a, b))
}

} // verus!
