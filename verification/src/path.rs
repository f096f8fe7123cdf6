//! Paths held as strings, with the component semantics of Unix `std::path`.
//!
//! A path's identity is its list of components: a leading `/` is the root, a
//! leading `.` (only in `.` or `./...`) the current directory, and empty or `.`
//! segments elsewhere are ignored. Equality, file names, parents and prefix
//! stripping are defined over that list.

use vstd::prelude::*;
use crate::text::{chars_eq, push_chars, split_chars, split_on, starts_with, to_vec, views};

verus! {

/// The root component.
pub open spec fn root_comp() -> Seq<char> {
    seq!['/']
}

/// The current-directory component.
pub open spec fn cur_comp() -> Seq<char> {
    seq!['.']
}

/// The parent-directory component.
pub open spec fn parent_comp() -> Seq<char> {
    seq!['.', '.']
}

/// A segment that names something (neither empty nor `.`).
pub open spec fn keep_seg(p: Seq<char>) -> bool {
    p.len() > 0 && p != cur_comp()
}

/// The segments that survive normalization, in order.
pub open spec fn norm_segs(p: Seq<Seq<char>>) -> Seq<Seq<char>>
    decreases p.len(),
{
    if p.len() == 0 {
        Seq::empty()
    } else if keep_seg(p.last()) {
        norm_segs(p.drop_last()).push(p.last())
    } else {
        norm_segs(p.drop_last())
    }
}

/// The leading component that is not a segment: the root, or a leading `.`.
pub open spec fn head_comps(s: Seq<char>) -> Seq<Seq<char>> {
    if s.len() > 0 && s[0] == '/' {
        seq![root_comp()]
    } else if s == cur_comp() || starts_with(s, seq!['.', '/']) {
        seq![cur_comp()]
    } else {
        Seq::empty()
    }
}

/// The components of a path, as `Path::components` yields them on Unix.
pub open spec fn path_comps(s: Seq<char>) -> Seq<Seq<char>> {
    head_comps(s) + norm_segs(split_on(s, '/'))
}

/// Two paths are equal when their components are (`Path`'s `==`).
pub open spec fn same_path(a: Seq<char>, b: Seq<char>) -> bool {
    path_comps(a) == path_comps(b)
}

/// A component that names a file or directory.
pub open spec fn is_normal(c: Seq<char>) -> bool {
    c != root_comp() && c != cur_comp() && c != parent_comp()
}

/// `Path::file_name`.
pub open spec fn file_name_of(s: Seq<char>) -> Option<Seq<char>> {
    let c = path_comps(s);
    if c.len() > 0 && is_normal(c.last()) {
        Some(c.last())
    } else {
        None
    }
}

/// Components joined by `sep`.
pub open spec fn join_with(c: Seq<Seq<char>>, sep: char) -> Seq<char>
    decreases c.len(),
{
    if c.len() == 0 {
        Seq::empty()
    } else if c.len() == 1 {
        c[0]
    } else {
        join_with(c.drop_last(), sep).push(sep) + c.last()
    }
}

/// The path whose components are `c`.
pub open spec fn comps_string(c: Seq<Seq<char>>) -> Seq<char> {
    if c.len() > 0 && c[0] == root_comp() {
        seq!['/'] + join_with(c.drop_first(), '/')
    } else {
        join_with(c, '/')
    }
}

/// `Path::parent`.
pub open spec fn parent_of(s: Seq<char>) -> Option<Seq<char>> {
    let c = path_comps(s);
    if c.len() > 0 && c.last() != root_comp() {
        Some(comps_string(c.drop_last()))
    } else {
        None
    }
}

/// `Path::join`: an absolute `other` replaces `base`, otherwise a separator
/// is inserted unless `base` is empty or already ends with one.
pub open spec fn join_path(base: Seq<char>, other: Seq<char>) -> Seq<char> {
    if other.len() > 0 && other[0] == '/' {
        other
    } else if base.len() == 0 || base.last() == '/' {
        base + other
    } else {
        base.push('/') + other
    }
}

/// `Path::strip_prefix`, displayed: the components after `base`'s.
pub open spec fn strip_prefix_of(path: Seq<char>, base: Seq<char>) -> Option<Seq<char>> {
    let cp = path_comps(path);
    let cb = path_comps(base);
    if cb.is_prefix_of(cp) {
        Some(comps_string(cp.skip(cb.len() as int)))
    } else {
        None
    }
}

/// Normalizing one more segment keeps it when it names something and drops
/// it otherwise.
pub proof fn lemma_norm_segs_step(p: Seq<Seq<char>>, i: int)
    requires
        0 <= i < p.len(),
    ensures
        norm_segs(p.take(i + 1)) == (if keep_seg(p[i]) {
            norm_segs(p.take(i)).push(p[i])
        } else {
            norm_segs(p.take(i))
        }),
{
    assert(p.take(i + 1).drop_last() =~= p.take(i));
    assert(p.take(i + 1).last() == p[i]);
}

/// The components of a path.
pub fn components(s: &[char]) -> (out: Vec<Vec<char>>)
    ensures
        views(out@) == path_comps(s@),
{
    let mut out: Vec<Vec<char>> = Vec::new();
    if s.len() > 0 && s[0] == '/' {
        let mut r: Vec<char> = Vec::new();
        r.push('/');
        out.push(r);
    } else if (s.len() == 1 && s[0] == '.') || (s.len() >= 2 && s[0] == '.' && s[1] == '/') {
        let mut r: Vec<char> = Vec::new();
        r.push('.');
        out.push(r);
        proof {
            if s@.len() == 1 {
                assert(s@ =~= cur_comp());
            } else {
                assert(s@.take(2) =~= seq!['.', '/']);
            }
        }
    } else {
        proof {
            if s@.len() >= 2 {
                assert(s@.take(2)[0] == s@[0]);
                assert(s@.take(2)[1] == s@[1]);
            }
        }
    }
    assert(views(out@) =~= head_comps(s@));
    let ghost head = views(out@);
    let pieces = split_chars(s, '/');
    let mut i: usize = 0;
    assert(pieces@.take(0) =~= Seq::<Vec<char>>::empty());
    assert(views(pieces@).take(0) =~= Seq::<Seq<char>>::empty());
    while i < pieces.len()
        invariant
            i <= pieces@.len(),
            views(pieces@) == split_on(s@, '/'),
            views(out@) == head + norm_segs(views(pieces@).take(i as int)),
        decreases pieces@.len() - i,
    {
        proof {
            lemma_norm_segs_step(views(pieces@), i as int);
        }
        assert(views(pieces@)[i as int] == pieces@[i as int]@);
        let keep = pieces[i].len() > 0 && !(pieces[i].len() == 1 && pieces[i][0] == '.');
        proof {
            let q = pieces@[i as int]@;
            if q.len() == 1 && q[0] == '.' {
                assert(q =~= cur_comp());
            }
            if q == cur_comp() {
                assert(q[0] == '.');
            }
        }
        if keep {
            let seg = to_vec(&pieces[i]);
            let ghost old_v = views(out@);
            out.push(seg);
            assert(views(out@) =~= old_v.push(pieces@[i as int]@));
            assert(views(out@) =~= head + norm_segs(views(pieces@).take(i as int)).push(
                views(pieces@)[i as int],
            ));
        }
        i += 1;
    }
    assert(views(pieces@).take(pieces@.len() as int) =~= views(pieces@));
    out
}

/// Whether two character vectors hold the same sequence of components.
pub fn comps_eq(a: &Vec<Vec<char>>, b: &Vec<Vec<char>>) -> (r: bool)
    ensures
        r == (views(a@) == views(b@)),
{
    if a.len() != b.len() {
        assert(views(a@).len() != views(b@).len());
        return false;
    }
    let mut i: usize = 0;
    while i < a.len()
        invariant
            a@.len() == b@.len(),
            i <= a@.len(),
            forall|j: int| 0 <= j < i ==> a@[j]@ == b@[j]@,
        decreases a@.len() - i,
    {
        if !chars_eq(&a[i], &b[i]) {
            assert(views(a@)[i as int] != views(b@)[i as int]);
            return false;
        }
        i += 1;
    }
    assert(views(a@) =~= views(b@));
    true
}

/// `Path`'s `==`: component-wise equality.
pub fn path_eq(a: &[char], b: &[char]) -> (r: bool)
    ensures
        r == same_path(a@, b@),
{
    let ca = components(a);
    let cb = components(b);
    comps_eq(&ca, &cb)
}

/// Joins the items of `c` (from index `from` on) with `sep`.
pub fn join_chars(c: &Vec<Vec<char>>, from: usize, sep: char) -> (out: Vec<char>)
    requires
        from <= c@.len(),
    ensures
        out@ == join_with(views(c@).skip(from as int), sep),
{
    let mut out: Vec<char> = Vec::new();
    let mut i = from;
    let ghost v = views(c@).skip(from as int);
    assert(v.take(0) =~= Seq::<Seq<char>>::empty());
    while i < c.len()
        invariant
            from <= i <= c@.len(),
            v == views(c@).skip(from as int),
            out@ == join_with(v.take(i - from), sep),
        decreases c@.len() - i,
    {
        let ghost k = i - from;
        assert(v.take(k + 1).drop_last() =~= v.take(k));
        assert(v.take(k + 1).last() == c@[i as int]@);
        if i > from {
            out.push(sep);
        }
        push_chars(&mut out, &c[i]);
        proof {
            if k == 0 {
                assert(v.take(1) =~= seq![c@[i as int]@]);
                assert(out@ =~= c@[i as int]@);
            }
        }
        i += 1;
    }
    assert(v.take(c@.len() - from) =~= v);
    out
}

/// The path string for a list of components.
pub fn comps_to_chars(c: &Vec<Vec<char>>, from: usize) -> (out: Vec<char>)
    requires
        from <= c@.len(),
    ensures
        out@ == comps_string(views(c@).skip(from as int)),
{
    let ghost v = views(c@).skip(from as int);
    if from < c.len() && c[from].len() == 1 && c[from][0] == '/' {
        assert(v[0] == c@[from as int]@);
        assert(v[0] =~= root_comp());
        let mut out: Vec<char> = Vec::new();
        out.push('/');
        let rest = join_chars(c, from + 1, '/');
        assert(views(c@).skip(from + 1) =~= v.drop_first());
        push_chars(&mut out, &rest);
        assert(out@ =~= seq!['/'] + join_with(v.drop_first(), '/'));
        out
    } else {
        proof {
            if v.len() > 0 {
                assert(v[0] == c@[from as int]@);
                if v[0] == root_comp() {
                    assert(v[0].len() == 1 && v[0][0] == '/');
                }
            }
        }
        join_chars(c, from, '/')
    }
}

/// `Path::file_name`.
pub fn file_name(s: &[char]) -> (r: Option<Vec<char>>)
    ensures
        match r {
            Some(n) => file_name_of(s@) == Some(n@),
            None => file_name_of(s@) is None,
        },
{
    let c = components(s);
    if c.len() == 0 {
        return None;
    }
    let last = &c[c.len() - 1];
    assert(views(c@).last() == last@);
    let is_root = last.len() == 1 && last[0] == '/';
    let is_cur = last.len() == 1 && last[0] == '.';
    let is_par = last.len() == 2 && last[0] == '.' && last[1] == '.';
    proof {
        if is_root {
            assert(last@ =~= root_comp());
        }
        if is_cur {
            assert(last@ =~= cur_comp());
        }
        if is_par {
            assert(last@ =~= parent_comp());
        }
        if last@ == root_comp() || last@ == cur_comp() {
            assert(last@[0] == last@[0]);
        }
        if last@ == parent_comp() {
            assert(last@[1] == '.');
        }
    }
    if is_root || is_cur || is_par {
        None
    } else {
        Some(to_vec(last))
    }
}

/// `Path::parent`, as a path string.
pub fn parent(s: &[char]) -> (r: Option<Vec<char>>)
    ensures
        match r {
            Some(p) => parent_of(s@) == Some(p@),
            None => parent_of(s@) is None,
        },
{
    let mut c = components(s);
    if c.len() == 0 {
        return None;
    }
    let n = c.len();
    assert(views(c@).last() == c@[n - 1]@);
    if c[n - 1].len() == 1 && c[n - 1][0] == '/' {
        assert(c@[n - 1]@ =~= root_comp());
        return None;
    }
    proof {
        if c@[n - 1]@ == root_comp() {
            assert(c@[n - 1]@[0] == '/');
        }
    }
    let ghost full = views(c@);
    c.pop();
    assert(views(c@) =~= full.drop_last());
    assert(views(c@).skip(0) =~= views(c@));
    let out = comps_to_chars(&c, 0);
    Some(out)
}

/// `Path::join`.
pub fn join(base: &[char], other: &[char]) -> (out: Vec<char>)
    ensures
        out@ == join_path(base@, other@),
{
    if other.len() > 0 && other[0] == '/' {
        return to_vec(other);
    }
    let mut out = to_vec(base);
    if !(base.len() == 0 || base[base.len() - 1] == '/') {
        out.push('/');
    }
    push_chars(&mut out, other);
    out
}

/// `Path::strip_prefix`, displayed.
pub fn strip_prefix(path: &[char], base: &[char]) -> (r: Option<Vec<char>>)
    ensures
        match r {
            Some(p) => strip_prefix_of(path@, base@) == Some(p@),
            None => strip_prefix_of(path@, base@) is None,
        },
{
    let cp = components(path);
    let cb = components(base);
    if cb.len() > cp.len() {
        return None;
    }
    let mut i: usize = 0;
    while i < cb.len()
        invariant
            cb@.len() <= cp@.len(),
            views(cp@) == path_comps(path@),
            views(cb@) == path_comps(base@),
            i <= cb@.len(),
            forall|j: int| 0 <= j < i ==> cb@[j]@ == cp@[j]@,
        decreases cb@.len() - i,
    {
        if !chars_eq(&cb[i], &cp[i]) {
            proof {
                let sub = views(cp@).subrange(0, cb@.len() as int);
                assert(views(cb@)[i as int] != sub[i as int]);
                assert(views(cb@) != sub);
                assert(!views(cb@).is_prefix_of(views(cp@)));
            }
            return None;
        }
        i += 1;
    }
    assert(views(cb@) =~= views(cp@).subrange(0, cb@.len() as int));
    let out = comps_to_chars(&cp, cb.len());
    Some(out)
}

} // verus!
