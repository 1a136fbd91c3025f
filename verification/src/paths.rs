//! Unix path components, computed on the text of a path.
//!
//! A path is held as its text. These functions give the components the way
//! `std::path::Path` reads a Unix path: separators are `/`, repeated and
//! trailing separators and `.` components after the first are ignored.

use vstd::prelude::*;
use crate::text::{chars_of, string_of, push_char, append_str};

verus! {

/// Trailing separators and trailing `/.` components removed.
pub open spec fn trim_tail(s: Seq<char>) -> Seq<char>
    decreases s.len(),
{
    if s.len() > 0 && s.last() == '/' {
        trim_tail(s.drop_last())
    } else if s.len() >= 2 && s.last() == '.' && s[s.len() - 2] == '/' {
        trim_tail(s.drop_last())
    } else {
        s
    }
}

/// Index of the last `c` in `s`, or -1.
pub open spec fn last_index(s: Seq<char>, c: char) -> int
    decreases s.len(),
{
    if s.len() == 0 {
        -1
    } else if s.last() == c {
        s.len() - 1
    } else {
        last_index(s.drop_last(), c)
    }
}

pub proof fn lemma_last_index(s: Seq<char>, c: char)
    ensures
        -1 <= last_index(s, c) < s.len(),
        last_index(s, c) >= 0 ==> s[last_index(s, c)] == c,
        forall|j: int| last_index(s, c) < j < s.len() ==> s[j] != c,
    decreases s.len(),
{
    if s.len() > 0 && s.last() != c {
        lemma_last_index(s.drop_last(), c);
        assert forall|j: int| last_index(s, c) < j < s.len() implies s[j] != c by {
            if j < s.len() - 1 {
                assert(s[j] == s.drop_last()[j]);
            }
        }
    }
}

/// The last component of a path (trailing separators ignored).
pub open spec fn last_component(s: Seq<char>) -> Seq<char> {
    let t = trim_tail(s);
    t.skip(last_index(t, '/') + 1)
}

/// `Path::file_name`: the last component, unless there is none or it is
/// `.` or `..`.
pub open spec fn file_name(s: Seq<char>) -> Option<Seq<char>> {
    let c = last_component(s);
    if c.len() == 0 || c == seq!['.'] || c == seq!['.', '.'] {
        None
    } else {
        Some(c)
    }
}

/// Where the extension of a file name starts: after its last `.`, unless
/// that dot is the first character; `None` when there is no such dot.
pub open spec fn ext_dot(name: Seq<char>) -> Option<int> {
    let k = last_index(name, '.');
    if k <= 0 {
        None
    } else {
        Some(k)
    }
}

/// `Path::extension`.
pub open spec fn extension(s: Seq<char>) -> Option<Seq<char>> {
    match file_name(s) {
        Some(n) => match ext_dot(n) {
            Some(k) => Some(n.skip(k + 1)),
            None => None,
        },
        None => None,
    }
}

/// `Path::file_stem`.
pub open spec fn file_stem(s: Seq<char>) -> Option<Seq<char>> {
    match file_name(s) {
        Some(n) => match ext_dot(n) {
            Some(k) => Some(n.take(k)),
            None => Some(n),
        },
        None => None,
    }
}

/// `Path::parent`: the path without its last component; `None` for the
/// empty path and for the root.
pub open spec fn parent(s: Seq<char>) -> Option<Seq<char>> {
    let t = trim_tail(s);
    if t.len() == 0 {
        None
    } else {
        let k = last_index(t, '/');
        if k < 0 {
            Some(Seq::empty())
        } else {
            let p = trim_tail(t.take(k));
            if p.len() == 0 {
                Some(seq!['/'])
            } else {
                Some(p)
            }
        }
    }
}

/// `PathBuf::join` with a relative or absolute second part.
pub open spec fn join(base: Seq<char>, part: Seq<char>) -> Seq<char> {
    if part.len() > 0 && part[0] == '/' {
        part
    } else if base.len() == 0 || base.last() == '/' {
        base + part
    } else {
        base + seq!['/'] + part
    }
}

/// Length of `trim_tail(v)`.
fn trim_tail_len(v: &[char]) -> (n: usize)
    ensures
        n <= v@.len(),
        trim_tail(v@) == v@.take(n as int),
{
    let mut n = v.len();
    assert(v@.take(n as int) =~= v@);
    while n > 0 && (v[n - 1] == '/' || (n >= 2 && v[n - 1] == '.' && v[n - 2] == '/'))
        invariant
            n <= v@.len(),
            trim_tail(v@) == trim_tail(v@.take(n as int)),
        decreases n,
    {
        assert(v@.take(n as int).drop_last() =~= v@.take(n - 1));
        n -= 1;
    }
    n
}

/// `last_index` of `c` in `v[..n]`.
fn last_index_exec(v: &[char], n: usize, c: char) -> (k: Option<usize>)
    requires
        n <= v@.len(),
    ensures
        match k {
            Some(i) => last_index(v@.take(n as int), c) == i && i < n && v@[i as int] == c,
            None => last_index(v@.take(n as int), c) == -1,
        },
{
    let mut i = n;
    while i > 0
        invariant
            i <= n <= v@.len(),
            last_index(v@.take(n as int), c) == last_index(v@.take(i as int), c),
        decreases i,
    {
        if v[i - 1] == c {
            return Some(i - 1);
        }
        assert(v@.take(i as int).drop_last() =~= v@.take(i - 1));
        i -= 1;
    }
    None
}

/// Start and end of the last component of `v`.
fn last_component_bounds(v: &[char]) -> (r: (usize, usize))
    ensures
        r.0 <= r.1 <= v@.len(),
        last_component(v@) == v@.subrange(r.0 as int, r.1 as int),
        trim_tail(v@) == v@.take(r.1 as int),
{
    let n = trim_tail_len(v);
    let k = last_index_exec(v, n, '/');
    let start = match k {
        Some(i) => i + 1,
        None => 0,
    };
    proof {
        lemma_last_index(v@.take(n as int), '/');
        assert(v@.take(n as int).skip(start as int) =~= v@.subrange(start as int, n as int));
    }
    (start, n)
}

/// Where the file name of a path lies in its characters.
pub fn file_name_range(v: &[char]) -> (r: Option<(usize, usize)>)
    ensures
        match r {
            Some((a, b)) => a <= b <= v@.len() && file_name(v@) == Some(v@.subrange(a as int, b as int)),
            None => file_name(v@) is None,
        },
{
    let (a, b) = last_component_bounds(v);
    let len = b - a;
    if len == 0 {
        return None;
    }
    if len == 1 && v[a] == '.' {
        assert(v@.subrange(a as int, b as int) =~= seq!['.']);
        return None;
    }
    if len == 2 && v[a] == '.' && v[a + 1] == '.' {
        assert(v@.subrange(a as int, b as int) =~= seq!['.', '.']);
        return None;
    }
    proof {
        let c = v@.subrange(a as int, b as int);
        assert(c.len() == len);
        assert(c[0] == v@[a as int]);
        if len >= 2 {
            assert(c[1] == v@[a + 1]);
        }
        if c == seq!['.'] {
            assert(seq!['.'][0] == '.');
        }
        if c == seq!['.', '.'] {
            assert(seq!['.', '.'][0] == '.' && seq!['.', '.'][1] == '.');
        }
    }
    Some((a, b))
}

/// Where the extension of a path lies in its characters.
pub fn extension_range(v: &[char]) -> (r: Option<(usize, usize)>)
    ensures
        match r {
            Some((a, b)) => a <= b <= v@.len() && extension(v@) == Some(v@.subrange(a as int, b as int)),
            None => extension(v@) is None,
        },
{
    match file_name_range(v) {
        Some((a, b)) => {
            let mut k = b;
            while k > a && v[k - 1] != '.'
                invariant
                    a <= k <= b <= v@.len(),
                    forall|j: int| k <= j < b ==> v@[j] != '.',
                decreases k,
            {
                k -= 1;
            }
            let ghost n = v@.subrange(a as int, b as int);
            proof {
                lemma_last_index_is(n, '.', k - a - 1);
            }
            if k <= a + 1 {
                None
            } else {
                assert(n.skip(k - a) =~= v@.subrange(k as int, b as int));
                Some((k, b))
            }
        },
        None => None,
    }
}

/// `last_index` is the position of the last occurrence.
pub proof fn lemma_last_index_is(s: Seq<char>, c: char, k: int)
    requires
        -1 <= k < s.len(),
        k >= 0 ==> s[k] == c,
        forall|j: int| k < j < s.len() ==> s[j] != c,
    ensures
        last_index(s, c) == k,
    decreases s.len(),
{
    if s.len() > 0 && k < s.len() - 1 {
        lemma_last_index_is(s.drop_last(), c, k);
    }
}

/// `Path::file_name` of the text of a path.
pub fn file_name_of(path: &str) -> (r: Option<String>)
    ensures
        match r {
            Some(n) => file_name(path@) == Some(n@),
            None => file_name(path@) is None,
        },
{
    let v = chars_of(path);
    let (a, b) = last_component_bounds(v.as_slice());
    let len = b - a;
    if len == 0 {
        return None;
    }
    if len == 1 && v[a] == '.' {
        assert(v@.subrange(a as int, b as int) =~= seq!['.']);
        return None;
    }
    if len == 2 && v[a] == '.' && v[a + 1] == '.' {
        assert(v@.subrange(a as int, b as int) =~= seq!['.', '.']);
        return None;
    }
    let s = string_of(v.as_slice(), a, b);
    proof {
        let c = v@.subrange(a as int, b as int);
        assert(c.len() == len);
        assert(c[0] == v@[a as int]);
        if len >= 2 {
            assert(c[1] == v@[a + 1]);
        }
        if c == seq!['.'] {
            assert(seq!['.'][0] == '.');
        }
        if c == seq!['.', '.'] {
            assert(seq!['.', '.'][0] == '.' && seq!['.', '.'][1] == '.');
        }
    }
    Some(s)
}

/// Position of the extension dot in a file name, if any.
fn ext_dot_exec(n: &[char]) -> (r: Option<usize>)
    ensures
        match r {
            Some(k) => ext_dot(n@) == Some(k as int) && 0 < k < n@.len(),
            None => ext_dot(n@) is None,
        },
{
    assert(n@.take(n@.len() as int) =~= n@);
    match last_index_exec(n, n.len(), '.') {
        Some(k) => if k == 0 {
            None
        } else {
            Some(k)
        },
        None => None,
    }
}

/// `Path::extension` of the text of a path.
pub fn extension_of(path: &str) -> (r: Option<String>)
    ensures
        match r {
            Some(e) => extension(path@) == Some(e@),
            None => extension(path@) is None,
        },
{
    match file_name_of(path) {
        Some(name) => {
            let nv = chars_of(name.as_str());
            match ext_dot_exec(nv.as_slice()) {
                Some(k) => {
                    let len = nv.len();
                    let e = string_of(nv.as_slice(), k + 1, len);
                    assert(e@ =~= nv@.skip(k + 1));
                    Some(e)
                },
                None => None,
            }
        },
        None => None,
    }
}

/// `Path::file_stem` of the text of a path.
pub fn file_stem_of(path: &str) -> (r: Option<String>)
    ensures
        match r {
            Some(e) => file_stem(path@) == Some(e@),
            None => file_stem(path@) is None,
        },
{
    match file_name_of(path) {
        Some(name) => {
            let nv = chars_of(name.as_str());
            match ext_dot_exec(nv.as_slice()) {
                Some(k) => {
                    let e = string_of(nv.as_slice(), 0, k);
                    assert(e@ =~= nv@.take(k as int));
                    Some(e)
                },
                None => Some(name),
            }
        },
        None => None,
    }
}

/// `Path::parent` of the text of a path.
pub fn parent_of(path: &str) -> (r: Option<String>)
    ensures
        match r {
            Some(p) => parent(path@) == Some(p@),
            None => parent(path@) is None,
        },
{
    let v = chars_of(path);
    let n = trim_tail_len(v.as_slice());
    if n == 0 {
        return None;
    }
    match last_index_exec(v.as_slice(), n, '/') {
        None => Some(String::new()),
        Some(k) => {
            let head = vstd::slice::slice_subrange(v.as_slice(), 0, k);
            let e = trim_tail_len(head);
            proof {
                assert(head@ =~= v@.take(k as int));
                assert(v@.take(n as int).take(k as int) =~= v@.take(k as int));
            }
            if e == 0 {
                let mut s = String::new();
                push_char(&mut s, '/');
                assert(s@ =~= seq!['/']);
                Some(s)
            } else {
                let s = string_of(v.as_slice(), 0, e);
                assert(s@ =~= v@.take(k as int).take(e as int));
                Some(s)
            }
        },
    }
}

/// `PathBuf::join` on texts.
pub fn join_path(base: &str, part: &str) -> (r: String)
    ensures
        r@ == join(base@, part@),
{
    let pv = chars_of(part);
    if pv.len() > 0 && pv[0] == '/' {
        return crate::text::owned(part);
    }
    let bv = chars_of(base);
    let mut s = crate::text::owned(base);
    if !(bv.len() == 0 || bv[bv.len() - 1] == '/') {
        push_char(&mut s, '/');
    }
    append_str(&mut s, part);
    s
}

/// `Path::with_extension`: the text up to the end of the file stem, then
/// a dot and `ext` (nothing when `ext` is empty); unchanged when there is
/// no file name.
pub open spec fn with_extension(p: Seq<char>, ext: Seq<char>) -> Seq<char> {
    match file_stem(p) {
        Some(stem) => {
            let t = trim_tail(p);
            let start = last_index(t, '/') + 1;
            p.take(start + stem.len()) + (if ext.len() > 0 { seq!['.'] + ext } else { Seq::empty() })
        },
        None => p,
    }
}

/// `Path::with_extension` on the text of a path.
pub fn with_extension_of(path: &str, ext: &str) -> (r: String)
    ensures
        r@ == with_extension(path@, ext@),
{
    let v = chars_of(path);
    match file_stem_of(path) {
        None => crate::text::owned(path),
        Some(stem) => {
            let (a, b) = last_component_bounds(v.as_slice());
            let sl = chars_of(stem.as_str()).len();
            proof {
                let t = trim_tail(v@);
                lemma_last_index(t, '/');
                assert(last_component(v@) == v@.subrange(a as int, b as int));
                assert(a as int == last_index(t, '/') + 1) by {
                    assert(t == v@.take(b as int));
                }
                let n = file_name(v@)->0;
                assert(stem@.len() <= n.len()) by {
                    match ext_dot(n) {
                        Some(k) => {
                            lemma_last_index(n, '.');
                        },
                        None => {},
                    }
                }
            }
            let mut r = string_of(v.as_slice(), 0, a + sl);
            if chars_of(ext).len() > 0 {
                push_char(&mut r, '.');
                append_str(&mut r, ext);
            }
            assert(r@ =~= with_extension(path@, ext@));
            r
        },
    }
}

} // verus!
