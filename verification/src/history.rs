//! The lists of visited directories and of opened files, newest last.

use vstd::prelude::*;
use crate::text::str_equal;

verus! {

/// How many directories the directory history keeps.
pub const DIR_HISTORY_LIMIT: usize = 50;

/// How many files the file history keeps.
pub const FILE_HISTORY_LIMIT: usize = 100;

/// The texts of some strings.
pub open spec fn texts(v: Seq<String>) -> Seq<Seq<char>> {
    v.map_values(|s: String| s@)
}

/// The directory history after visiting `p`: unchanged when `p` is already
/// its newest entry; else `p` is appended and, when that makes the list
/// longer than the limit, the oldest entry is dropped.
pub open spec fn dir_history_after(h: Seq<Seq<char>>, p: Seq<char>) -> Seq<Seq<char>> {
    if h.len() > 0 && h.last() == p {
        h
    } else if h.len() + 1 > DIR_HISTORY_LIMIT {
        h.push(p).drop_first()
    } else {
        h.push(p)
    }
}

/// `h` with every occurrence of `p` taken out, the rest in order.
pub open spec fn without(h: Seq<Seq<char>>, p: Seq<char>) -> Seq<Seq<char>>
    decreases h.len(),
{
    if h.len() == 0 {
        h
    } else if h.last() == p {
        without(h.drop_last(), p)
    } else {
        without(h.drop_last(), p).push(h.last())
    }
}

/// The file history after opening `p`: earlier occurrences of `p` are
/// taken out, `p` is appended, and the oldest entries are dropped down to
/// the limit.
pub open spec fn file_history_after(h: Seq<Seq<char>>, p: Seq<char>) -> Seq<Seq<char>> {
    let g = without(h, p).push(p);
    if g.len() > FILE_HISTORY_LIMIT {
        g.skip(g.len() - FILE_HISTORY_LIMIT)
    } else {
        g
    }
}

/// No text occurs twice.
pub open spec fn distinct(h: Seq<Seq<char>>) -> bool {
    forall|i: int, j: int| 0 <= i < j < h.len() ==> h[i] != h[j]
}

/// Records a visit of `path` in the directory history.
pub fn push_dir_history(history: &mut Vec<String>, path: String)
    ensures
        texts(final(history)@) == dir_history_after(texts(old(history)@), path@),
{
    let ghost h = texts(history@);
    let n = history.len();
    if n > 0 && str_equal(history[n - 1].as_str(), path.as_str()) {
        assert(h.last() == history@[n - 1]@);
        return;
    }
    proof {
        if n > 0 {
            assert(h.last() == history@[n - 1]@);
        }
    }
    history.push(path);
    assert(texts(history@) =~= h.push(path@));
    if history.len() > DIR_HISTORY_LIMIT {
        history.remove(0);
        assert(texts(history@) =~= h.push(path@).drop_first());
    }
}

proof fn lemma_without_push(h: Seq<Seq<char>>, p: Seq<char>, q: Seq<char>)
    ensures
        without(h.push(q), p) == if q == p { without(h, p) } else { without(h, p).push(q) },
{
    assert(h.push(q).drop_last() =~= h);
}

/// Takes every occurrence of `p` out of `h`.
fn remove_all(h: &Vec<String>, p: &str) -> (r: Vec<String>)
    ensures
        texts(r@) == without(texts(h@), p@),
{
    let ghost hv = texts(h@);
    let mut r: Vec<String> = Vec::new();
    let mut i: usize = 0;
    assert(hv.take(0) =~= Seq::<Seq<char>>::empty());
    while i < h.len()
        invariant
            i <= h@.len(),
            hv == texts(h@),
            texts(r@) == without(hv.take(i as int), p@),
        decreases h@.len() - i,
    {
        proof {
            assert(hv.take(i + 1) =~= hv.take(i as int).push(hv[i as int]));
            lemma_without_push(hv.take(i as int), p@, hv[i as int]);
        }
        if !str_equal(h[i].as_str(), p) {
            let ghost before = r@;
            r.push(crate::text::owned(h[i].as_str()));
            assert(texts(r@) =~= texts(before).push(hv[i as int]));
        }
        i += 1;
    }
    assert(hv.take(h@.len() as int) =~= hv);
    r
}

/// Records the opening of `path` in the file history.
pub fn add_to_file_history(history: &mut Vec<String>, path: String)
    ensures
        texts(final(history)@) == file_history_after(texts(old(history)@), path@),
{
    let ghost h = texts(history@);
    let mut kept = remove_all(history, path.as_str());
    let ghost g = without(h, path@).push(path@);
    kept.push(path);
    assert(texts(kept@) =~= g);
    if kept.len() > FILE_HISTORY_LIMIT {
        let drop = kept.len() - FILE_HISTORY_LIMIT;
        let mut out: Vec<String> = Vec::new();
        let mut i: usize = drop;
        while i < kept.len()
            invariant
                drop <= i <= kept@.len(),
                g == texts(kept@),
                texts(out@) == g.subrange(drop as int, i as int),
            decreases kept@.len() - i,
        {
            let ghost before = out@;
            let c = crate::text::owned(kept[i].as_str());
            assert(g[i as int] == c@);
            out.push(c);
            assert(texts(out@) =~= texts(before).push(c@));
            assert(texts(out@) =~= g.subrange(drop as int, i + 1));
            i += 1;
        }
        assert(g.subrange(drop as int, g.len() as int) =~= g.skip(drop as int));
        *history = out;
    } else {
        *history = kept;
    }
}

/// What `without` keeps: the texts of `h` other than `p`, and no others.
pub proof fn lemma_without_members(h: Seq<Seq<char>>, p: Seq<char>, q: Seq<char>)
    ensures
        without(h, p).contains(q) <==> (h.contains(q) && q != p),
        without(h, p).len() <= h.len(),
    decreases h.len(),
{
    if h.len() > 0 {
        lemma_without_members(h.drop_last(), p, q);
        assert(h =~= h.drop_last().push(h.last()));
        if h.contains(q) && q != p {
            let k = choose|k: int| 0 <= k < h.len() && h[k] == q;
            if k < h.len() - 1 {
                assert(h.drop_last()[k] == q);
            }
        }
        if h.drop_last().contains(q) {
            let k = choose|k: int| 0 <= k < h.drop_last().len() && h.drop_last()[k] == q;
            assert(h[k] == q);
        }
        let s = without(h.drop_last(), p);
        if h.last() != p {
            if s.push(h.last()).contains(q) {
                let k = choose|k: int| 0 <= k < s.push(h.last()).len() && s.push(h.last())[k] == q;
                if k < s.len() {
                    assert(s[k] == q);
                }
            }
            if s.contains(q) {
                let k = choose|k: int| 0 <= k < s.len() && s[k] == q;
                assert(s.push(h.last())[k] == q);
            }
            assert(s.push(h.last())[s.len() as int] == h.last());
        }
        assert(h[h.len() - 1] == h.last());
    }
}

/// `without` keeps a list free of repeats.
pub proof fn lemma_without_distinct(h: Seq<Seq<char>>, p: Seq<char>)
    requires
        distinct(h),
    ensures
        distinct(without(h, p)),
    decreases h.len(),
{
    if h.len() > 0 {
        let d = h.drop_last();
        assert(distinct(d));
        lemma_without_distinct(d, p);
        if h.last() != p {
            let s = without(d, p);
            lemma_without_members(d, p, h.last());
            if d.contains(h.last()) {
                let k = choose|k: int| 0 <= k < d.len() && d[k] == h.last();
                assert(h[k] == h[h.len() - 1]);
            }
            assert forall|i: int, j: int| 0 <= i < j < s.push(h.last()).len() implies s.push(h.last())[i] != s.push(h.last())[j] by {
                if j == s.len() {
                    assert(s.contains(s[i]));
                }
            }
        }
    }
}

/// After a file is opened the file history ends with it, holds it once,
/// keeps at most the limit of entries when it did before, and holds no
/// repeats when it held none before.
pub proof fn lemma_file_history(h: Seq<Seq<char>>, p: Seq<char>)
    ensures
        file_history_after(h, p).last() == p,
        h.len() <= FILE_HISTORY_LIMIT ==> file_history_after(h, p).len() <= FILE_HISTORY_LIMIT,
        file_history_after(h, p).len() <= FILE_HISTORY_LIMIT || file_history_after(h, p).len() <= h.len() + 1,
        forall|i: int| 0 <= i < file_history_after(h, p).len() - 1 ==> file_history_after(h, p)[i] != p,
        distinct(h) ==> distinct(file_history_after(h, p)),
{
    let w = without(h, p);
    let g = w.push(p);
    lemma_without_members(h, p, p);
    assert forall|i: int| 0 <= i < g.len() - 1 implies g[i] != p by {
        assert(w[i] == g[i]);
        if w[i] == p {
            assert(w.contains(p));
        }
    }
    if distinct(h) {
        lemma_without_distinct(h, p);
        assert(distinct(g));
    }
    if g.len() > FILE_HISTORY_LIMIT {
        let f = g.skip(g.len() - FILE_HISTORY_LIMIT);
        assert forall|i: int| 0 <= i < f.len() - 1 implies f[i] != p by {
            assert(f[i] == g[i + g.len() - FILE_HISTORY_LIMIT]);
        }
        assert(f.last() == g.last());
        if distinct(g) {
            assert forall|i: int, j: int| 0 <= i < j < f.len() implies f[i] != f[j] by {
                assert(f[i] == g[i + g.len() - FILE_HISTORY_LIMIT]);
                assert(f[j] == g[j + g.len() - FILE_HISTORY_LIMIT]);
            }
        }
    }
}

/// After a directory is visited the directory history ends with it and
/// keeps at most the limit of entries when it did before.
pub proof fn lemma_dir_history(h: Seq<Seq<char>>, p: Seq<char>)
    ensures
        dir_history_after(h, p).last() == p,
        h.len() <= DIR_HISTORY_LIMIT ==> dir_history_after(h, p).len() <= DIR_HISTORY_LIMIT,
        dir_history_after(dir_history_after(h, p), p) == dir_history_after(h, p),
{
    let r = dir_history_after(h, p);
    if !(h.len() > 0 && h.last() == p) && h.len() + 1 > DIR_HISTORY_LIMIT {
        assert(r.last() == h.push(p).last());
    }
}

} // verus!
