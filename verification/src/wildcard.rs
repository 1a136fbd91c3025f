//! Wildcard patterns: `*` stands for any run of characters, `?` for one.

use vstd::prelude::*;
use crate::text::chars_of;

verus! {

/// `text` matches `pattern` exactly: every `*` matches any sequence of
/// characters (the empty one too), every `?` any single character, and any
/// other character only itself.
pub open spec fn glob(text: Seq<char>, pattern: Seq<char>) -> bool
    decreases pattern.len(), text.len(),
{
    if pattern.len() == 0 {
        text.len() == 0
    } else if pattern[0] == '*' {
        glob(text, pattern.drop_first()) || (text.len() > 0 && glob(text.drop_first(), pattern))
    } else if text.len() == 0 {
        false
    } else if pattern[0] == '?' || pattern[0] == text[0] {
        glob(text.drop_first(), pattern.drop_first())
    } else {
        false
    }
}

/// A leading `*` matches when the rest of the pattern matches some suffix.
pub proof fn lemma_star(text: Seq<char>, rest: Seq<char>, pattern: Seq<char>)
    requires
        pattern.len() > 0,
        pattern[0] == '*',
        rest == pattern.drop_first(),
    ensures
        glob(text, pattern) == exists|i: int| 0 <= i <= text.len() && #[trigger] glob(text.skip(i), rest),
    decreases text.len(),
{
    assert(text.skip(0) =~= text);
    assert(glob(text.skip(0), rest) == glob(text, rest));
    if text.len() > 0 {
        lemma_star(text.drop_first(), rest, pattern);
        if glob(text, pattern) {
            if !glob(text, rest) {
                assert(glob(text.drop_first(), pattern));
                let i = choose|i: int| 0 <= i <= text.drop_first().len() && #[trigger] glob(text.drop_first().skip(i), rest);
                assert(text.drop_first().skip(i) =~= text.skip(i + 1));
                assert(glob(text.skip(i + 1), rest));
            }
        }
        if exists|i: int| 0 <= i <= text.len() && #[trigger] glob(text.skip(i), rest) {
            let i = choose|i: int| 0 <= i <= text.len() && #[trigger] glob(text.skip(i), rest);
            if i > 0 {
                assert(text.drop_first().skip(i - 1) =~= text.skip(i));
                assert(glob(text.drop_first().skip(i - 1), rest));
                assert(glob(text.drop_first(), pattern));
            }
        }
    }
}

/// Whether `t[ti..]` matches `p[pi..]`.
#[verifier::loop_isolation(false)]
fn match_from(t: &[char], ti: usize, p: &[char], pi: usize) -> (r: bool)
    requires
        ti <= t@.len(),
        pi <= p@.len(),
    ensures
        r == glob(t@.skip(ti as int), p@.skip(pi as int)),
    decreases p@.len() - pi,
{
    let ghost tt = t@.skip(ti as int);
    let ghost pp = p@.skip(pi as int);
    if pi == p.len() {
        return ti == t.len();
    }
    assert(pp.drop_first() =~= p@.skip(pi + 1));
    if p[pi] == '*' {
        proof {
            lemma_star(tt, pp.drop_first(), pp);
        }
        let mut i = ti;
        while i <= t.len()
            invariant
                ti <= i <= t@.len() + 1,
                forall|j: int| ti <= j < i ==> !glob(#[trigger] t@.skip(j), p@.skip(pi + 1)),
            decreases t@.len() + 1 - i,
        {
            if match_from(t, i, p, pi + 1) {
                assert(tt.skip(i - ti) =~= t@.skip(i as int));
                assert(glob(tt.skip(i - ti), pp.drop_first()));
                return true;
            }
            if i == t.len() {
                break;
            }
            i += 1;
        }
        assert forall|k: int| 0 <= k <= tt.len() implies !#[trigger] glob(tt.skip(k), pp.drop_first()) by {
            assert(tt.skip(k) =~= t@.skip(ti + k));
            assert(!glob(t@.skip(ti + k), p@.skip(pi + 1)));
        }
        false
    } else if ti == t.len() {
        false
    } else if p[pi] == '?' || p[pi] == t[ti] {
        assert(tt.drop_first() =~= t@.skip(ti + 1));
        match_from(t, ti + 1, p, pi + 1)
    } else {
        false
    }
}

/// Whether `text` matches `pattern`; the patterns `*` and `*.*` match every
/// text.
pub open spec fn matches_wildcard(text: Seq<char>, pattern: Seq<char>) -> bool {
    pattern == seq!['*'] || pattern == seq!['*', '.', '*'] || glob(text, pattern)
}

/// Wildcard matching of a name against a pattern (`*`, `?`); `*` and `*.*`
/// match everything.
pub fn wildcard_match(text: &str, pattern: &str) -> (r: bool)
    ensures
        r == matches_wildcard(text@, pattern@),
{
    let t = chars_of(text);
    let p = chars_of(pattern);
    if p.len() == 1 && p[0] == '*' {
        assert(p@ =~= seq!['*']);
        return true;
    }
    if p.len() == 3 && p[0] == '*' && p[1] == '.' && p[2] == '*' {
        assert(p@ =~= seq!['*', '.', '*']);
        return true;
    }
    assert(t@.skip(0) =~= t@);
    assert(p@.skip(0) =~= p@);
    match_from(t.as_slice(), 0, p.as_slice(), 0)
}

} // verus!
