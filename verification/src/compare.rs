//! Comparing the directories shown in the two panels: entries that only
//! one side has, or whose size differs, get selected.

use vstd::prelude::*;
use crate::panel::{Panel, PanelView};
use crate::text::{append_str, is_dotdot, is_dotdot_str, owned};
use crate::types::EntryView;

verus! {

/// The first entry of `es`, from index `i` on, named `n`.
pub open spec fn first_named(es: Seq<EntryView>, n: Seq<char>, i: int) -> Option<EntryView>
    decreases es.len() - i,
{
    if i < 0 || i >= es.len() {
        None
    } else if es[i].name == n {
        Some(es[i])
    } else {
        first_named(es, n, i + 1)
    }
}

/// An entry the other side lacks.
pub open spec fn unique(e: EntryView, other: Seq<EntryView>) -> bool {
    !is_dotdot(e.name) && first_named(other, e.name, 0) is None
}

/// An entry the other side has with another size.
pub open spec fn differs(e: EntryView, other: Seq<EntryView>) -> bool {
    !is_dotdot(e.name) && match first_named(other, e.name, 0) {
        Some(o) => o.size != e.size,
        None => false,
    }
}

/// The entries with those the other side lacks, or has with another size,
/// selected.
pub open spec fn marked_against(es: Seq<EntryView>, other: Seq<EntryView>) -> Seq<EntryView> {
    es.map_values(|e: EntryView| if unique(e, other) || differs(e, other) { EntryView { selected: true, ..e } } else { e })
}

/// How many entries of `es` satisfy `f`.
pub open spec fn count_where(es: Seq<EntryView>, f: spec_fn(EntryView) -> bool) -> nat
    decreases es.len(),
{
    if es.len() == 0 {
        0
    } else {
        count_where(es.drop_last(), f) + if f(es.last()) { 1nat } else { 0nat }
    }
}

/// The summary shown after comparing.
pub open spec fn compare_message(left_only: nat, right_only: nat, different: nat) -> Seq<char> {
    "Left only: "@ + crate::numfmt::decimal(left_only) + ", Right only: "@ + crate::numfmt::decimal(right_only)
        + ", Different: "@ + crate::numfmt::decimal(different)
}

/// The first entry of `es` named `name`.
fn find_named(es: &Vec<crate::types::FileEntry>, name: &str) -> (r: Option<usize>)
    ensures
        match r {
            Some(k) => k < es@.len() && first_named(es.deep_view(), name@, 0) == Some(es.deep_view()[k as int]),
            None => first_named(es.deep_view(), name@, 0) is None,
        },
{
    let ghost v = es.deep_view();
    let mut k: usize = 0;
    while k < es.len()
        invariant
            k <= es@.len(),
            v == es.deep_view(),
            first_named(v, name@, 0) == first_named(v, name@, k as int),
        decreases es@.len() - k,
    {
        assert(v[k as int] == es@[k as int]@);
        if crate::text::str_equal(es[k].name.as_str(), name) {
            return Some(k);
        }
        k += 1;
    }
    None
}

/// Marks the entries of `side` that `other` lacks or has with another size;
/// returns how many `other` lacks and how many differ.
fn mark_side(side: &mut Panel, other: &Panel) -> (r: (usize, usize))
    ensures
        final(side)@ == (PanelView { entries: marked_against(old(side)@.entries, other@.entries), ..old(side)@ }),
        r.0 == count_where(old(side)@.entries, |e: EntryView| unique(e, other@.entries)),
        r.1 == count_where(old(side)@.entries, |e: EntryView| differs(e, other@.entries)),
{
    let ghost es = old(side)@.entries;
    let ghost os = other@.entries;
    let n = side.entries.len();
    let mut only: usize = 0;
    let mut diff: usize = 0;
    let mut i: usize = 0;
    assert(es.take(0) =~= Seq::<EntryView>::empty());
    while i < n
        invariant
            i <= n,
            n == es.len(),
            side.entries@.len() == n,
            os == other@.entries,
            side@ == (PanelView { entries: side@.entries, ..old(side)@ }),
            forall|k: int| 0 <= k < i ==> #[trigger] side@.entries[k] == marked_against(es, os)[k],
            forall|k: int| i <= k < n ==> #[trigger] side@.entries[k] == es[k],
            only == count_where(es.take(i as int), |e: EntryView| unique(e, os)),
            diff == count_where(es.take(i as int), |e: EntryView| differs(e, os)),
            only <= i,
            diff <= i,
        decreases n - i,
    {
        let ghost e = es[i as int];
        let ghost want = marked_against(es, os)[i as int];
        assert(side@.entries[i as int] == side.entries@[i as int]@);
        assert(side.entries@[i as int]@ == e);
        assert(es.take(i + 1).drop_last() =~= es.take(i as int));
        assert(es.take(i + 1).last() == e);
        let ghost before = side.entries@;
        let ghost before_d = side@.entries;
        if !is_dotdot_str(side.entries[i].name.as_str()) {
            match find_named(&other.entries, side.entries[i].name.as_str()) {
                None => {
                    assert(unique(e, os));
                    side.entries[i].selected = true;
                    only += 1;
                    assert(side.entries@[i as int]@ == want);
                },
                Some(k) => {
                    assert(other.entries.deep_view()[k as int] == other.entries@[k as int]@);
                    assert(!unique(e, os));
                    if other.entries[k].size != side.entries[i].size {
                        assert(differs(e, os));
                        side.entries[i].selected = true;
                        diff += 1;
                        assert(side.entries@[i as int]@ == want);
                    } else {
                        assert(!differs(e, os));
                        assert(side.entries@[i as int]@ == want);
                    }
                },
            }
        } else {
            assert(!unique(e, os) && !differs(e, os));
            assert(side.entries@[i as int]@ == want);
        }
        proof {
            assert forall|k: int| 0 <= k < n && k != i implies side.entries@[k] == before[k] by {}
            assert forall|k: int| 0 <= k < n implies #[trigger] side.entries.deep_view()[k] == (if k <= i { marked_against(es, os)[k] } else { es[k] }) by {
                assert(side.entries.deep_view()[k] == side.entries@[k]@);
                if k != i {
                    assert(side.entries@[k] == before[k]);
                    assert(before_d[k] == before[k]@);
                }
            }
        }
        i += 1;
    }
    assert(es.take(n as int) =~= es);
    assert(side@.entries =~= marked_against(es, os));
    assert(side@ =~= (PanelView { entries: marked_against(es, os), ..old(side)@ }));
    (only, diff)
}

/// Compares the two panels: every entry that the other side lacks, or has
/// with another size, gets selected on both sides. Returns the number of
/// entries only the left has, only the right has, and the number of left
/// entries whose size differs.
pub fn compare_panels(left: &mut Panel, right: &mut Panel) -> (r: (usize, usize, usize))
    ensures
        final(left)@ == (PanelView { entries: marked_against(old(left)@.entries, old(right)@.entries), ..old(left)@ }),
        final(right)@ == (PanelView { entries: marked_against(old(right)@.entries, old(left)@.entries), ..old(right)@ }),
        r.0 == count_where(old(left)@.entries, |e: EntryView| unique(e, old(right)@.entries)),
        r.1 == count_where(old(right)@.entries, |e: EntryView| unique(e, old(left)@.entries)),
        r.2 == count_where(old(left)@.entries, |e: EntryView| differs(e, old(right)@.entries)),
{
    let (left_only, different) = mark_side(left, right);
    let ghost ml = left@.entries;
    let (right_only, _) = mark_side(right, left);
    proof {
        let l0 = old(left)@.entries;
        let r0 = old(right)@.entries;
        lemma_marks_same_names(l0, r0);
        assert(ml == marked_against(l0, r0));
        assert((|e: EntryView| unique(e, ml)) =~= (|e: EntryView| unique(e, l0)));
        assert(marked_against(r0, ml) =~= marked_against(r0, l0)) by {
            assert forall|k: int| 0 <= k < r0.len() implies #[trigger] marked_against(r0, ml)[k] == marked_against(r0, l0)[k] by {
                assert(unique(r0[k], ml) == unique(r0[k], l0));
                assert(differs(r0[k], ml) == differs(r0[k], l0));
            }
        }
    }
    (left_only, right_only, different)
}

/// Marking keeps names and sizes, so looking entries up by name in the
/// marked list finds the same names and sizes.
proof fn lemma_marks_same_names(es: Seq<EntryView>, os: Seq<EntryView>)
    ensures
        forall|e: EntryView| #[trigger] unique(e, marked_against(es, os)) == unique(e, es),
        forall|e: EntryView| #[trigger] differs(e, marked_against(es, os)) == differs(e, es),
{
    let m = marked_against(es, os);
    assert forall|e: EntryView| #[trigger] unique(e, m) == unique(e, es) by {
        lemma_first_named_marked(es, os, e.name, 0);
    }
    assert forall|e: EntryView| #[trigger] differs(e, m) == differs(e, es) by {
        lemma_first_named_marked(es, os, e.name, 0);
        match (first_named(m, e.name, 0), first_named(es, e.name, 0)) {
            (Some(a), Some(b)) => {
                assert(differs(e, m) == (!is_dotdot(e.name) && a.size != e.size));
                assert(differs(e, es) == (!is_dotdot(e.name) && b.size != e.size));
            },
            _ => {},
        }
    }
}

proof fn lemma_first_named_marked(es: Seq<EntryView>, os: Seq<EntryView>, n: Seq<char>, i: int)
    ensures
        match (first_named(marked_against(es, os), n, i), first_named(es, n, i)) {
            (Some(a), Some(b)) => a.name == b.name && a.size == b.size,
            (None, None) => true,
            _ => false,
        },
    decreases es.len() - i,
{
    if 0 <= i < es.len() {
        lemma_first_named_marked(es, os, n, i + 1);
    }
}

/// The summary `Left only: <l>, Right only: <r>, Different: <d>`.
pub fn compare_summary(left_only: usize, right_only: usize, different: usize) -> (s: String)
    ensures
        s@ == compare_message(left_only as nat, right_only as nat, different as nat),
{
    let mut s = owned("Left only: ");
    append_str(&mut s, crate::numfmt::u64_to_decimal(left_only as u64).as_str());
    append_str(&mut s, ", Right only: ");
    append_str(&mut s, crate::numfmt::u64_to_decimal(right_only as u64).as_str());
    append_str(&mut s, ", Different: ");
    append_str(&mut s, crate::numfmt::u64_to_decimal(different as u64).as_str());
    s
}

} // verus!
