//! One file panel: its directory listing, cursor, selection and sorting.

use vstd::prelude::*;
use crate::text::{chars_of, lex_lt, lex_less, lowercase, to_lower, is_dotdot, is_dotdot_str};
use crate::types::{EntryView, FileEntry, PanelMode, SortMode, entry_extension};

verus! {

/// A single file panel (left or right). `path` is the text of the
/// directory shown; `filter` a wildcard pattern for the files shown.
#[derive(Debug)]
pub struct Panel {
    pub path: String,
    pub entries: Vec<FileEntry>,
    pub cursor: usize,
    pub scroll_offset: usize,
    pub sort_mode: SortMode,
    pub panel_mode: PanelMode,
    pub show_hidden: bool,
    pub visible_height: usize,
    pub filter: Option<String>,
}

/// What a panel holds, with texts and entries as sequences.
pub struct PanelView {
    pub path: Seq<char>,
    pub entries: Seq<EntryView>,
    pub cursor: usize,
    pub scroll_offset: usize,
    pub sort_mode: SortMode,
    pub panel_mode: PanelMode,
    pub show_hidden: bool,
    pub visible_height: usize,
    pub filter: Option<Seq<char>>,
}

impl View for Panel {
    type V = PanelView;

    open spec fn view(&self) -> PanelView {
        PanelView {
            path: self.path@,
            entries: self.entries.deep_view(),
            cursor: self.cursor,
            scroll_offset: self.scroll_offset,
            sort_mode: self.sort_mode,
            panel_mode: self.panel_mode,
            show_hidden: self.show_hidden,
            visible_height: self.visible_height,
            filter: match self.filter {
                Some(f) => Some(f@),
                None => None,
            },
        }
    }
}

// ── Ordering of entries ─────────────────────────────────────────────

/// The filter a typed pattern sets: none for `*`, `*.*` or nothing, else
/// the pattern.
pub open spec fn filter_of(pattern: Seq<char>) -> Option<Seq<char>> {
    if pattern == "*"@ || pattern == "*.*"@ || pattern == Seq::<char>::empty() {
        None
    } else {
        Some(pattern)
    }
}

/// The filter text that marks a panel showing a whole branch.
pub open spec fn branch_marker() -> Seq<char> {
    "__branch__"@
}

/// 0 for `..`, 1 for a directory, 2 for anything else.
pub open spec fn entry_rank(e: EntryView) -> int {
    if is_dotdot(e.name) {
        0
    } else if e.is_dir {
        1
    } else {
        2
    }
}

/// The key an entry is sorted by: its rank, then a number and two texts
/// that depend on the mode (names and extensions compared in lower case).
pub open spec fn entry_key(mode: SortMode, e: EntryView) -> (int, int, Seq<char>, Seq<char>) {
    let ln = lowercase(e.name);
    match mode {
        SortMode::Name => (entry_rank(e), 0, ln, Seq::empty()),
        SortMode::Extension => (entry_rank(e), 0, lowercase(entry_extension(e.path)), ln),
        SortMode::Size => (entry_rank(e), e.size as int, ln, Seq::empty()),
        SortMode::Date => (
            entry_rank(e),
            match e.modified {
                Some(t) => t as int,
                None => 0,
            },
            ln,
            Seq::empty(),
        ),
        SortMode::Unsorted => (entry_rank(e), 0, Seq::empty(), Seq::empty()),
    }
}

/// Lexicographic order of keys.
pub open spec fn key_lt(a: (int, int, Seq<char>, Seq<char>), b: (int, int, Seq<char>, Seq<char>)) -> bool {
    a.0 < b.0 || (a.0 == b.0 && (a.1 < b.1 || (a.1 == b.1 && (lex_lt(a.2, b.2) || (a.2 == b.2
        && lex_lt(a.3, b.3))))))
}

/// A sort key: a rank, a number and two texts, compared in that order.
pub type Key = (int, int, Seq<char>, Seq<char>);

/// `a` sorts strictly before `b`.
pub open spec fn before(mode: SortMode, a: EntryView, b: EntryView) -> bool {
    key_lt(entry_key(mode, a), entry_key(mode, b))
}

/// The key function of a sort mode.
pub open spec fn mode_key(mode: SortMode) -> spec_fn(EntryView) -> Key {
    |e: EntryView| entry_key(mode, e)
}

/// Where a stable insertion by key `kf` puts `x` into `s`: before the first
/// element whose key is strictly greater than that of `x`.
pub open spec fn insert_pos<V>(kf: spec_fn(V) -> Key, s: Seq<V>, x: V) -> int
    decreases s.len(),
{
    if s.len() == 0 {
        0
    } else if key_lt(kf(x), kf(s[0])) {
        0
    } else {
        1 + insert_pos(kf, s.drop_first(), x)
    }
}

/// `s` with `x` inserted at `insert_pos`.
pub open spec fn insert_sorted<V>(kf: spec_fn(V) -> Key, s: Seq<V>, x: V) -> Seq<V> {
    let p = insert_pos(kf, s, x);
    s.take(p).push(x) + s.skip(p)
}

/// The stable sort of `s` by key `kf`: entries taken in order, each
/// inserted after those whose key is not greater.
pub open spec fn sorted_with<V>(kf: spec_fn(V) -> Key, s: Seq<V>) -> Seq<V>
    decreases s.len(),
{
    if s.len() == 0 {
        Seq::empty()
    } else {
        insert_sorted(kf, sorted_with(kf, s.drop_last()), s.last())
    }
}

/// The stable sort of `s` in sort mode `mode`.
pub open spec fn sorted_by(mode: SortMode, s: Seq<EntryView>) -> Seq<EntryView> {
    sorted_with(mode_key(mode), s)
}

pub proof fn lemma_insert_pos<V>(kf: spec_fn(V) -> Key, s: Seq<V>, x: V, p: int)
    requires
        0 <= p <= s.len(),
        forall|j: int| 0 <= j < p ==> !key_lt(kf(x), kf(#[trigger] s[j])),
        p == s.len() || key_lt(kf(x), kf(s[p])),
    ensures
        insert_pos(kf, s, x) == p,
    decreases p,
{
    if p > 0 {
        assert forall|j: int| 0 <= j < p - 1 implies !key_lt(kf(x), kf(#[trigger] s.drop_first()[j])) by {
            assert(s.drop_first()[j] == s[j + 1]);
        }
        lemma_insert_pos(kf, s.drop_first(), x, p - 1);
    }
}

/// `s` is in order by key `kf`: no entry has a strictly smaller key than an
/// earlier one.
pub open spec fn ordered_with<V>(kf: spec_fn(V) -> Key, s: Seq<V>) -> bool {
    forall|i: int, j: int| 0 <= i < j < s.len() ==> !key_lt(kf(#[trigger] s[j]), kf(#[trigger] s[i]))
}

/// `s` is in order for sort mode `mode`.
pub open spec fn is_ordered(mode: SortMode, s: Seq<EntryView>) -> bool {
    forall|i: int, j: int| 0 <= i < j < s.len() ==> !before(mode, #[trigger] s[j], #[trigger] s[i])
}

pub proof fn lemma_key_lt_irreflexive(k: Key)
    ensures
        !key_lt(k, k),
{
    crate::text::lemma_lex_irreflexive(k.2);
    crate::text::lemma_lex_irreflexive(k.3);
}

pub proof fn lemma_key_lt_transitive(a: Key, b: Key, c: Key)
    requires
        key_lt(a, b),
        key_lt(b, c),
    ensures
        key_lt(a, c),
{
    if a.0 == b.0 && b.0 == c.0 && a.1 == b.1 && b.1 == c.1 {
        if lex_lt(a.2, b.2) && lex_lt(b.2, c.2) {
            crate::text::lemma_lex_transitive(a.2, b.2, c.2);
        } else if a.2 == b.2 && b.2 == c.2 {
            crate::text::lemma_lex_transitive(a.3, b.3, c.3);
        }
    }
}

proof fn lemma_insert_pos_props<V>(kf: spec_fn(V) -> Key, s: Seq<V>, x: V)
    ensures
        0 <= insert_pos(kf, s, x) <= s.len(),
        forall|j: int| 0 <= j < insert_pos(kf, s, x) ==> !key_lt(kf(x), kf(#[trigger] s[j])),
        insert_pos(kf, s, x) < s.len() ==> key_lt(kf(x), kf(s[insert_pos(kf, s, x)])),
    decreases s.len(),
{
    if s.len() > 0 && !key_lt(kf(x), kf(s[0])) {
        lemma_insert_pos_props(kf, s.drop_first(), x);
        assert forall|j: int| 0 <= j < insert_pos(kf, s, x) implies !key_lt(kf(x), kf(#[trigger] s[j])) by {
            if j > 0 {
                assert(s[j] == s.drop_first()[j - 1]);
            }
        }
    }
}

/// Sorting by a key gives an ordered permutation: the result holds the same
/// entries, and none has a smaller key than an earlier one.
pub proof fn lemma_sort_with_orders<V>(kf: spec_fn(V) -> Key, s: Seq<V>)
    ensures
        ordered_with(kf, sorted_with(kf, s)),
        sorted_with(kf, s).to_multiset() == s.to_multiset(),
    decreases s.len(),
{
    broadcast use vstd::seq_lib::group_to_multiset_ensures;

    if s.len() == 0 {
        assert(sorted_with(kf, s) =~= s);
    } else {
        let prev = sorted_with(kf, s.drop_last());
        let x = s.last();
        lemma_sort_with_orders(kf, s.drop_last());
        lemma_insert_pos_props(kf, prev, x);
        let p = insert_pos(kf, prev, x);
        let r = insert_sorted(kf, prev, x);
        assert(r =~= prev.insert(p, x));
        assert(s =~= s.drop_last().push(x));
        assert forall|i: int, j: int| 0 <= i < j < r.len() implies !key_lt(kf(#[trigger] r[j]), kf(#[trigger] r[i])) by {
            if j < p {
                assert(r[i] == prev[i] && r[j] == prev[j]);
            } else if j == p {
                assert(r[j] == x && r[i] == prev[i]);
            } else if i == p {
                assert(r[i] == x && r[j] == prev[j - 1]);
                if key_lt(kf(prev[j - 1]), kf(x)) {
                    lemma_key_lt_transitive(kf(prev[j - 1]), kf(x), kf(prev[p]));
                    if j - 1 == p {
                        lemma_key_lt_irreflexive(kf(prev[p]));
                    }
                }
            } else if i < p {
                assert(r[i] == prev[i] && r[j] == prev[j - 1]);
            } else {
                assert(r[i] == prev[i - 1] && r[j] == prev[j - 1]);
            }
        }
    }
}

/// Sorting gives an ordered permutation of the entries: in every sort mode
/// the result holds the same entries, and none sorts before an earlier one.
pub proof fn lemma_sort_orders(mode: SortMode, s: Seq<EntryView>)
    ensures
        is_ordered(mode, sorted_by(mode, s)),
        sorted_by(mode, s).to_multiset() == s.to_multiset(),
{
    lemma_sort_with_orders(mode_key(mode), s);
    let r = sorted_by(mode, s);
    assert forall|i: int, j: int| 0 <= i < j < r.len() implies !before(mode, #[trigger] r[j], #[trigger] r[i]) by {
        assert(!key_lt(mode_key(mode)(r[j]), mode_key(mode)(r[i])));
    }
}

/// In sorted entries `..` comes first and directories come before files.
pub proof fn lemma_sorted_ranks(mode: SortMode, s: Seq<EntryView>)
    ensures
        forall|i: int, j: int| 0 <= i < j < sorted_by(mode, s).len() ==> entry_rank(#[trigger] sorted_by(mode, s)[i]) <= entry_rank(#[trigger] sorted_by(mode, s)[j]),
{
    lemma_sort_orders(mode, s);
    let r = sorted_by(mode, s);
    assert forall|i: int, j: int| 0 <= i < j < r.len() implies entry_rank(#[trigger] r[i]) <= entry_rank(#[trigger] r[j]) by {
        assert(!before(mode, r[j], r[i]));
    }
}

/// Two entries of the same kind: both `..`, both other directories, or
/// both files.
pub open spec fn same_kind(a: EntryView, b: EntryView) -> bool {
    is_dotdot(a.name) == is_dotdot(b.name) && (is_dotdot(a.name) || a.is_dir == b.is_dir)
}

/// A modification time, 0 when unknown.
pub open spec fn time_or_zero(t: Option<u64>) -> int {
    match t {
        Some(v) => v as int,
        None => 0,
    }
}

/// What each sort mode guarantees of the sorted listing, for any two
/// entries of which `a` comes before `b`: the same entries as before,
/// `..` first and directories before files; among entries of the same
/// kind, by name the lower-case names do not go down; by extension the
/// lower-case extensions do not go down, and for the same extension the
/// lower-case names do not; by size the sizes do not go down, and for the
/// same size the lower-case names do not; by date likewise with the
/// modification times (unknown counts as 0).
pub proof fn lemma_sort_laws(mode: SortMode, s: Seq<EntryView>)
    ensures
        sorted_by(mode, s).to_multiset() == s.to_multiset(),
        forall|i: int, j: int| 0 <= i < j < sorted_by(mode, s).len() ==> {
            let a = #[trigger] sorted_by(mode, s)[i];
            let b = #[trigger] sorted_by(mode, s)[j];
            let na = lowercase(a.name);
            let nb = lowercase(b.name);
            let xa = lowercase(entry_extension(a.path));
            let xb = lowercase(entry_extension(b.path));
            &&& is_dotdot(b.name) ==> is_dotdot(a.name)
            &&& (b.is_dir || is_dotdot(b.name)) ==> (a.is_dir || is_dotdot(a.name))
            &&& same_kind(a, b) && mode == SortMode::Name ==> !lex_lt(nb, na)
            &&& same_kind(a, b) && mode == SortMode::Extension ==> !lex_lt(xb, xa)
            &&& same_kind(a, b) && mode == SortMode::Extension && xa == xb ==> !lex_lt(nb, na)
            &&& same_kind(a, b) && mode == SortMode::Size ==> a.size <= b.size
            &&& same_kind(a, b) && mode == SortMode::Size && a.size == b.size ==> !lex_lt(nb, na)
            &&& same_kind(a, b) && mode == SortMode::Date ==> time_or_zero(a.modified) <= time_or_zero(b.modified)
            &&& same_kind(a, b) && mode == SortMode::Date && a.modified == b.modified ==> !lex_lt(nb, na)
        },
{
    lemma_sort_orders(mode, s);
    let r = sorted_by(mode, s);
    assert forall|i: int, j: int| 0 <= i < j < r.len() implies {
        let a = #[trigger] r[i];
        let b = #[trigger] r[j];
        let na = lowercase(a.name);
        let nb = lowercase(b.name);
        let xa = lowercase(entry_extension(a.path));
        let xb = lowercase(entry_extension(b.path));
        &&& is_dotdot(b.name) ==> is_dotdot(a.name)
        &&& (b.is_dir || is_dotdot(b.name)) ==> (a.is_dir || is_dotdot(a.name))
        &&& same_kind(a, b) && mode == SortMode::Name ==> !lex_lt(nb, na)
        &&& same_kind(a, b) && mode == SortMode::Extension ==> !lex_lt(xb, xa)
        &&& same_kind(a, b) && mode == SortMode::Extension && xa == xb ==> !lex_lt(nb, na)
        &&& same_kind(a, b) && mode == SortMode::Size ==> a.size <= b.size
        &&& same_kind(a, b) && mode == SortMode::Size && a.size == b.size ==> !lex_lt(nb, na)
        &&& same_kind(a, b) && mode == SortMode::Date ==> time_or_zero(a.modified) <= time_or_zero(b.modified)
        &&& same_kind(a, b) && mode == SortMode::Date && a.modified == b.modified ==> !lex_lt(nb, na)
    } by {
        assert(!before(mode, r[j], r[i]));
        assert(same_kind(r[i], r[j]) ==> entry_rank(r[i]) == entry_rank(r[j]));
    }
}

/// The sort key of an entry, computed.
pub struct SortKey {
    pub rank: u8,
    pub num: u64,
    pub first: Vec<char>,
    pub second: Vec<char>,
}

pub open spec fn key_of(k: SortKey) -> Key {
    (k.rank as int, k.num as int, k.first@, k.second@)
}

fn make_key(mode: SortMode, e: &FileEntry) -> (k: SortKey)
    ensures
        key_of(k) == entry_key(mode, e@),
{
    let rank: u8 = if is_dotdot_str(e.name.as_str()) {
        0
    } else if e.is_dir {
        1
    } else {
        2
    };
    let ln = chars_of(to_lower(e.name.as_str()).as_str());
    match mode {
        SortMode::Name => SortKey { rank, num: 0, first: ln, second: Vec::new() },
        SortMode::Extension => {
            let le = chars_of(to_lower(e.extension()).as_str());
            SortKey { rank, num: 0, first: le, second: ln }
        },
        SortMode::Size => SortKey { rank, num: e.size, first: ln, second: Vec::new() },
        SortMode::Date => {
            let t = match e.modified {
                Some(t) => t,
                None => 0,
            };
            SortKey { rank, num: t, first: ln, second: Vec::new() }
        },
        SortMode::Unsorted => SortKey { rank, num: 0, first: Vec::new(), second: Vec::new() },
    }
}

fn key_less(a: &SortKey, b: &SortKey) -> (r: bool)
    ensures
        r == key_lt(key_of(*a), key_of(*b)),
{
    if a.rank != b.rank {
        return a.rank < b.rank;
    }
    if a.num != b.num {
        return a.num < b.num;
    }
    if lex_less(a.first.as_slice(), b.first.as_slice()) {
        return true;
    }
    if !crate::text::chars_equal(a.first.as_slice(), b.first.as_slice()) {
        return false;
    }
    lex_less(a.second.as_slice(), b.second.as_slice())
}

/// Stable sort of entries by precomputed keys: `keys[i]` is the key `kf`
/// gives `entries[i]`.
pub(crate) fn sort_keyed<T: DeepView>(entries: Vec<T>, keys: Vec<SortKey>, Ghost(kf): Ghost<spec_fn(T::V) -> Key>) -> (r: Vec<T>)
    requires
        keys.len() == entries.len(),
        forall|j: int| 0 <= j < keys.len() ==> key_of(#[trigger] keys@[j]) == kf(entries@[j].deep_view()),
    ensures
        r.deep_view() == sorted_with(kf, entries.deep_view()),
{
    let ghost orig = entries.deep_view();
    let mut src = entries;
    let mut src_keys = keys;
    let mut out: Vec<T> = Vec::new();
    let mut out_keys: Vec<SortKey> = Vec::new();
    let mut k: usize = 0;
    assert(orig.skip(0) =~= orig);
    assert(orig.take(0) =~= Seq::<T::V>::empty());
    let n = src.len();
    while src.len() > 0
        invariant
            k <= orig.len(),
            orig.len() == n,
            src.deep_view() == orig.skip(k as int),
            src_keys.len() == src.len(),
            forall|j: int| 0 <= j < src_keys.len() ==> key_of(#[trigger] src_keys@[j]) == kf(src@[j].deep_view()),
            out.deep_view() == sorted_with(kf, orig.take(k as int)),
            out_keys@.len() == out@.len(),
            forall|j: int| 0 <= j < out_keys@.len() ==> key_of(#[trigger] out_keys@[j]) == kf(out@[j].deep_view()),
        decreases src@.len(),
    {
        let ghost before_src = src.deep_view();
        assert(before_src.len() == src@.len());
        assert(before_src[0] == src@[0].deep_view());
        assert(orig.skip(k as int)[0] == orig[k as int]);
        let ghost src_keys_before = src_keys@;
        let ghost src_before = src@;
        let x = src.remove(0);
        let kx = src_keys.remove(0);
        assert(key_of(kx) == kf(x.deep_view())) by {
            assert(key_of(src_keys_before[0]) == kf(src_before[0].deep_view()));
        }
        assert(x.deep_view() == orig[k as int]);
        assert(src.deep_view() =~= orig.skip(k + 1)) by {
            assert(src.deep_view() =~= before_src.drop_first());
        }
        assert forall|j: int| 0 <= j < src_keys.len() implies key_of(#[trigger] src_keys@[j]) == kf(src@[j].deep_view()) by {
            assert(src_keys@[j] == src_keys_before[j + 1]);
            assert(src@[j] == src_before[j + 1]);
        }
        let mut p: usize = 0;
        while p < out.len() && !key_less(&kx, &out_keys[p])
            invariant
                p <= out@.len(),
                out_keys@.len() == out@.len(),
                forall|j: int| 0 <= j < out_keys@.len() ==> key_of(#[trigger] out_keys@[j]) == kf(out@[j].deep_view()),
                key_of(kx) == kf(x.deep_view()),
                forall|j: int| 0 <= j < p ==> !key_lt(kf(x.deep_view()), kf(#[trigger] out.deep_view()[j])),
            decreases out@.len() - p,
        {
            assert(out.deep_view()[p as int] == out@[p as int].deep_view());
            p += 1;
        }
        let ghost sorted_prev = out.deep_view();
        proof {
            if p < out@.len() {
                assert(sorted_prev[p as int] == out@[p as int].deep_view());
            }
            lemma_insert_pos(kf, sorted_prev, x.deep_view(), p as int);
            assert(orig.take(k + 1).drop_last() =~= orig.take(k as int));
            assert(orig.take(k + 1).last() == orig[k as int]);
        }
        out.insert(p, x);
        out_keys.insert(p, kx);
        k += 1;
        proof {
            assert(out.deep_view() =~= insert_sorted(kf, sorted_prev, orig[k - 1]));
            assert forall|j: int| 0 <= j < out_keys@.len() implies key_of(#[trigger] out_keys@[j]) == kf(out@[j].deep_view()) by {
                if j < p {
                } else if j == p {
                }
            }
        }
    }
    assert(orig.take(k as int) =~= orig);
    out
}

/// Stable sort of entries by the order of `mode`.
pub fn sort_by_mode(entries: Vec<FileEntry>, mode: SortMode) -> (r: Vec<FileEntry>)
    ensures
        r.deep_view() == sorted_by(mode, entries.deep_view()),
{
    let mut keys: Vec<SortKey> = Vec::new();
    let mut i: usize = 0;
    while i < entries.len()
        invariant
            i <= entries.len(),
            keys.len() == i,
            forall|j: int| 0 <= j < i ==> key_of(#[trigger] keys@[j]) == mode_key(mode)(entries@[j].deep_view()),
        decreases entries.len() - i,
    {
        let kx = make_key(mode, &entries[i]);
        keys.push(kx);
        i += 1;
    }
    sort_keyed(entries, keys, Ghost(mode_key(mode)))
}

// ── Loading a listing ───────────────────────────────────────────────

/// The `..` entry that leads to `parent`.
pub open spec fn dotdot_entry(parent: Seq<char>) -> EntryView {
    EntryView {
        name: seq!['.', '.'],
        path: parent,
        is_dir: true,
        is_symlink: false,
        size: 0,
        modified: None,
        is_readonly: false,
        is_hidden: false,
        is_executable: false,
        selected: false,
    }
}

/// A `..` entry first, when the directory has a parent other than itself.
pub open spec fn parent_part(path: Seq<char>) -> Seq<EntryView> {
    match crate::paths::parent(path) {
        Some(p) => if p != path {
            seq![dotdot_entry(p)]
        } else {
            Seq::empty()
        },
        None => Seq::empty(),
    }
}

/// A listed entry is shown unless it is hidden (its name starts with `.`)
/// and hidden files are off, or it is a file that the filter does not match.
pub open spec fn shown(e: EntryView, show_hidden: bool, filter: Option<Seq<char>>) -> bool {
    (show_hidden || !(e.name.len() > 0 && e.name[0] == '.')) && (e.is_dir || match filter {
        Some(f) => crate::wildcard::matches_wildcard(e.name, f),
        None => true,
    })
}

/// A listed entry as the panel holds it: neither hidden nor selected.
pub open spec fn fresh(e: EntryView) -> EntryView {
    EntryView { is_hidden: false, selected: false, ..e }
}

/// The shown entries of a listing, in listing order.
pub open spec fn shown_entries(l: Seq<EntryView>, show_hidden: bool, filter: Option<Seq<char>>) -> Seq<EntryView>
    decreases l.len(),
{
    if l.len() == 0 {
        Seq::empty()
    } else {
        let r = shown_entries(l.drop_last(), show_hidden, filter);
        if shown(l.last(), show_hidden, filter) {
            r.push(fresh(l.last()))
        } else {
            r
        }
    }
}

/// The entries a panel shows for a listing of its directory, sorted.
pub open spec fn loaded_entries(p: PanelView, listing: Seq<EntryView>) -> Seq<EntryView> {
    sorted_by(p.sort_mode, parent_part(p.path) + shown_entries(listing, p.show_hidden, p.filter))
}

/// The cursor kept inside `len` entries.
pub open spec fn clamp_cursor(cursor: usize, len: nat) -> usize {
    if cursor >= len {
        if len == 0 {
            0
        } else {
            (len - 1) as usize
        }
    } else {
        cursor
    }
}

/// The panel after reading `listing` for its directory.
pub open spec fn after_load(p: PanelView, listing: Seq<EntryView>) -> PanelView {
    let es = loaded_entries(p, listing);
    PanelView { entries: es, cursor: clamp_cursor(p.cursor, es.len()), ..p }
}

/// The scroll offset that keeps the cursor inside the visible rows.
pub open spec fn visible_scroll(cursor: usize, scroll: usize, height: usize) -> usize {
    if height == 0 {
        scroll
    } else {
        let s = if cursor < scroll {
            cursor
        } else {
            scroll
        };
        if cursor >= s + height {
            (cursor - height + 1) as usize
        } else {
            s
        }
    }
}

/// The panel with its scroll offset adjusted to show the cursor.
pub open spec fn scrolled(p: PanelView) -> PanelView {
    PanelView { scroll_offset: visible_scroll(p.cursor, p.scroll_offset, p.visible_height), ..p }
}

/// Scrolling arithmetic stays inside `usize`.
pub open spec fn room(p: PanelView) -> bool {
    p.scroll_offset + p.visible_height <= usize::MAX && p.cursor + p.visible_height <= usize::MAX
}

/// Index of the first entry at or after `j` with the given name.
pub open spec fn position_from(es: Seq<EntryView>, name: Seq<char>, j: int) -> Option<int>
    decreases es.len() - j,
{
    if j < 0 || j >= es.len() {
        None
    } else if es[j].name == name {
        Some(j)
    } else {
        position_from(es, name, j + 1)
    }
}

/// Index of the first entry with the given name.
pub open spec fn position_of(es: Seq<EntryView>, name: Seq<char>) -> Option<int> {
    position_from(es, name, 0)
}

fn dotdot_file_entry(parent: String) -> (e: FileEntry)
    ensures
        e@ == dotdot_entry(parent@),
{
    let mut name = String::new();
    crate::text::push_char(&mut name, '.');
    crate::text::push_char(&mut name, '.');
    assert(name@ =~= seq!['.', '.']);
    FileEntry {
        name,
        path: parent,
        is_dir: true,
        is_symlink: false,
        size: 0,
        modified: None,
        is_readonly: false,
        is_hidden: false,
        is_executable: false,
        selected: false,
    }
}

/// The selected entries, in order.
pub open spec fn selected_only(es: Seq<EntryView>) -> Seq<EntryView>
    decreases es.len(),
{
    if es.len() == 0 {
        Seq::empty()
    } else {
        let r = selected_only(es.drop_last());
        if es.last().selected {
            r.push(es.last())
        } else {
            r
        }
    }
}

/// The entries an operation works on: the selected ones, or else the entry
/// under the cursor unless it is `..`.
pub open spec fn selected_or_current(p: PanelView) -> Seq<EntryView> {
    let sel = selected_only(p.entries);
    if sel.len() == 0 {
        if p.cursor < p.entries.len() && !is_dotdot(p.entries[p.cursor as int].name) {
            seq![p.entries[p.cursor as int]]
        } else {
            Seq::empty()
        }
    } else {
        sel
    }
}

/// How many entries satisfy `f`.
pub open spec fn count_by(es: Seq<EntryView>, f: spec_fn(EntryView) -> bool) -> nat
    decreases es.len(),
{
    if es.len() == 0 {
        0
    } else {
        count_by(es.drop_last(), f) + if f(es.last()) { 1nat } else { 0nat }
    }
}

/// The total size of the entries that satisfy `f`.
pub open spec fn size_by(es: Seq<EntryView>, f: spec_fn(EntryView) -> bool) -> nat
    decreases es.len(),
{
    if es.len() == 0 {
        0
    } else {
        size_by(es.drop_last(), f) + if f(es.last()) { es.last().size as nat } else { 0nat }
    }
}

/// Files: entries that are neither a directory nor `..`.
pub open spec fn files() -> spec_fn(EntryView) -> bool {
    |e: EntryView| !e.is_dir && !is_dotdot(e.name)
}

/// Entries that are not directories.
pub open spec fn non_dirs() -> spec_fn(EntryView) -> bool {
    |e: EntryView| !e.is_dir
}

/// Selected entries.
pub open spec fn marked() -> spec_fn(EntryView) -> bool {
    |e: EntryView| e.selected
}

/// Partial sums do not exceed the whole.
pub proof fn lemma_size_by_prefix(es: Seq<EntryView>, f: spec_fn(EntryView) -> bool, i: int)
    requires
        0 <= i <= es.len(),
    ensures
        size_by(es.take(i), f) <= size_by(es, f),
    decreases es.len() - i,
{
    if i < es.len() {
        lemma_size_by_prefix(es, f, i + 1);
        assert(es.take(i + 1).drop_last() =~= es.take(i));
    } else {
        assert(es.take(i) =~= es);
    }
}

/// The first entry at or after `j` whose lower-case name starts with `lp`.
pub open spec fn prefix_from(es: Seq<EntryView>, lp: Seq<char>, j: int) -> Option<int>
    decreases es.len() - j,
{
    if j < 0 || j >= es.len() {
        None
    } else if crate::text::has_prefix(lowercase(es[j].name), lp) {
        Some(j)
    } else {
        prefix_from(es, lp, j + 1)
    }
}

/// The first entry whose lower-case name starts with `lp`.
pub open spec fn first_with_prefix(es: Seq<EntryView>, lp: Seq<char>) -> Option<int> {
    prefix_from(es, lp, 0)
}

/// The panel after going to the parent directory, whose entries are
/// `listing`: the directory it came from is put under the cursor.
pub open spec fn after_go_up(p: PanelView, listing: Seq<EntryView>) -> PanelView {
    match crate::paths::parent(p.path) {
        None => p,
        Some(par) => {
            let q = after_load(PanelView { path: par, ..p }, listing);
            match crate::paths::file_name(p.path) {
                Some(n) => match position_of(q.entries, n) {
                    Some(i) => scrolled(PanelView { cursor: i as usize, ..q }),
                    None => q,
                },
                None => q,
            }
        },
    }
}

/// What entering the entry under the cursor does, given the listing of the
/// directory it leads to.
pub open spec fn after_enter(p: PanelView, listing: Seq<EntryView>) -> PanelView {
    if p.cursor < p.entries.len() && p.entries[p.cursor as int].is_dir {
        let e = p.entries[p.cursor as int];
        if is_dotdot(e.name) {
            after_go_up(p, listing)
        } else {
            after_load(PanelView { path: e.path, cursor: 0, scroll_offset: 0, ..p }, listing)
        }
    } else {
        p
    }
}

/// The directory whose listing entering the cursor entry needs.
pub open spec fn enter_dir_target(p: PanelView) -> Option<Seq<char>> {
    if p.cursor < p.entries.len() && p.entries[p.cursor as int].is_dir {
        let e = p.entries[p.cursor as int];
        if is_dotdot(e.name) {
            crate::paths::parent(p.path)
        } else {
            Some(e.path)
        }
    } else {
        None
    }
}

impl Panel {
    /// A panel showing `path`, filled from `listing` (the entries read from
    /// that directory): sorted by name, hidden files off, no filter.
    pub fn new(path: String, listing: Vec<FileEntry>) -> (r: Panel)
        ensures
            r@ == after_load(
                PanelView {
                    path: path@,
                    entries: Seq::empty(),
                    cursor: 0,
                    scroll_offset: 0,
                    sort_mode: SortMode::Name,
                    panel_mode: PanelMode::Brief,
                    show_hidden: false,
                    visible_height: 20,
                    filter: None,
                },
                listing.deep_view(),
            ),
    {
        let mut panel = Panel {
            path,
            entries: Vec::new(),
            cursor: 0,
            scroll_offset: 0,
            sort_mode: SortMode::Name,
            panel_mode: PanelMode::Brief,
            show_hidden: false,
            visible_height: 20,
            filter: None,
        };
        panel.load_directory(listing);
        panel
    }

    /// Replaces the entries with `listing`, the entries read from the
    /// panel's directory: a `..` entry when there is a parent, then the shown
    /// entries, sorted; the cursor is kept inside the list.
    pub fn load_directory(&mut self, listing: Vec<FileEntry>)
        ensures
            final(self)@ == after_load(old(self)@, listing.deep_view()),
    {
        let ghost l = listing.deep_view();
        let mut es: Vec<FileEntry> = Vec::new();
        let ghost pp = parent_part(self.path@);
        match crate::paths::parent_of(self.path.as_str()) {
            Some(p) => {
                if !crate::text::str_equal(p.as_str(), self.path.as_str()) {
                    es.push(dotdot_file_entry(p));
                }
            },
            None => {},
        }
        assert(es.deep_view() =~= pp);
        let mut src = listing;
        let mut i: usize = 0;
        let n = src.len();
        let ghost fv: Option<Seq<char>> = self@.filter;
        assert(l.take(0) =~= Seq::<EntryView>::empty());
        while i < n
            invariant
                i <= n,
                n == l.len(),
                src.deep_view() == l,
                fv == self@.filter,
                es.deep_view() == pp + shown_entries(l.take(i as int), self.show_hidden, fv),
            decreases n - i,
        {
            let ghost ei = l[i as int];
            assert(src.deep_view()[i as int] == src@[i as int]@);
            assert(l.take(i + 1).drop_last() =~= l.take(i as int));
            assert(l.take(i + 1).last() == ei);
            let e = &src[i];
            let hidden = {
                let v = chars_of(e.name.as_str());
                v.len() > 0 && v[0] == '.'
            };
            let mut keep = self.show_hidden || !hidden;
            if keep && !e.is_dir {
                match &self.filter {
                    Some(f) => {
                        keep = crate::wildcard::wildcard_match(e.name.as_str(), f.as_str());
                    },
                    None => {},
                }
            }
            assert(e@ == ei);
            assert(keep == shown(ei, self.show_hidden, fv));
            if keep {
                let mut f = e.duplicate();
                f.is_hidden = false;
                f.selected = false;
                assert(f@ == fresh(ei));
                let ghost prev = es.deep_view();
                es.push(f);
                assert(es.deep_view() =~= prev.push(fresh(ei)));
                assert(es.deep_view() =~= pp + shown_entries(l.take(i + 1), self.show_hidden, fv));
            } else {
                assert(es.deep_view() =~= pp + shown_entries(l.take(i + 1), self.show_hidden, fv));
            }
            i += 1;
        }
        assert(l.take(n as int) =~= l);
        let sorted = sort_by_mode(es, self.sort_mode);
        self.entries = sorted;
        let len = self.entries.len();
        if self.cursor >= len {
            self.cursor = if len == 0 { 0 } else { len - 1 };
        }
        assert(self@ =~= after_load(old(self)@, l));
    }

    /// Sets the wildcard filter from a typed pattern (none for `*`, `*.*`
    /// or nothing), puts the cursor at the top and loads `listing`, the
    /// entries read from the panel's directory.
    pub fn apply_filter(&mut self, pattern: &str, listing: Vec<FileEntry>)
        ensures
            final(self)@ == after_load(
                (PanelView { filter: filter_of(pattern@), cursor: 0, scroll_offset: 0, ..old(self)@ }),
                listing.deep_view(),
            ),
    {
        proof {
            reveal_strlit("");
            assert(""@ =~= Seq::<char>::empty());
        }
        let ghost before = self@;
        let none = crate::text::str_equal(pattern, "*") || crate::text::str_equal(pattern, "*.*")
            || crate::text::str_equal(pattern, "");
        self.filter = if none {
            None
        } else {
            Some(crate::text::owned(pattern))
        };
        self.cursor = 0;
        self.scroll_offset = 0;
        assert(self.entries.deep_view() =~= before.entries);
        assert(self@ == (PanelView { filter: filter_of(pattern@), cursor: 0, scroll_offset: 0, ..before }));
        self.load_directory(listing);
    }

    /// Whether the panel shows a whole branch (see `show_branch`).
    pub fn is_branch(&self) -> (r: bool)
        ensures
            r == (self@.filter == Some(branch_marker())),
    {
        match &self.filter {
            Some(f) => crate::text::str_equal(f.as_str(), "__branch__"),
            None => false,
        }
    }

    /// Shows `files`, the files of the whole branch below the panel's
    /// directory, after a `..` entry when there is a parent, in the order
    /// given; the filter marks the branch and the cursor goes to the top.
    pub fn show_branch(&mut self, files: Vec<FileEntry>)
        ensures
            final(self)@ == (PanelView {
                entries: parent_part(old(self)@.path) + files.deep_view(),
                filter: Some(branch_marker()),
                cursor: 0,
                scroll_offset: 0,
                ..old(self)@
            }),
    {
        let ghost before = self@;
        let ghost fs = files.deep_view();
        let mut es: Vec<FileEntry> = Vec::new();
        match crate::paths::parent_of(self.path.as_str()) {
            Some(p) => {
                if !crate::text::str_equal(p.as_str(), self.path.as_str()) {
                    es.push(dotdot_file_entry(p));
                }
            },
            None => {},
        }
        let ghost pp = parent_part(self.path@);
        assert(es.deep_view() =~= pp);
        let mut i: usize = 0;
        assert(fs.take(0) =~= Seq::<EntryView>::empty());
        while i < files.len()
            invariant
                i <= fs.len(),
                fs == files.deep_view(),
                es.deep_view() == pp + fs.take(i as int),
            decreases fs.len() - i,
        {
            let e = files[i].duplicate();
            let ghost before_es = es.deep_view();
            es.push(e);
            assert(es.deep_view() =~= before_es.push(fs[i as int]));
            assert(pp + fs.take(i + 1) =~= (pp + fs.take(i as int)).push(fs[i as int]));
            i += 1;
        }
        assert(fs.take(fs.len() as int) =~= fs);
        self.entries = es;
        self.filter = Some(crate::text::owned("__branch__"));
        self.cursor = 0;
        self.scroll_offset = 0;
    }

    /// Sorts the entries by the panel's sort mode (stable).
    pub fn sort_entries(&mut self)
        ensures
            final(self)@ == (PanelView { entries: sorted_by(old(self)@.sort_mode, old(self)@.entries), ..old(self)@ }),
    {
        let mut es: Vec<FileEntry> = Vec::new();
        std::mem::swap(&mut es, &mut self.entries);
        let sorted = sort_by_mode(es, self.sort_mode);
        self.entries = sorted;
        assert(self@ =~= (PanelView { entries: sorted_by(old(self)@.sort_mode, old(self)@.entries), ..old(self)@ }));
    }

    /// Keeps the cursor inside the visible rows by moving the scroll offset.
    pub fn ensure_visible(&mut self)
        ensures
            final(self)@ == scrolled(old(self)@),
    {
        if self.visible_height == 0 {
            return;
        }
        if self.cursor < self.scroll_offset {
            self.scroll_offset = self.cursor;
        }
        if self.cursor - self.scroll_offset >= self.visible_height {
            self.scroll_offset = self.cursor - self.visible_height + 1;
        }
    }

    /// Moves the cursor one entry down, if there is one.
    pub fn cursor_down(&mut self)
        ensures
            final(self)@ == (if old(self)@.cursor + 1 < old(self)@.entries.len() {
                scrolled(PanelView { cursor: (old(self)@.cursor + 1) as usize, ..old(self)@ })
            } else {
                old(self)@
            }),
    {
        let len = self.entries.len();
        if self.cursor < len && self.cursor + 1 < len {
            self.cursor += 1;
            self.ensure_visible();
        }
    }

    /// Moves the cursor one entry up, if it is not at the top.
    pub fn cursor_up(&mut self)
        ensures
            final(self)@ == (if old(self)@.cursor > 0 {
                scrolled(PanelView { cursor: (old(self)@.cursor - 1) as usize, ..old(self)@ })
            } else {
                old(self)@
            }),
    {
        if self.cursor > 0 {
            self.cursor -= 1;
            self.ensure_visible();
        }
    }

    /// Moves the cursor to the first entry.
    pub fn cursor_home(&mut self)
        ensures
            final(self)@ == (PanelView { cursor: 0, scroll_offset: 0, ..old(self)@ }),
    {
        self.cursor = 0;
        self.scroll_offset = 0;
    }

    /// Moves the cursor to the last entry.
    pub fn cursor_end(&mut self)
        ensures
            final(self)@ == (if old(self)@.entries.len() > 0 {
                scrolled(PanelView { cursor: (old(self)@.entries.len() - 1) as usize, ..old(self)@ })
            } else {
                old(self)@
            }),
    {
        if self.entries.len() > 0 {
            self.cursor = self.entries.len() - 1;
            self.ensure_visible();
        }
    }

    /// Moves the cursor down by a page (the visible height less one), not
    /// past the last entry.
    pub fn page_down(&mut self)
        ensures
            final(self)@ == ({
                let p = old(self)@;
                let page = if p.visible_height >= 1 { p.visible_height - 1 } else { 0 };
                let last = if p.entries.len() >= 1 { p.entries.len() - 1 } else { 0 };
                let c = if p.cursor + page < last { p.cursor + page } else { last };
                scrolled(PanelView { cursor: c as usize, ..p })
            }),
    {
        let page = self.visible_height.saturating_sub(1);
        let last = self.entries.len().saturating_sub(1);
        let target = if self.cursor > usize::MAX - page { usize::MAX } else { self.cursor + page };
        self.cursor = if target < last { target } else { last };
        self.ensure_visible();
    }

    /// Moves the cursor up by a page (the visible height less one).
    pub fn page_up(&mut self)
        ensures
            final(self)@ == ({
                let p = old(self)@;
                let page = if p.visible_height >= 1 { p.visible_height - 1 } else { 0 };
                let c = if p.cursor >= page { p.cursor - page } else { 0 };
                scrolled(PanelView { cursor: c as usize, ..p })
            }),
    {
        let page = self.visible_height.saturating_sub(1);
        self.cursor = self.cursor.saturating_sub(page);
        self.ensure_visible();
    }

    /// The entry under the cursor.
    pub fn current_entry(&self) -> (r: Option<&FileEntry>)
        ensures
            match r {
                Some(e) => self.cursor < self@.entries.len() && e@ == self@.entries[self.cursor as int],
                None => self.cursor >= self@.entries.len(),
            },
    {
        if self.cursor < self.entries.len() {
            assert(self@.entries[self.cursor as int] == self.entries@[self.cursor as int]@);
            Some(&self.entries[self.cursor])
        } else {
            None
        }
    }

    /// Flips the selection of the entry under the cursor, unless it is `..`.
    pub fn toggle_select(&mut self)
        ensures
            final(self)@ == (if old(self)@.cursor < old(self)@.entries.len() && !is_dotdot(old(self)@.entries[old(self)@.cursor as int].name) {
                let e = old(self)@.entries[old(self)@.cursor as int];
                PanelView { entries: old(self)@.entries.update(old(self)@.cursor as int, EntryView { selected: !e.selected, ..e }), ..old(self)@ }
            } else {
                old(self)@
            }),
    {
        let c = self.cursor;
        if c < self.entries.len() {
            assert(self@.entries[c as int] == self.entries@[c as int]@);
            if !is_dotdot_str(self.entries[c].name.as_str()) {
                let v = !self.entries[c].selected;
                self.entries[c].selected = v;
                proof {
                    let e = old(self)@.entries[c as int];
                    assert(self.entries.deep_view() =~= old(self)@.entries.update(c as int, EntryView { selected: !e.selected, ..e })) by {
                        assert forall|j: int| 0 <= j < self.entries@.len() implies self.entries.deep_view()[j] == old(self)@.entries.update(c as int, EntryView { selected: !e.selected, ..e })[j] by {
                            assert(self.entries.deep_view()[j] == self.entries@[j]@);
                            assert(old(self)@.entries[j] == old(self).entries@[j]@);
                        }
                    }
                }
                assert(self@ =~= ({
                    let e = old(self)@.entries[c as int];
                    PanelView { entries: old(self)@.entries.update(c as int, EntryView { selected: !e.selected, ..e }), ..old(self)@ }
                }));
            }
        }
    }

    /// Marks every file (not `..`, not a directory) whose lower-case name
    /// matches the lower-case pattern.
    pub fn select_by_pattern(&mut self, pattern: &str)
        ensures
            final(self)@ == (PanelView {
                entries: Seq::new(old(self)@.entries.len(), |i: int| {
                    let e = old(self)@.entries[i];
                    if !is_dotdot(e.name) && !e.is_dir && crate::wildcard::matches_wildcard(lowercase(e.name), lowercase(pattern@)) {
                        EntryView { selected: true, ..e }
                    } else {
                        e
                    }
                }),
                ..old(self)@
            }),
    {
        let lp = to_lower(pattern);
        let n = self.entries.len();
        let mut i: usize = 0;
        while i < n
            invariant
                i <= n,
                n == self.entries@.len(),
                n == old(self).entries@.len(),
                self.path == old(self).path,
                self.cursor == old(self).cursor,
                self.scroll_offset == old(self).scroll_offset,
                self.sort_mode == old(self).sort_mode,
                self.panel_mode == old(self).panel_mode,
                self.show_hidden == old(self).show_hidden,
                self.visible_height == old(self).visible_height,
                self.filter == old(self).filter,
                lp@ == lowercase(pattern@),
                forall|j: int| 0 <= j < n ==> #[trigger] self.entries@[j]@ == (if j < i {
                    let e = old(self).entries@[j]@;
                    if !is_dotdot(e.name) && !e.is_dir && crate::wildcard::matches_wildcard(lowercase(e.name), lowercase(pattern@)) {
                        EntryView { selected: true, ..e }
                    } else {
                        e
                    }
                } else {
                    old(self).entries@[j]@
                }),
            decreases n - i,
        {
            assert(self.entries@[i as int]@ == old(self).entries@[i as int]@);
            let hit = {
                let e = &self.entries[i];
                if !is_dotdot_str(e.name.as_str()) && !e.is_dir {
                    let ln = to_lower(e.name.as_str());
                    crate::wildcard::wildcard_match(ln.as_str(), lp.as_str())
                } else {
                    false
                }
            };
            if hit {
                self.entries[i].selected = true;
            }
            i += 1;
        }
        assert(self.entries.deep_view() =~= Seq::new(old(self)@.entries.len(), |i: int| {
            let e = old(self)@.entries[i];
            if !is_dotdot(e.name) && !e.is_dir && crate::wildcard::matches_wildcard(lowercase(e.name), lowercase(pattern@)) {
                EntryView { selected: true, ..e }
            } else {
                e
            }
        }));
    }

    /// Unmarks every entry whose lower-case name matches the lower-case
    /// pattern.
    pub fn deselect_by_pattern(&mut self, pattern: &str)
        ensures
            final(self)@ == (PanelView {
                entries: Seq::new(old(self)@.entries.len(), |i: int| {
                    let e = old(self)@.entries[i];
                    if crate::wildcard::matches_wildcard(lowercase(e.name), lowercase(pattern@)) {
                        EntryView { selected: false, ..e }
                    } else {
                        e
                    }
                }),
                ..old(self)@
            }),
    {
        let lp = to_lower(pattern);
        let n = self.entries.len();
        let mut i: usize = 0;
        while i < n
            invariant
                i <= n,
                n == self.entries@.len(),
                n == old(self).entries@.len(),
                self.path == old(self).path,
                self.cursor == old(self).cursor,
                self.scroll_offset == old(self).scroll_offset,
                self.sort_mode == old(self).sort_mode,
                self.panel_mode == old(self).panel_mode,
                self.show_hidden == old(self).show_hidden,
                self.visible_height == old(self).visible_height,
                self.filter == old(self).filter,
                lp@ == lowercase(pattern@),
                forall|j: int| 0 <= j < n ==> #[trigger] self.entries@[j]@ == (if j < i {
                    let e = old(self).entries@[j]@;
                    if crate::wildcard::matches_wildcard(lowercase(e.name), lowercase(pattern@)) {
                        EntryView { selected: false, ..e }
                    } else {
                        e
                    }
                } else {
                    old(self).entries@[j]@
                }),
            decreases n - i,
        {
            assert(self.entries@[i as int]@ == old(self).entries@[i as int]@);
            let hit = {
                let ln = to_lower(self.entries[i].name.as_str());
                crate::wildcard::wildcard_match(ln.as_str(), lp.as_str())
            };
            if hit {
                self.entries[i].selected = false;
            }
            i += 1;
        }
        assert(self.entries.deep_view() =~= Seq::new(old(self)@.entries.len(), |i: int| {
            let e = old(self)@.entries[i];
            if crate::wildcard::matches_wildcard(lowercase(e.name), lowercase(pattern@)) {
                EntryView { selected: false, ..e }
            } else {
                e
            }
        }));
    }

    /// Flips the selection of every entry but `..`.
    pub fn invert_selection(&mut self)
        ensures
            final(self)@ == (PanelView {
                entries: Seq::new(old(self)@.entries.len(), |i: int| {
                    let e = old(self)@.entries[i];
                    if !is_dotdot(e.name) {
                        EntryView { selected: !e.selected, ..e }
                    } else {
                        e
                    }
                }),
                ..old(self)@
            }),
    {
        let n = self.entries.len();
        let mut i: usize = 0;
        while i < n
            invariant
                i <= n,
                n == self.entries@.len(),
                n == old(self).entries@.len(),
                self.path == old(self).path,
                self.cursor == old(self).cursor,
                self.scroll_offset == old(self).scroll_offset,
                self.sort_mode == old(self).sort_mode,
                self.panel_mode == old(self).panel_mode,
                self.show_hidden == old(self).show_hidden,
                self.visible_height == old(self).visible_height,
                self.filter == old(self).filter,
                forall|j: int| 0 <= j < n ==> #[trigger] self.entries@[j]@ == (if j < i {
                    let e = old(self).entries@[j]@;
                    if !is_dotdot(e.name) {
                        EntryView { selected: !e.selected, ..e }
                    } else {
                        e
                    }
                } else {
                    old(self).entries@[j]@
                }),
            decreases n - i,
        {
            if !is_dotdot_str(self.entries[i].name.as_str()) {
                let v = !self.entries[i].selected;
                self.entries[i].selected = v;
            }
            i += 1;
        }
        assert(self.entries.deep_view() =~= Seq::new(old(self)@.entries.len(), |i: int| {
            let e = old(self)@.entries[i];
            if !is_dotdot(e.name) {
                EntryView { selected: !e.selected, ..e }
            } else {
                e
            }
        }));
    }

    /// Gives each directory entry but `..` the size counted for it
    /// (`sizes[i]` for entry `i`, where it is `Some`).
    pub fn apply_dir_sizes(&mut self, sizes: &Vec<Option<u64>>)
        requires
            sizes.len() == old(self).entries.len(),
        ensures
            final(self)@ == (PanelView {
                entries: Seq::new(old(self)@.entries.len(), |i: int| {
                    let e = old(self)@.entries[i];
                    if e.is_dir && !is_dotdot(e.name) && sizes@[i] is Some {
                        EntryView { size: sizes@[i]->0, ..e }
                    } else {
                        e
                    }
                }),
                ..old(self)@
            }),
    {
        let n = self.entries.len();
        let mut i: usize = 0;
        while i < n
            invariant
                i <= n,
                n == self.entries@.len(),
                n == old(self).entries@.len(),
                n == sizes@.len(),
                self.path == old(self).path,
                self.cursor == old(self).cursor,
                self.scroll_offset == old(self).scroll_offset,
                self.sort_mode == old(self).sort_mode,
                self.panel_mode == old(self).panel_mode,
                self.show_hidden == old(self).show_hidden,
                self.visible_height == old(self).visible_height,
                self.filter == old(self).filter,
                forall|j: int| 0 <= j < n ==> #[trigger] self.entries@[j]@ == (if j < i {
                    let e = old(self).entries@[j]@;
                    if e.is_dir && !is_dotdot(e.name) && sizes@[j] is Some {
                        EntryView { size: sizes@[j]->0, ..e }
                    } else {
                        e
                    }
                } else {
                    old(self).entries@[j]@
                }),
            decreases n - i,
        {
            assert(self.entries@[i as int]@ == old(self).entries@[i as int]@);
            let counted = sizes[i];
            if self.entries[i].is_dir && !is_dotdot_str(self.entries[i].name.as_str()) {
                if let Some(size) = counted {
                    self.entries[i].size = size;
                }
            }
            i += 1;
        }
        assert(self.entries.deep_view() =~= Seq::new(old(self)@.entries.len(), |i: int| {
            let e = old(self)@.entries[i];
            if e.is_dir && !is_dotdot(e.name) && sizes@[i] is Some {
                EntryView { size: sizes@[i]->0, ..e }
            } else {
                e
            }
        }));
    }

    /// Unmarks every entry.
    pub fn clear_selection(&mut self)
        ensures
            final(self)@ == (PanelView {
                entries: Seq::new(old(self)@.entries.len(), |i: int| EntryView { selected: false, ..old(self)@.entries[i] }),
                ..old(self)@
            }),
    {
        let n = self.entries.len();
        let mut i: usize = 0;
        while i < n
            invariant
                i <= n,
                n == self.entries@.len(),
                n == old(self).entries@.len(),
                self.path == old(self).path,
                self.cursor == old(self).cursor,
                self.scroll_offset == old(self).scroll_offset,
                self.sort_mode == old(self).sort_mode,
                self.panel_mode == old(self).panel_mode,
                self.show_hidden == old(self).show_hidden,
                self.visible_height == old(self).visible_height,
                self.filter == old(self).filter,
                forall|j: int| 0 <= j < n ==> #[trigger] self.entries@[j]@ == (if j < i {
                    EntryView { selected: false, ..old(self).entries@[j]@ }
                } else {
                    old(self).entries@[j]@
                }),
            decreases n - i,
        {
            assert(self.entries@[i as int]@ == old(self).entries@[i as int]@);
            self.entries[i].selected = false;
            i += 1;
        }
        assert(self.entries.deep_view() =~= Seq::new(old(self)@.entries.len(), |i: int| EntryView { selected: false, ..old(self)@.entries[i] }));
    }

    /// The selected entries, or the entry under the cursor (not `..`) when
    /// none is selected.
    pub fn get_selected_or_current(&self) -> (r: Vec<&FileEntry>)
        ensures
            r@.map_values(|e: &FileEntry| e@) == selected_or_current(self@),
    {
        let mut sel: Vec<&FileEntry> = Vec::new();
        let n = self.entries.len();
        let mut i: usize = 0;
        let ghost es = self@.entries;
        assert(es.take(0) =~= Seq::<EntryView>::empty());
        while i < n
            invariant
                i <= n,
                n == es.len(),
                es == self@.entries,
                sel@.map_values(|e: &FileEntry| e@) == selected_only(es.take(i as int)),
            decreases n - i,
        {
            assert(es[i as int] == self.entries@[i as int]@);
            assert(es.take(i + 1).drop_last() =~= es.take(i as int));
            assert(es.take(i + 1).last() == es[i as int]);
            if self.entries[i].selected {
                sel.push(&self.entries[i]);
            }
            assert(sel@.map_values(|e: &FileEntry| e@) =~= selected_only(es.take(i + 1)));
            i += 1;
        }
        assert(es.take(n as int) =~= es);
        if sel.len() == 0 {
            if self.cursor < n {
                assert(es[self.cursor as int] == self.entries@[self.cursor as int]@);
                if !is_dotdot_str(self.entries[self.cursor].name.as_str()) {
                    let mut one: Vec<&FileEntry> = Vec::new();
                    one.push(&self.entries[self.cursor]);
                    assert(one@.map_values(|e: &FileEntry| e@) =~= selected_or_current(self@));
                    return one;
                }
            }
            let none: Vec<&FileEntry> = Vec::new();
            assert(none@.map_values(|e: &FileEntry| e@) =~= selected_or_current(self@));
            none
        } else {
            sel
        }
    }

    /// Status-line figures: the number of files, their total size, the
    /// number of selected entries and their total size. The totals must fit
    /// in `u64`.
    pub fn get_info(&self) -> (r: (usize, u64, usize, u64))
        requires
            size_by(self@.entries, non_dirs()) <= u64::MAX,
            size_by(self@.entries, marked()) <= u64::MAX,
        ensures
            r.0 == count_by(self@.entries, files()),
            r.1 == size_by(self@.entries, non_dirs()),
            r.2 == count_by(self@.entries, marked()),
            r.3 == size_by(self@.entries, marked()),
    {
        let ghost es = self@.entries;
        let ghost ff = files();
        let ghost fd = non_dirs();
        let ghost fs = marked();
        let n = self.entries.len();
        let mut file_count: usize = 0;
        let mut total: u64 = 0;
        let mut sel: usize = 0;
        let mut sel_size: u64 = 0;
        let mut i: usize = 0;
        assert(es.take(0) =~= Seq::<EntryView>::empty());
        while i < n
            invariant
                i <= n,
                n == es.len(),
                es == self@.entries,
                size_by(es, fd) <= u64::MAX,
                size_by(es, fs) <= u64::MAX,
                ff == files(),
                fd == non_dirs(),
                fs == marked(),
                file_count as nat == count_by(es.take(i as int), ff),
                total as nat == size_by(es.take(i as int), fd),
                sel as nat == count_by(es.take(i as int), fs),
                sel_size as nat == size_by(es.take(i as int), fs),
                file_count <= i,
                sel <= i,
            decreases n - i,
        {
            let e = &self.entries[i];
            assert(es[i as int] == e@);
            assert(es.take(i + 1).drop_last() =~= es.take(i as int));
            assert(es.take(i + 1).last() == es[i as int]);
            proof {
                lemma_size_by_prefix(es, fd, i + 1);
                lemma_size_by_prefix(es, fs, i + 1);
                let x = es[i as int];
                assert(ff(x) == (!x.is_dir && !is_dotdot(x.name)));
                assert(fd(x) == !x.is_dir);
                assert(fs(x) == x.selected);
                assert(count_by(es.take(i + 1), ff) == count_by(es.take(i as int), ff) + if ff(x) { 1nat } else { 0nat });
                assert(size_by(es.take(i + 1), fd) == size_by(es.take(i as int), fd) + if fd(x) { x.size as nat } else { 0nat });
                assert(count_by(es.take(i + 1), fs) == count_by(es.take(i as int), fs) + if fs(x) { 1nat } else { 0nat });
                assert(size_by(es.take(i + 1), fs) == size_by(es.take(i as int), fs) + if fs(x) { x.size as nat } else { 0nat });
            }
            if !e.is_dir && !is_dotdot_str(e.name.as_str()) {
                file_count += 1;
            }
            if !e.is_dir {
                total = total + e.size;
            }
            if e.selected {
                sel += 1;
                sel_size = sel_size + e.size;
            }
            i += 1;
        }
        assert(es.take(n as int) =~= es);
        (file_count, total, sel, sel_size)
    }

    /// Puts the cursor on the first entry whose lower-case name starts with
    /// the lower-case `prefix`; false when there is none.
    pub fn quick_search(&mut self, prefix: &str) -> (found: bool)
        ensures
            found == first_with_prefix(old(self)@.entries, lowercase(prefix@)) is Some,
            final(self)@ == (match first_with_prefix(old(self)@.entries, lowercase(prefix@)) {
                Some(i) => scrolled(PanelView { cursor: i as usize, ..old(self)@ }),
                None => old(self)@,
            }),
    {
        let lp = to_lower(prefix);
        let lpv = chars_of(lp.as_str());
        let n = self.entries.len();
        let mut i: usize = 0;
        let ghost es = self@.entries;
        while i < n
            invariant
                i <= n,
                n == es.len(),
                es == self@.entries,
                self@ == old(self)@,
                lpv@ == lowercase(prefix@),
                first_with_prefix(es, lpv@) == prefix_from(es, lpv@, i as int),
            decreases n - i,
        {
            assert(es[i as int] == self.entries@[i as int]@);
            let ln = chars_of(to_lower(self.entries[i].name.as_str()).as_str());
            if crate::text::starts_with_chars(ln.as_slice(), lpv.as_slice()) {
                assert(first_with_prefix(es, lpv@) == Some(i as int));
                self.cursor = i;
                self.ensure_visible();
                return true;
            }
            i += 1;
        }
        false
    }

    /// Goes to the parent directory, whose entries are `listing`, and puts
    /// the directory it came from under the cursor. Without a parent
    /// nothing changes.
    #[verifier::loop_isolation(false)]
    pub fn go_up(&mut self, listing: Vec<FileEntry>)
        ensures
            final(self)@ == after_go_up(old(self)@, listing.deep_view()),
    {
        match crate::paths::parent_of(self.path.as_str()) {
            None => {},
            Some(parent) => {
                let old_name = crate::paths::file_name_of(self.path.as_str());
                let ghost par = parent@;
                self.path = parent;
                let ghost mid = self@;
                assert(mid == PanelView { path: par, ..old(self)@ });
                self.load_directory(listing);
                match old_name {
                    Some(name) => {
                        let n = self.entries.len();
                        let mut i: usize = 0;
                        let ghost es = self@.entries;
                        while i < n
                            invariant
                                i <= n,
                                n == es.len(),
                                es == self@.entries,
                                self@ == after_load(mid, listing.deep_view()),
                                position_of(es, name@) == position_from(es, name@, i as int),
                            decreases n - i,
                        {
                            assert(es[i as int] == self.entries@[i as int]@);
                            if crate::text::str_equal(self.entries[i].name.as_str(), name.as_str()) {
                                assert(es[i as int].name == name@);
                                assert(position_from(es, name@, i as int) == Some(i as int));
                                assert(position_of(es, name@) == Some(i as int));
                                self.cursor = i;
                                self.ensure_visible();
                                return;
                            }
                            i += 1;
                        }
                    },
                    None => {},
                }
            },
        }
    }

    /// The directory that `enter_dir` needs the listing of, if the entry
    /// under the cursor is a directory (for `..`, the parent, if any).
    pub fn enter_target(&self) -> (r: Option<String>)
        ensures
            match r {
                Some(t) => enter_dir_target(self@) == Some(t@),
                None => enter_dir_target(self@) is None,
            },
    {
        if self.cursor < self.entries.len() {
            let e = &self.entries[self.cursor];
            assert(self@.entries[self.cursor as int] == e@);
            if e.is_dir {
                if is_dotdot_str(e.name.as_str()) {
                    return crate::paths::parent_of(self.path.as_str());
                } else {
                    return Some(e.path.clone());
                }
            }
        }
        None
    }

    /// Enters the directory under the cursor (for `..`, goes up), filling
    /// the panel from `listing`; true when the cursor was on a directory.
    pub fn enter_dir(&mut self, listing: Vec<FileEntry>) -> (r: bool)
        ensures
            r == (old(self)@.cursor < old(self)@.entries.len() && old(self)@.entries[old(self)@.cursor as int].is_dir),
            final(self)@ == after_enter(old(self)@, listing.deep_view()),
    {
        if self.cursor < self.entries.len() {
            assert(self@.entries[self.cursor as int] == self.entries@[self.cursor as int]@);
            if self.entries[self.cursor].is_dir {
                if is_dotdot_str(self.entries[self.cursor].name.as_str()) {
                    self.go_up(listing);
                } else {
                    self.path = self.entries[self.cursor].path.clone();
                    self.cursor = 0;
                    self.scroll_offset = 0;
                    self.load_directory(listing);
                }
                return true;
            }
        }
        false
    }
}

} // verus!
