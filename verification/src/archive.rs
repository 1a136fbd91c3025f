//! Archive browser: the entries of a zip or tar archive shown as a tree of
//! directories, one level at a time, with a cursor.

use vstd::prelude::*;
use crate::panel::{key_of, key_lt, lemma_sort_with_orders, sort_keyed, sorted_with, Key, SortKey};
use crate::paths::{extension, file_name};
use crate::text::{
    append_str, ascii_lower_seq, chars_of, chars_equal, equals, has_prefix, index_of_or_len,
    lowercase, owned, push_char, starts_with_chars, string_of, strip_end, to_ascii_lower, to_lower,
};
use crate::types::{EntryView, FileEntry};

verus! {

/// A file or directory inside an archive. `path` is its full path there;
/// `modified` is in nanoseconds since the Unix epoch.
#[derive(Debug, Clone)]
pub struct ArchiveEntry {
    pub name: String,
    pub path: String,
    pub is_dir: bool,
    pub size: u64,
    pub compressed_size: u64,
    pub modified: Option<u64>,
}

/// Archive browser state: the archive, its entries, the directory shown
/// (empty at the top, else ending in `/`), and the cursor.
#[derive(Debug)]
pub struct ArchiveBrowser {
    pub archive_path: String,
    pub archive_type: ArchiveType,
    pub entries: Vec<ArchiveEntry>,
    pub current_dir: String,
    pub cursor: usize,
    pub scroll_offset: usize,
    pub visible_height: usize,
}

/// The kinds of archive the browser reads.
#[derive(Debug, Clone, Copy, PartialEq, Eq, Structural)]
pub enum ArchiveType {
    Zip,
    TarGz,
    Tar,
}

/// An archive entry as plain values: its path, whether it is a directory,
/// its size and modification time.
pub type ArchiveItem = (Seq<char>, bool, u64, Option<u64>);

/// The plain values of an archive entry.
pub open spec fn item_of(e: ArchiveEntry) -> ArchiveItem {
    (e.path@, e.is_dir, e.size, e.modified)
}

/// The plain values of a list of archive entries.
pub open spec fn items_of(es: Seq<ArchiveEntry>) -> Seq<ArchiveItem> {
    es.map_values(|e: ArchiveEntry| item_of(e))
}

/// The archive kind of a lower-case file extension.
pub open spec fn type_for_ext(ext: Seq<char>) -> Option<ArchiveType> {
    if ext == "zip"@ || ext == "jar"@ || ext == "war"@ || ext == "apk"@ || ext == "epub"@ {
        Some(ArchiveType::Zip)
    } else if ext == "gz"@ || ext == "tgz"@ {
        Some(ArchiveType::TarGz)
    } else if ext == "tar"@ {
        Some(ArchiveType::Tar)
    } else {
        None
    }
}

/// The extension of a path in ASCII lower case, empty when it has none.
pub open spec fn lower_ext(path: Seq<char>) -> Seq<char> {
    match extension(path) {
        Some(e) => ascii_lower_seq(e),
        None => Seq::empty(),
    }
}

/// An entry of the listing: read-only, not hidden, executable or selected,
/// and not a link.
pub open spec fn listed(name: Seq<char>, path: Seq<char>, is_dir: bool, size: u64, modified: Option<u64>) -> EntryView {
    EntryView {
        name,
        path,
        is_dir,
        is_symlink: false,
        size,
        modified,
        is_readonly: true,
        is_hidden: false,
        is_executable: false,
        selected: false,
    }
}

/// The part of an entry's path below the directory shown, without
/// trailing slashes.
pub open spec fn below(path: Seq<char>, prefix: Seq<char>) -> Seq<char> {
    strip_end(path.skip(prefix.len() as int), equals('/'))
}

/// The entries shown for directory `prefix`, from entry `i` on, given the
/// directory names already shown: each direct child once (a directory
/// only the first time its name comes up), and for a deeper entry its
/// top directory below `prefix`, once.
pub open spec fn listing_from(items: Seq<ArchiveItem>, prefix: Seq<char>, i: int, seen: Seq<Seq<char>>) -> Seq<EntryView>
    decreases items.len() - i,
{
    if i < 0 || i >= items.len() {
        Seq::empty()
    } else {
        let (path, is_dir, size, modified) = items[i];
        let t = below(path, prefix);
        let k = index_of_or_len(t, '/');
        if !has_prefix(path, prefix) || path.len() == prefix.len() {
            listing_from(items, prefix, i + 1, seen)
        } else if k == t.len() {
            if t.len() == 0 {
                listing_from(items, prefix, i + 1, seen)
            } else if is_dir {
                if seen.contains(t) {
                    listing_from(items, prefix, i + 1, seen)
                } else {
                    seq![listed(t, path, true, size, modified)] + listing_from(items, prefix, i + 1, seen.push(t))
                }
            } else {
                seq![listed(t, path, false, size, modified)] + listing_from(items, prefix, i + 1, seen)
            }
        } else {
            let d = t.take(k);
            if seen.contains(d) {
                listing_from(items, prefix, i + 1, seen)
            } else {
                seq![listed(d, prefix + d + seq!['/'], true, 0, None)] + listing_from(items, prefix, i + 1, seen.push(d))
            }
        }
    }
}

/// The order of the listing: directories first, then by lower-case name.
pub open spec fn archive_key() -> spec_fn(EntryView) -> Key {
    |e: EntryView| ((if e.is_dir { 0int } else { 1int }), 0int, lowercase(e.name), Seq::<char>::empty())
}

/// The `..` entry shown inside a directory of the archive.
pub open spec fn up_entry() -> EntryView {
    listed(".."@, ".."@, true, 0, None)
}

/// What the browser shows for directory `prefix`: `..` below the top, then
/// the listing sorted with directories first and by name.
pub open spec fn shown_listing(items: Seq<ArchiveItem>, prefix: Seq<char>) -> Seq<EntryView> {
    let l = sorted_with(archive_key(), listing_from(items, prefix, 0, Seq::empty()));
    if prefix.len() == 0 { l } else { seq![up_entry()] + l }
}

/// The order of what the browser shows: below the top, `..` comes first;
/// after it, directories come before files, and among directories, and
/// among files, the lower-case names do not go down. The entries after
/// `..` are those of the directory's listing, each once.
pub proof fn lemma_shown_order(items: Seq<ArchiveItem>, prefix: Seq<char>)
    ensures
        ({
            let r = shown_listing(items, prefix);
            let off: int = if prefix.len() == 0 { 0 } else { 1 };
            &&& prefix.len() > 0 ==> r.len() >= 1 && r[0] == up_entry()
            &&& r.skip(off).to_multiset() == listing_from(items, prefix, 0, Seq::empty()).to_multiset()
            &&& forall|i: int, j: int| off <= i < j < r.len() ==> (#[trigger] r[j]).is_dir ==> (#[trigger] r[i]).is_dir
            &&& forall|i: int, j: int| off <= i < j < r.len() && (#[trigger] r[i]).is_dir == (#[trigger] r[j]).is_dir
                ==> !crate::text::lex_lt(lowercase(r[j].name), lowercase(r[i].name))
        }),
{
    let l = sorted_with(archive_key(), listing_from(items, prefix, 0, Seq::empty()));
    lemma_sort_with_orders(archive_key(), listing_from(items, prefix, 0, Seq::empty()));
    let r = shown_listing(items, prefix);
    let off: int = if prefix.len() == 0 { 0 } else { 1 };
    assert(r.skip(off) =~= l);
    assert forall|i: int, j: int| off <= i < j < r.len() implies {
        &&& (#[trigger] r[j]).is_dir ==> (#[trigger] r[i]).is_dir
        &&& r[i].is_dir == r[j].is_dir ==> !crate::text::lex_lt(lowercase(r[j].name), lowercase(r[i].name))
    } by {
        assert(r[i] == l[i - off]);
        assert(r[j] == l[j - off]);
        assert(!key_lt(archive_key()(l[j - off]), archive_key()(l[i - off])));
    }
}

/// The directory above `dir`: up to and including the last `/` before its
/// final character, or the top.
pub open spec fn dir_above(dir: Seq<char>) -> Seq<char> {
    let head = if dir.len() > 0 { dir.drop_last() } else { dir };
    let k = crate::paths::last_index(head, '/');
    if k >= 0 { head.take(k + 1) } else { Seq::empty() }
}

/// No name in the listing from entry `i` on holds a `/`.
proof fn lemma_listing_names(items: Seq<ArchiveItem>, prefix: Seq<char>, i: int, seen: Seq<Seq<char>>)
    ensures
        forall|j: int, q: int| 0 <= j < listing_from(items, prefix, i, seen).len()
            && 0 <= q < listing_from(items, prefix, i, seen)[j].name.len()
            ==> #[trigger] listing_from(items, prefix, i, seen)[j].name[q] != '/',
    decreases items.len() - i,
{
    if 0 <= i < items.len() {
        let (path, is_dir, size, modified) = items[i];
        let t = below(path, prefix);
        let k = index_of_or_len(t, '/');
        crate::text::lemma_index_of_or_len(t, '/');
        lemma_listing_names(items, prefix, i + 1, seen);
        lemma_listing_names(items, prefix, i + 1, seen.push(t));
        lemma_listing_names(items, prefix, i + 1, seen.push(t.take(k)));
    }
}

/// Inside a directory `d` (the top, or a path ending in `/`), entering a
/// directory of the listing and then its `..` entry comes back to `d`: the
/// directory entered is `d`, the name and `/`; its listing starts with
/// `..`; and the directory above it is `d`.
pub proof fn lemma_enter_then_up(items: Seq<ArchiveItem>, d: Seq<char>, c: int)
    requires
        d.len() == 0 || d.last() == '/',
        0 <= c < shown_listing(items, d).len(),
        shown_listing(items, d)[c].is_dir,
        shown_listing(items, d)[c].name != ".."@,
    ensures
        ({
            let d2 = d + shown_listing(items, d)[c].name + seq!['/'];
            &&& shown_listing(items, d2)[0] == up_entry()
            &&& shown_listing(items, d2)[0].name == ".."@
            &&& dir_above(d2) == d
        }),
{
    let es = shown_listing(items, d);
    let l = listing_from(items, d, 0, Seq::empty());
    let sorted = sorted_with(archive_key(), l);
    let e = es[c];
    let n = e.name;
    crate::panel::lemma_sort_with_orders(archive_key(), l);
    broadcast use vstd::seq_lib::group_to_multiset_ensures;
    assert(sorted.contains(e)) by {
        if d.len() == 0 {
            assert(es == sorted);
            assert(sorted[c] == e);
        } else {
            assert(es == seq![up_entry()] + sorted);
            if c == 0 {
                assert(e == up_entry());
            }
            assert(sorted[c - 1] == e);
        }
    }
    assert(l.to_multiset().count(e) > 0);
    assert(l.contains(e));
    let j = choose|j: int| 0 <= j < l.len() && l[j] == e;
    lemma_listing_names(items, d, 0, Seq::empty());
    assert forall|q: int| 0 <= q < n.len() implies n[q] != '/' by {
        assert(l[j].name[q] != '/');
    }
    let d2 = d + n + seq!['/'];
    assert(d2.len() > 0);
    let head = d2.drop_last();
    assert(head =~= d + n);
    if d.len() == 0 {
        assert forall|q: int| 0 <= q < head.len() implies head[q] != '/' by {
            assert(head[q] == n[q]);
        }
        lemma_no_last_index(head);
        assert(dir_above(d2) =~= d);
    } else {
        lemma_last_index_after(d, n);
        assert(head.take(d.len() as int) =~= d);
    }
}

/// A text without `/` has no last `/`.
proof fn lemma_no_last_index(s: Seq<char>)
    requires
        forall|q: int| 0 <= q < s.len() ==> s[q] != '/',
    ensures
        crate::paths::last_index(s, '/') == -1,
    decreases s.len(),
{
    if s.len() > 0 {
        lemma_no_last_index(s.drop_last());
    }
}

/// The last `/` of `d + n`, where `d` ends in `/` and `n` has none, is the
/// last character of `d`.
proof fn lemma_last_index_after(d: Seq<char>, n: Seq<char>)
    requires
        d.len() > 0,
        d.last() == '/',
        forall|q: int| 0 <= q < n.len() ==> n[q] != '/',
    ensures
        crate::paths::last_index(d + n, '/') == d.len() - 1,
    decreases n.len(),
{
    if n.len() == 0 {
        assert(d + n =~= d);
    } else {
        assert((d + n).drop_last() =~= d + n.drop_last());
        lemma_last_index_after(d, n.drop_last());
    }
}

/// Whether `seen` holds `name`.
fn seen_contains(seen: &Vec<String>, name: &String) -> (r: bool)
    ensures
        r == seen.deep_view().contains(name@),
{
    let mut i: usize = 0;
    while i < seen.len()
        invariant
            i <= seen.len(),
            forall|j: int| 0 <= j < i ==> seen.deep_view()[j] != name@,
        decreases seen.len() - i,
    {
        assert(seen.deep_view()[i as int] == seen@[i as int]@);
        if crate::text::str_equal(seen[i].as_str(), name.as_str()) {
            assert(seen.deep_view()[i as int] == name@);
            return true;
        }
        i += 1;
    }
    false
}

/// A listing entry.
fn listed_entry(name: String, path: String, is_dir: bool, size: u64, modified: Option<u64>) -> (e: FileEntry)
    ensures
        e@ == listed(name@, path@, is_dir, size, modified),
{
    FileEntry {
        name,
        path,
        is_dir,
        is_symlink: false,
        size,
        modified,
        is_readonly: true,
        is_hidden: false,
        is_executable: false,
        selected: false,
    }
}

/// The sort key of a listing entry.
fn archive_sort_key(e: &FileEntry) -> (k: SortKey)
    ensures
        key_of(k) == archive_key()(e@),
{
    let rank: u8 = if e.is_dir { 0 } else { 1 };
    let ln = chars_of(to_lower(e.name.as_str()).as_str());
    SortKey { rank, num: 0, first: ln, second: Vec::new() }
}

/// Seconds since the Unix epoch of a zip timestamp, counted roughly: every
/// year 365 days and every month 30.
pub open spec fn zip_seconds(year: u16, month: u8, day: u8, hour: u8, minute: u8) -> int {
    ((year - 1970) * 365 + (month - 1) * 30 + day) * 86400 + hour * 3600 + minute * 60
}

/// The modification time given to a zip entry, in seconds since the Unix
/// epoch (see `zip_seconds`).
pub fn zip_time_secs(year: u16, month: u8, day: u8, hour: u8, minute: u8) -> (s: u64)
    requires
        year >= 1970,
        month >= 1,
    ensures
        s == zip_seconds(year, month, day, hour, minute),
{
    let days: u64 = (year as u64 - 1970) * 365 + (month as u64 - 1) * 30 + day as u64;
    days * 86400 + hour as u64 * 3600 + minute as u64 * 60
}

impl ArchiveBrowser {
    /// The entries as plain values.
    pub open spec fn items(&self) -> Seq<ArchiveItem> {
        items_of(self.entries@)
    }

    /// The entries shown at the current directory: `..` below the top, then
    /// its direct children and the directories that lead to deeper entries,
    /// each directory once, directories first and then by lower-case name.
    pub fn visible_entries(&self) -> (r: Vec<FileEntry>)
        ensures
            r.deep_view() == shown_listing(self.items(), self.current_dir@),
    {
        let prefix = chars_of(self.current_dir.as_str());
        let plen = prefix.len();
        let ghost items = self.items();
        let mut list: Vec<FileEntry> = Vec::new();
        let mut seen: Vec<String> = Vec::new();
        let mut i: usize = 0;
        assert(seen.deep_view() =~= Seq::<Seq<char>>::empty());
        assert(list.deep_view() + listing_from(items, prefix@, 0, seen.deep_view())
            =~= listing_from(items, prefix@, 0, Seq::empty()));
        while i < self.entries.len()
            invariant
                i <= self.entries.len(),
                items == self.items(),
                prefix@ == self.current_dir@,
                plen == prefix@.len(),
                list.deep_view() + listing_from(items, prefix@, i as int, seen.deep_view())
                    == listing_from(items, prefix@, 0, Seq::empty()),
            decreases self.entries.len() - i,
        {
            let e = &self.entries[i];
            let ghost item = items[i as int];
            assert(item == item_of(self.entries@[i as int]));
            let ghost rest_seen = seen.deep_view();
            let path = chars_of(e.path.as_str());
            let ghost before = list.deep_view();
            if starts_with_chars(path.as_slice(), prefix.as_slice()) && path.len() != plen {
                let mut end = path.len();
                while end > plen && path[end - 1] == '/'
                    invariant
                        plen <= end <= path@.len(),
                        forall|j: int| end <= j < path@.len() ==> path@[j] == '/',
                    decreases end,
                {
                    end -= 1;
                }
                let ghost t = below(path@, prefix@);
                proof {
                    crate::text::lemma_strip_end_index(path@.skip(plen as int), equals('/'), end - plen);
                    assert(path@.skip(plen as int).take(end - plen) =~= path@.subrange(plen as int, end as int));
                    assert(t == path@.subrange(plen as int, end as int));
                }
                let mut k = plen;
                while k < end && path[k] != '/'
                    invariant
                        plen <= k <= end <= path@.len(),
                        forall|j: int| plen <= j < k ==> path@[j] != '/',
                    decreases end - k,
                {
                    k += 1;
                }
                proof {
                    crate::text::lemma_index_of_or_len_is(t, '/', k - plen);
                }
                if k == end {
                    if end > plen {
                        let tv = string_of(path.as_slice(), plen, end);
                        assert(tv@ == t);
                        if e.is_dir {
                            if !seen_contains(&seen, &tv) {
                                let name = tv.clone();
                                list.push(listed_entry(name, e.path.clone(), true, e.size, e.modified));
                                seen.push(tv);
                                proof {
                                    assert(seen.deep_view() =~= rest_seen.push(t));
                                    assert(list.deep_view() =~= before.push(listed(t, item.0, true, item.2, item.3)));
                                }
                            }
                        } else {
                            let name = tv;
                            list.push(listed_entry(name, e.path.clone(), false, e.size, e.modified));
                            proof {
                                assert(list.deep_view() =~= before.push(listed(t, item.0, false, item.2, item.3)));
                            }
                        }
                    }
                } else {
                    let dv = string_of(path.as_slice(), plen, k);
                    assert(dv@ =~= t.take(k - plen));
                    if !seen_contains(&seen, &dv) {
                        let name = dv.clone();
                        let mut dpath = string_of(prefix.as_slice(), 0, plen);
                        assert(prefix@.subrange(0, plen as int) =~= prefix@);
                        append_str(&mut dpath, name.as_str());
                        push_char(&mut dpath, '/');
                        let ghost dpv = dpath@;
                        assert(dpv == prefix@ + dv@ + seq!['/']);
                        list.push(listed_entry(name, dpath, true, 0, None));
                        seen.push(dv);
                        proof {
                            assert(seen.deep_view() =~= rest_seen.push(dv@));
                            assert(list.deep_view() =~= before.push(listed(dv@, prefix@ + dv@ + seq!['/'], true, 0, None)));
                        }
                    }
                }
            }
            assert(list.deep_view() + listing_from(items, prefix@, i + 1, seen.deep_view())
                =~= before + listing_from(items, prefix@, i as int, rest_seen));
            i += 1;
        }
        assert(listing_from(items, prefix@, i as int, seen.deep_view()) =~= Seq::<EntryView>::empty());
        assert(list.deep_view() =~= listing_from(items, prefix@, 0, Seq::empty()));
        let mut keys: Vec<SortKey> = Vec::new();
        let mut j: usize = 0;
        while j < list.len()
            invariant
                j <= list.len(),
                keys.len() == j,
                forall|q: int| 0 <= q < j ==> key_of(#[trigger] keys@[q]) == archive_key()(list@[q]@),
            decreases list.len() - j,
        {
            let kx = archive_sort_key(&list[j]);
            keys.push(kx);
            j += 1;
        }
        let sorted = sort_keyed(list, keys, Ghost(archive_key()));
        if plen == 0 {
            sorted
        } else {
            let mut result: Vec<FileEntry> = Vec::new();
            result.push(listed_entry(owned(".."), owned(".."), true, 0, None));
            let mut q: usize = 0;
            let ghost sv = sorted.deep_view();
            let n = sorted.len();
            let mut rest = sorted;
            while rest.len() > 0
                invariant
                    q <= sv.len(),
                    sv.len() == n,
                    rest.deep_view() == sv.skip(q as int),
                    result.deep_view() == seq![up_entry()] + sv.take(q as int),
                decreases rest.len(),
            {
                let ghost rv = rest.deep_view();
                assert(rv[0] == rest@[0]@);
                let x = rest.remove(0);
                assert(rest.deep_view() =~= rv.drop_first());
                let ghost before_r = result.deep_view();
                result.push(x);
                q += 1;
                assert(result.deep_view() =~= before_r.push(x@));
                assert(sv.take(q as int) =~= sv.take(q - 1).push(sv[q - 1]));
                assert(rest.deep_view() =~= sv.skip(q as int));
            }
            assert(sv.take(q as int) =~= sv);
            result
        }
    }

    /// The archive's file name, then `:` and the directory shown below the
    /// top.
    pub fn title(&self) -> (t: String)
        ensures
            t@ == ({
                let name = match file_name(self.archive_path@) {
                    Some(n) => n,
                    None => Seq::<char>::empty(),
                };
                if self.current_dir@.len() == 0 { name } else { name + seq![':'] + self.current_dir@ }
            }),
    {
        let mut name = match crate::paths::file_name_of(self.archive_path.as_str()) {
            Some(n) => n,
            None => String::new(),
        };
        if self.current_dir.as_str().is_empty() {
            name
        } else {
            push_char(&mut name, ':');
            append_str(&mut name, self.current_dir.as_str());
            name
        }
    }

    /// Enters the directory under the cursor (or, on `..`, the one above),
    /// with the cursor back at the top.
    pub fn enter_dir(&mut self)
        ensures
            ({
                let es = shown_listing(old(self).items(), old(self).current_dir@);
                let d = old(self).current_dir@;
                let c = old(self).cursor as int;
                let moved = c < es.len() && (es[c].name == ".."@ || es[c].is_dir);
                &&& final(self).current_dir@ == if !moved {
                    d
                } else if es[c].name == ".."@ {
                    dir_above(d)
                } else {
                    d + es[c].name + seq!['/']
                }
                &&& final(self).cursor == if moved { 0 } else { old(self).cursor }
                &&& final(self).scroll_offset == if moved { 0 } else { old(self).scroll_offset }
                &&& final(self).items() == old(self).items()
                &&& final(self).visible_height == old(self).visible_height
            }),
            final(self).entries@ == old(self).entries@,
            final(self).archive_path@ == old(self).archive_path@,
            final(self).archive_type == old(self).archive_type,
    {
        let entries = self.visible_entries();
        if self.cursor < entries.len() {
            let ghost es = entries.deep_view();
            assert(es[self.cursor as int] == entries@[self.cursor as int]@);
            let entry = &entries[self.cursor];
            if crate::text::is_dotdot_str(entry.name.as_str()) {
                proof {
                    reveal_strlit("..");
                    assert(entry.name@ =~= ".."@);
                }
                let dir = chars_of(self.current_dir.as_str());
                let head = if dir.len() > 0 { dir.len() - 1 } else { 0 };
                let mut k = head;
                while k > 0 && dir[k - 1] != '/'
                    invariant
                        k <= head <= dir@.len(),
                        forall|j: int| k <= j < head ==> dir@[j] != '/',
                    decreases k,
                {
                    k -= 1;
                }
                let ghost h = if dir@.len() > 0 { dir@.drop_last() } else { dir@ };
                assert(h =~= dir@.take(head as int));
                proof {
                    if k > 0 {
                        crate::paths::lemma_last_index_is(h, '/', k - 1);
                        assert(h.take(k as int) =~= dir@.subrange(0, k as int));
                    } else {
                        crate::paths::lemma_last_index_is(h, '/', -1);
                    }
                }
                self.current_dir = string_of(dir.as_slice(), 0, k);
                self.cursor = 0;
                self.scroll_offset = 0;
            } else {
                proof {
                    reveal_strlit("..");
                    if entry.name@ == ".."@ {
                        assert(crate::text::is_dotdot(entry.name@));
                    }
                }
                if entry.is_dir {
                    let mut d = owned(self.current_dir.as_str());
                    append_str(&mut d, entry.name.as_str());
                    push_char(&mut d, '/');
                    self.current_dir = d;
                    self.cursor = 0;
                    self.scroll_offset = 0;
                }
            }
        }
    }

    /// One entry up, scrolling to keep it in view.
    pub fn cursor_up(&mut self)
        ensures
            final(self).cursor == if old(self).cursor > 0 { old(self).cursor - 1 } else { 0 },
            old(self).cursor > 0 && final(self).cursor < old(self).scroll_offset
                ==> final(self).scroll_offset == final(self).cursor,
            !(old(self).cursor > 0 && final(self).cursor < old(self).scroll_offset)
                ==> final(self).scroll_offset == old(self).scroll_offset,
            final(self).current_dir@ == old(self).current_dir@,
            final(self).items() == old(self).items(),
            final(self).visible_height == old(self).visible_height,
            final(self).entries@ == old(self).entries@,
            final(self).archive_path@ == old(self).archive_path@,
            final(self).archive_type == old(self).archive_type,
    {
        if self.cursor > 0 {
            self.cursor = self.cursor - 1;
            if self.cursor < self.scroll_offset {
                self.scroll_offset = self.cursor;
            }
        }
    }

    /// One entry down, if there is one, scrolling to keep it on the page.
    pub fn cursor_down(&mut self)
        requires
            old(self).scroll_offset + old(self).visible_height <= usize::MAX,
        ensures
            ({
                let n = shown_listing(old(self).items(), old(self).current_dir@).len();
                let moved = old(self).cursor + 1 < n;
                let c = if moved { old(self).cursor + 1 } else { old(self).cursor as int };
                &&& final(self).cursor == c
                &&& final(self).scroll_offset == if moved && c >= old(self).scroll_offset + old(self).visible_height {
                    c - old(self).visible_height + 1
                } else {
                    old(self).scroll_offset as int
                }
            }),
            final(self).current_dir@ == old(self).current_dir@,
            final(self).items() == old(self).items(),
            final(self).visible_height == old(self).visible_height,
            final(self).entries@ == old(self).entries@,
            final(self).archive_path@ == old(self).archive_path@,
            final(self).archive_type == old(self).archive_type,
    {
        let max = self.visible_entries().len();
        if self.cursor < usize::MAX && self.cursor + 1 < max {
            self.cursor = self.cursor + 1;
            if self.cursor >= self.scroll_offset + self.visible_height {
                self.scroll_offset = self.cursor - self.visible_height + 1;
            }
        }
    }

    /// A page up.
    pub fn page_up(&mut self)
        ensures
            final(self).cursor == if old(self).cursor >= old(self).visible_height {
                old(self).cursor - old(self).visible_height
            } else {
                0
            },
            final(self).scroll_offset == if final(self).cursor < old(self).scroll_offset {
                final(self).cursor
            } else {
                old(self).scroll_offset
            },
            final(self).current_dir@ == old(self).current_dir@,
            final(self).items() == old(self).items(),
            final(self).visible_height == old(self).visible_height,
            final(self).entries@ == old(self).entries@,
            final(self).archive_path@ == old(self).archive_path@,
            final(self).archive_type == old(self).archive_type,
    {
        if self.cursor >= self.visible_height {
            self.cursor = self.cursor - self.visible_height;
        } else {
            self.cursor = 0;
        }
        if self.cursor < self.scroll_offset {
            self.scroll_offset = self.cursor;
        }
    }

    /// A page down, stopping at the last entry.
    pub fn page_down(&mut self)
        requires
            old(self).cursor + old(self).visible_height <= usize::MAX,
            old(self).scroll_offset + old(self).visible_height <= usize::MAX,
        ensures
            ({
                let n = shown_listing(old(self).items(), old(self).current_dir@).len() as int;
                let last = if n > 0 { n - 1 } else { 0 };
                let want = old(self).cursor + old(self).visible_height;
                let c = if want < last { want } else { last };
                &&& final(self).cursor == c
                &&& final(self).scroll_offset == if c >= old(self).scroll_offset + old(self).visible_height {
                    c - old(self).visible_height + 1
                } else {
                    old(self).scroll_offset as int
                }
            }),
            final(self).current_dir@ == old(self).current_dir@,
            final(self).items() == old(self).items(),
            final(self).visible_height == old(self).visible_height,
            final(self).entries@ == old(self).entries@,
            final(self).archive_path@ == old(self).archive_path@,
            final(self).archive_type == old(self).archive_type,
    {
        let max = self.visible_entries().len();
        let last = if max > 0 { max - 1 } else { 0 };
        let want = self.cursor + self.visible_height;
        self.cursor = if want < last { want } else { last };
        if self.cursor >= self.scroll_offset + self.visible_height {
            self.scroll_offset = self.cursor - self.visible_height + 1;
        }
    }

    /// The archive kind for a path, by its extension in lower case.
    pub fn archive_type_of(path: &str) -> (r: Option<ArchiveType>)
        ensures
            r == type_for_ext(lower_ext(path@)),
    {
        let ext = match crate::paths::extension_of(path) {
            Some(e) => to_ascii_lower(e.as_str()),
            None => String::new(),
        };
        let e = ext.as_str();
        proof {
            reveal_strlit("zip");
            reveal_strlit("jar");
            reveal_strlit("war");
            reveal_strlit("apk");
            reveal_strlit("epub");
            reveal_strlit("gz");
            reveal_strlit("tgz");
            reveal_strlit("tar");
        }
        if crate::text::str_equal(e, "zip") || crate::text::str_equal(e, "jar") || crate::text::str_equal(e, "war")
            || crate::text::str_equal(e, "apk") || crate::text::str_equal(e, "epub") {
            Some(ArchiveType::Zip)
        } else if crate::text::str_equal(e, "gz") || crate::text::str_equal(e, "tgz") {
            Some(ArchiveType::TarGz)
        } else if crate::text::str_equal(e, "tar") {
            Some(ArchiveType::Tar)
        } else {
            None
        }
    }

    /// Whether a path names an archive the browser reads.
    pub fn is_archive(path: &str) -> (r: bool)
        ensures
            r == type_for_ext(lower_ext(path@)).is_some(),
    {
        Self::archive_type_of(path).is_some()
    }

    /// A browser for the archive at `path`, at the top with no entries read
    /// yet; an archive kind that its extension does not name is an error.
    pub fn open(path: String) -> (r: Result<ArchiveBrowser, String>)
        ensures
            match r {
                Ok(b) => type_for_ext(lower_ext(path@)) == Some(b.archive_type)
                    && b.archive_path@ == path@
                    && b.entries@.len() == 0
                    && b.current_dir@.len() == 0
                    && b.cursor == 0
                    && b.scroll_offset == 0
                    && b.visible_height == 20,
                Err(e) => type_for_ext(lower_ext(path@)) is None
                    && e@ == "Unsupported archive format: ."@ + lower_ext(path@),
            },
    {
        match Self::archive_type_of(path.as_str()) {
            Some(archive_type) => Ok(ArchiveBrowser {
                archive_path: path,
                archive_type,
                entries: Vec::new(),
                current_dir: String::new(),
                cursor: 0,
                scroll_offset: 0,
                visible_height: 20,
            }),
            None => {
                let ext = match crate::paths::extension_of(path.as_str()) {
                    Some(e) => to_ascii_lower(e.as_str()),
                    None => String::new(),
                };
                let mut msg = owned("Unsupported archive format: .");
                append_str(&mut msg, ext.as_str());
                Err(msg)
            },
        }
    }
}

} // verus!