//! Colour theme: the 16-colour text-mode palette, the colour slots of the
//! interface with their defaults, user overrides of slots (exported to and
//! imported from `slot:fg:bg` texts), and colours by file extension.

use std::collections::HashMap;
use vstd::prelude::*;
use crate::config::split_on;
use crate::numfmt::{decimal, parse_unsigned};
use crate::text::{append_str, ascii_lower_seq, push_char, str_equal, to_ascii_lower};
use crate::types::{entry_extension, EntryView, FileEntry};

verus! {

broadcast use vstd::std_specs::hash::group_hash_axioms;

/// Slot of the panel background.
pub const SLOT_PANEL_BG: u8 = 0;
/// Slot of ordinary file names.
pub const SLOT_FILE_NORMAL: u8 = 1;
/// Slot of directory names.
pub const SLOT_FILE_DIR: u8 = 2;
/// Slot of the cursor in the active panel.
pub const SLOT_CURSOR_ACTIVE: u8 = 3;
/// Slot of selected files.
pub const SLOT_FILE_SELECTED: u8 = 4;
/// Slot of the menu bar.
pub const SLOT_MENU_BAR: u8 = 5;
/// Slot of dialog backgrounds.
pub const SLOT_DIALOG_BG: u8 = 6;
/// Slot of the status bar.
pub const SLOT_STATUS_BAR: u8 = 7;
/// Slot of the function-key bar.
pub const SLOT_FN_KEY: u8 = 8;
/// Slot of viewer text.
pub const SLOT_VIEWER_TEXT: u8 = 9;
/// Slot of the panel info line.
pub const SLOT_INFO_LINE: u8 = 10;
/// Slot of panel borders.
pub const SLOT_PANEL_BORDER: u8 = 11;
/// Slot of the command line.
pub const SLOT_CMD_LINE: u8 = 12;
/// Number of colour slots.
pub const NUM_SLOTS: u8 = 13;

/// The RGB value of palette colour `i` (0-15): black, blue, green, cyan,
/// red, magenta, brown, light gray, dark gray, light blue, light green,
/// light cyan, light red, light magenta, yellow, white.
pub open spec fn palette_rgb(i: int) -> (u8, u8, u8) {
    if i == 0 {
        (0, 0, 0)
    } else if i == 1 {
        (0, 0, 170)
    } else if i == 2 {
        (0, 170, 0)
    } else if i == 3 {
        (0, 170, 170)
    } else if i == 4 {
        (170, 0, 0)
    } else if i == 5 {
        (170, 0, 170)
    } else if i == 6 {
        (170, 85, 0)
    } else if i == 7 {
        (170, 170, 170)
    } else if i == 8 {
        (85, 85, 85)
    } else if i == 9 {
        (85, 85, 255)
    } else if i == 10 {
        (85, 255, 85)
    } else if i == 11 {
        (85, 255, 255)
    } else if i == 12 {
        (255, 85, 85)
    } else if i == 13 {
        (255, 85, 255)
    } else if i == 14 {
        (255, 255, 85)
    } else {
        (255, 255, 255)
    }
}

/// The RGB value of palette colour `i` modulo 16.
pub fn dos_palette(i: u8) -> (c: (u8, u8, u8))
    ensures
        c == palette_rgb((i % 16) as int),
{
    let k = i % 16;
    if k == 0 {
        (0, 0, 0)
    } else if k == 1 {
        (0, 0, 170)
    } else if k == 2 {
        (0, 170, 0)
    } else if k == 3 {
        (0, 170, 170)
    } else if k == 4 {
        (170, 0, 0)
    } else if k == 5 {
        (170, 0, 170)
    } else if k == 6 {
        (170, 85, 0)
    } else if k == 7 {
        (170, 170, 170)
    } else if k == 8 {
        (85, 85, 85)
    } else if k == 9 {
        (85, 85, 255)
    } else if k == 10 {
        (85, 255, 85)
    } else if k == 11 {
        (85, 255, 255)
    } else if k == 12 {
        (255, 85, 85)
    } else if k == 13 {
        (255, 85, 255)
    } else if k == 14 {
        (255, 255, 85)
    } else {
        (255, 255, 255)
    }
}

/// The default (foreground, background) palette colours of slot `s`.
pub open spec fn slot_default(s: int) -> (u8, u8) {
    if s == 0 || s == 1 || s == 9 {
        (7, 8)
    } else if s == 2 || s == 11 {
        (15, 8)
    } else if s == 3 || s == 5 || s == 7 || s == 8 {
        (0, 3)
    } else if s == 4 {
        (14, 8)
    } else if s == 6 {
        (0, 7)
    } else if s == 10 {
        (11, 8)
    } else {
        (7, 0)
    }
}

/// The default colours of slot `s`, for `s` below 13.
pub(crate) fn slot_default_exec(s: u8) -> (r: (u8, u8))
    requires
        s < 13,
    ensures
        r == slot_default(s as int),
{
    if s == 0 || s == 1 || s == 9 {
        (7, 8)
    } else if s == 2 || s == 11 {
        (15, 8)
    } else if s == 3 || s == 5 || s == 7 || s == 8 {
        (0, 3)
    } else if s == 4 {
        (14, 8)
    } else if s == 6 {
        (0, 7)
    } else if s == 10 {
        (11, 8)
    } else {
        (7, 0)
    }
}

/// No override gives its slot's default colours: every override differs
/// from the default.
pub open spec fn no_defaults(m: Map<u8, (u8, u8)>) -> bool {
    forall|k: u8| #[trigger] m.contains_key(k) ==> !is_default_entry((k, m[k].0, m[k].1))
}

/// Colour overrides of interface slots, set for the session and saved with
/// the settings: slot to (foreground, background).
#[derive(Debug, Clone)]
pub struct Theme {
    pub overrides: HashMap<u8, (u8, u8)>,
}

/// The overrides after setting slot `k` to (`fg`, `bg`): an override when
/// the colours differ from the slot's defaults, none when they are the
/// defaults.
pub open spec fn with_slot(m: Map<u8, (u8, u8)>, k: u8, fg: u8, bg: u8) -> Map<u8, (u8, u8)> {
    if (fg, bg) == slot_default((k % 13) as int) {
        m.remove(k)
    } else {
        m.insert(k, (fg, bg))
    }
}

/// The overrides after importing `texts` in order over `m`: each text that
/// stands for an override sets its slot, as `with_slot` does (so an entry
/// with the slot's default colours leaves no override).
pub open spec fn imported(m: Map<u8, (u8, u8)>, texts: Seq<Seq<char>>) -> Map<u8, (u8, u8)>
    decreases texts.len(),
{
    if texts.len() == 0 {
        m
    } else {
        let next = match parse_override(texts[0]) {
            Some(e) => with_slot(m, e.0, e.1, e.2),
            None => m,
        };
        imported(next, texts.drop_first())
    }
}

/// The overrides of the slots from `k` on, as (slot, fg, bg) in slot order.
pub open spec fn entries_from(m: Map<u8, (u8, u8)>, k: int) -> Seq<(u8, u8, u8)>
    decreases 256 - k,
{
    if k < 0 || k >= 256 {
        Seq::empty()
    } else if m.contains_key(k as u8) {
        seq![(k as u8, m[k as u8].0, m[k as u8].1)] + entries_from(m, k + 1)
    } else {
        entries_from(m, k + 1)
    }
}

/// The entries from slot `k` on are overrides of `m` for slots from `k`
/// on, in strictly rising slot order, and every override of such a slot is
/// among them.
pub proof fn lemma_entries_from(m: Map<u8, (u8, u8)>, k: int)
    requires
        0 <= k <= 256,
    ensures
        forall|i: int| 0 <= i < entries_from(m, k).len() ==> {
            let e = #[trigger] entries_from(m, k)[i];
            &&& e.0 >= k
            &&& m.contains_key(e.0)
            &&& m[e.0] == (e.1, e.2)
        },
        forall|i: int, j: int| 0 <= i < j < entries_from(m, k).len() ==> #[trigger] entries_from(m, k)[i].0
            < #[trigger] entries_from(m, k)[j].0,
        forall|s: u8| s >= k && #[trigger] m.contains_key(s) ==> exists|i: int| 0 <= i < entries_from(m, k).len()
            && entries_from(m, k)[i] == (s, m[s].0, m[s].1),
    decreases 256 - k,
{
    if k < 256 {
        lemma_entries_from(m, k + 1);
        let rest = entries_from(m, k + 1);
        if m.contains_key(k as u8) {
            let es = entries_from(m, k);
            assert(es == seq![(k as u8, m[k as u8].0, m[k as u8].1)] + rest);
            assert forall|i: int| 0 <= i < es.len() implies {
                let e = #[trigger] es[i];
                &&& e.0 >= k
                &&& m.contains_key(e.0)
                &&& m[e.0] == (e.1, e.2)
            } by {
                if i > 0 {
                    assert(es[i] == rest[i - 1]);
                }
            }
            assert forall|i: int, j: int| 0 <= i < j < es.len() implies #[trigger] es[i].0 < #[trigger] es[j].0 by {
                assert(es[j] == rest[j - 1]);
                if i > 0 {
                    assert(es[i] == rest[i - 1]);
                }
            }
            assert forall|s: u8| s >= k && #[trigger] m.contains_key(s) implies exists|i: int| 0 <= i < es.len()
                && es[i] == (s, m[s].0, m[s].1) by {
                if s == k {
                    assert(es[0] == (s, m[s].0, m[s].1));
                } else {
                    let i = choose|i: int| 0 <= i < rest.len() && rest[i] == (s, m[s].0, m[s].1);
                    assert(es[i + 1] == rest[i]);
                }
            }
        } else {
            assert(entries_from(m, k) == rest);
        }
    } else {
        assert(entries_from(m, k) =~= Seq::<(u8, u8, u8)>::empty());
    }
}

/// The overrides of `entries` written out, in order.
pub open spec fn export_texts(entries: Seq<(u8, u8, u8)>) -> Seq<Seq<char>> {
    entries.map_values(|e: (u8, u8, u8)| override_text(e))
}

/// An entry that gives its slot's default colours.
pub open spec fn is_default_entry(e: (u8, u8, u8)) -> bool {
    (e.1, e.2) == slot_default((e.0 % 13) as int)
}

/// An override as written: `slot:fg:bg` in decimal.
pub open spec fn override_text(e: (u8, u8, u8)) -> Seq<char> {
    decimal(e.0 as nat) + seq![':'] + decimal(e.1 as nat) + seq![':'] + decimal(e.2 as nat)
}

/// `str::splitn(3, ':')`: the text before the first colon, the text between
/// the first two, and the rest; fewer pieces when there are fewer colons.
pub open spec fn split3(s: Seq<char>) -> Seq<Seq<char>> {
    let parts = split_on(s, ':');
    if parts.len() <= 3 {
        parts
    } else {
        let a = parts[0];
        let b = parts[1];
        seq![a, b, s.skip(a.len() + b.len() + 2int)]
    }
}

/// A decimal number below 256 (`str::parse::<u8>`).
pub open spec fn parse_u8(s: Seq<char>) -> Option<u8> {
    match parse_unsigned(s) {
        Some(n) => if n <= 255 { Some(n as u8) } else { None },
        None => None,
    }
}

/// The override an imported text stands for: three numbers separated by
/// colons, a slot below 13 and palette colours below 16; `None` otherwise.
pub open spec fn parse_override(s: Seq<char>) -> Option<(u8, u8, u8)> {
    let parts = split3(s);
    if parts.len() != 3 {
        None
    } else {
        match (parse_u8(parts[0]), parse_u8(parts[1]), parse_u8(parts[2])) {
            (Some(slot), Some(fg), Some(bg)) => if slot < 13 && fg < 16 && bg < 16 {
                Some((slot, fg, bg))
            } else {
                None
            },
            _ => None,
        }
    }
}

/// An override written as `slot:fg:bg`.
fn override_string(e: (u8, u8, u8)) -> (s: String)
    ensures
        s@ == override_text(e),
{
    let mut s = crate::numfmt::u64_to_decimal(e.0 as u64);
    push_char(&mut s, ':');
    let b = crate::numfmt::u64_to_decimal(e.1 as u64);
    append_str(&mut s, b.as_str());
    push_char(&mut s, ':');
    let c = crate::numfmt::u64_to_decimal(e.2 as u64);
    append_str(&mut s, c.as_str());
    assert(s@ =~= override_text(e));
    s
}

/// A decimal number below 256.
fn parse_u8_exec(s: &str) -> (r: Option<u8>)
    ensures
        r == parse_u8(s@),
{
    match crate::numfmt::parse_usize(s) {
        Some(v) => if v <= 255 { Some(v as u8) } else { None },
        None => None,
    }
}

/// Where `c` first occurs in `v` from `from` on, or the length of `v`.
fn find_char_from(v: &Vec<char>, c: char, from: usize) -> (k: usize)
    requires
        from <= v.len(),
    ensures
        from <= k <= v.len(),
        k == from + crate::text::index_of_or_len(v@.skip(from as int), c),
{
    let mut k = from;
    while k < v.len() && v[k] != c
        invariant
            from <= k <= v@.len(),
            forall|j: int| from <= j < k ==> v@[j] != c,
        decreases v@.len() - k,
    {
        k += 1;
    }
    proof {
        crate::text::lemma_index_of_or_len_is(v@.skip(from as int), c, k - from);
    }
    k
}

/// Splitting gives at least one piece.
pub proof fn lemma_split_on_nonempty(s: Seq<char>, c: char)
    ensures
        split_on(s, c).len() >= 1,
{
}

/// The pieces of a text split at its first two colons, when it has two.
pub proof fn lemma_split3(s: Seq<char>, i1: int, i2: int)
    requires
        0 <= i1 < i2 < s.len(),
        s[i1] == ':',
        s[i2] == ':',
        forall|j: int| 0 <= j < i1 ==> s[j] != ':',
        forall|j: int| i1 < j < i2 ==> s[j] != ':',
    ensures
        split3(s) == seq![s.take(i1), s.subrange(i1 + 1, i2), s.skip(i2 + 1)],
{
    crate::text::lemma_index_of_or_len_is(s, ':', i1);
    let r = s.skip(i1 + 1);
    crate::text::lemma_index_of_or_len_is(r, ':', i2 - i1 - 1);
    let r2 = r.skip(i2 - i1);
    assert(r2 =~= s.skip(i2 + 1));
    assert(r.take(i2 - i1 - 1) =~= s.subrange(i1 + 1, i2));
    let parts = split_on(s, ':');
    assert(parts == seq![s.take(i1)] + split_on(r, ':'));
    assert(split_on(r, ':') == seq![r.take(i2 - i1 - 1)] + split_on(r2, ':'));
    crate::text::lemma_index_of_or_len(r2, ':');
    if parts.len() <= 3 {
        assert(split_on(r2, ':').len() == 1);
        if crate::text::index_of_or_len(r2, ':') < r2.len() {
            let i3 = crate::text::index_of_or_len(r2, ':');
            lemma_split_on_nonempty(r2.skip(i3 + 1), ':');
            assert(split_on(r2, ':').len() >= 2);
        }
        assert(split_on(r2, ':') == seq![r2]);
        assert(parts =~= seq![s.take(i1), s.subrange(i1 + 1, i2), s.skip(i2 + 1)]);
    } else {
        assert(parts[0] == s.take(i1));
        assert(parts[1] == s.subrange(i1 + 1, i2));
    }
}

/// The pieces of a text with fewer than two colons are fewer than three.
pub proof fn lemma_split_short(s: Seq<char>)
    requires
        crate::text::index_of_or_len(s, ':') >= s.len()
            || crate::text::index_of_or_len(s.skip(crate::text::index_of_or_len(s, ':') + 1), ':')
                >= s.skip(crate::text::index_of_or_len(s, ':') + 1).len(),
    ensures
        split3(s).len() < 3,
{
    crate::text::lemma_index_of_or_len(s, ':');
    let i1 = crate::text::index_of_or_len(s, ':');
    if i1 < s.len() {
        let r = s.skip(i1 + 1);
        assert(split_on(s, ':') == seq![s.take(i1)] + split_on(r, ':'));
    }
}

/// The override a text stands for.
fn parse_override_exec(s: &str) -> (r: Option<(u8, u8, u8)>)
    ensures
        r == parse_override(s@),
{
    let v = crate::text::chars_of(s);
    let i1 = find_char_from(&v, ':', 0);
    assert(v@.skip(0) =~= v@);
    if i1 >= v.len() {
        proof {
            lemma_split_short(v@);
        }
        return None;
    }
    let i2 = find_char_from(&v, ':', i1 + 1);
    if i2 >= v.len() {
        proof {
            lemma_split_short(v@);
        }
        return None;
    }
    proof {
        crate::text::lemma_index_of_or_len(v@, ':');
        crate::text::lemma_index_of_or_len(v@.skip(i1 + 1), ':');
        assert forall|j: int| i1 < j < i2 implies v@[j] != ':' by {
            assert(v@.skip(i1 + 1)[j - i1 - 1] == v@[j]);
        }
        assert(v@.skip(i1 + 1)[i2 - i1 - 1] == v@[i2 as int]);
        lemma_split3(v@, i1 as int, i2 as int);
    }
    let a = crate::text::string_of(v.as_slice(), 0, i1);
    let b = crate::text::string_of(v.as_slice(), i1 + 1, i2);
    let c = crate::text::string_of(v.as_slice(), i2 + 1, v.len());
    assert(a@ =~= v@.take(i1 as int));
    assert(c@ =~= v@.skip(i2 + 1));
    match (parse_u8_exec(a.as_str()), parse_u8_exec(b.as_str()), parse_u8_exec(c.as_str())) {
        (Some(slot), Some(fg), Some(bg)) => {
            if slot < 13 && fg < 16 && bg < 16 {
                Some((slot, fg, bg))
            } else {
                None
            }
        },
        _ => None,
    }
}

impl Theme {
    /// None of the overrides gives its slot's default colours.
    pub open spec fn wf(&self) -> bool {
        no_defaults(self.overrides@)
    }

    /// No overrides.
    pub fn new() -> (t: Theme)
        ensures
            t.overrides@ == Map::<u8, (u8, u8)>::empty(),
            t.wf(),
    {
        Theme { overrides: HashMap::new() }
    }

    /// The (foreground, background) palette colours of slot `id`: its
    /// override, else the defaults of slot `id` modulo 13.
    pub fn slot_indices(&self, id: u8) -> (r: (u8, u8))
        ensures
            r == slot_colors(self.overrides@, id),
    {
        match self.overrides.get(&id) {
            Some(v) => *v,
            None => slot_default_exec(id % 13),
        }
    }

    /// Sets slot `id` to (`fg`, `bg`) for the session; setting a slot to its
    /// defaults removes its override.
    pub fn set_slot(&mut self, id: u8, fg: u8, bg: u8)
        ensures
            final(self).overrides@ == with_slot(old(self).overrides@, id, fg, bg),
            old(self).wf() ==> final(self).wf(),
    {
        let (def_fg, def_bg) = slot_default_exec(id % 13);
        if fg == def_fg && bg == def_bg {
            self.overrides.remove(&id);
        } else {
            self.overrides.insert(id, (fg, bg));
        }
    }

    /// Every override as `slot:fg:bg` text, in slot order; for a
    /// well-formed theme these are exactly the slots whose colours differ
    /// from the defaults.
    pub fn export_overrides(&self) -> (r: Vec<String>)
        ensures
            r.deep_view() == export_texts(entries_from(self.overrides@, 0)),
            self.wf() ==> forall|i: int| 0 <= i < entries_from(self.overrides@, 0).len() ==> !is_default_entry(
                #[trigger] entries_from(self.overrides@, 0)[i],
            ),
    {
        proof {
            lemma_entries_from(self.overrides@, 0);
        }
        let ghost m = self.overrides@;
        let mut r: Vec<String> = Vec::new();
        let mut k: u16 = 0;
        while k < 256
            invariant
                k <= 256,
                m == self.overrides@,
                r.deep_view() + export_texts(entries_from(m, k as int)) == export_texts(entries_from(m, 0)),
            decreases 256 - k,
        {
            let ghost before = r.deep_view();
            let id: u8 = k as u8;
            match self.overrides.get(&id) {
                Some(v) => {
                    let e = (id, v.0, v.1);
                    let s = override_string(e);
                    r.push(s);
                    assert(entries_from(m, k as int) == seq![e] + entries_from(m, k + 1));
                    assert(export_texts(seq![e] + entries_from(m, k + 1)) =~= seq![override_text(e)] + export_texts(
                        entries_from(m, k + 1),
                    ));
                    assert(r.deep_view() =~= before.push(s@));
                    assert(r.deep_view() + export_texts(entries_from(m, k + 1)) =~= before + export_texts(
                        entries_from(m, k as int),
                    ));
                },
                None => {
                    assert(entries_from(m, k as int) == entries_from(m, k + 1));
                },
            }
            k += 1;
        }
        assert(entries_from(m, 256) =~= Seq::<(u8, u8, u8)>::empty());
        assert(export_texts(Seq::<(u8, u8, u8)>::empty()) =~= Seq::<Seq<char>>::empty());
        assert(r.deep_view() =~= r.deep_view() + export_texts(entries_from(m, 256)));
        r
    }

    /// Replaces the overrides with those of the texts that stand for one
    /// (see `parse_override`), each set as `set_slot` sets it: a later text
    /// for a slot wins, and a text with the slot's default colours leaves
    /// no override for it.
    pub fn import_overrides(&mut self, entries: &[String])
        ensures
            final(self).overrides@ == imported(Map::empty(), entries@.map_values(|s: String| s@)),
            final(self).wf(),
    {
        let ghost texts = entries@.map_values(|s: String| s@);
        let mut acc = Theme::new();
        let mut i: usize = 0;
        assert(texts.skip(0) =~= texts);
        while i < entries.len()
            invariant
                i <= entries.len(),
                texts == entries@.map_values(|s: String| s@),
                imported(acc.overrides@, texts.skip(i as int)) == imported(Map::empty(), texts),
                acc.wf(),
            decreases entries.len() - i,
        {
            assert(texts[i as int] == entries@[i as int]@);
            assert(texts.skip(i as int)[0] == texts[i as int]);
            assert(texts.skip(i as int).drop_first() =~= texts.skip(i + 1));
            match parse_override_exec(entries[i].as_str()) {
                Some(e) => {
                    acc.set_slot(e.0, e.1, e.2);
                },
                None => {},
            }
            i += 1;
        }
        assert(texts.skip(i as int) =~= Seq::<Seq<char>>::empty());
        self.overrides = acc.overrides;
    }
}

/// The colours slot `id` is shown in: its override, else its defaults.
pub open spec fn slot_colors(m: Map<u8, (u8, u8)>, id: u8) -> (u8, u8) {
    if m.contains_key(id) {
        m[id]
    } else {
        slot_default((id % 13) as int)
    }
}

/// After setting a slot's colours, the slot shows them, and every other
/// slot shows what it showed before.
pub proof fn lemma_set_then_get(m: Map<u8, (u8, u8)>, id: u8, fg: u8, bg: u8)
    ensures
        slot_colors(with_slot(m, id, fg, bg), id) == (fg, bg),
        forall|j: u8| j != id ==> #[trigger] slot_colors(with_slot(m, id, fg, bg), j) == slot_colors(m, j),
{
}

/// An override in range reads back from its text.
pub proof fn lemma_parse_override_text(e: (u8, u8, u8))
    requires
        e.0 < 13,
        e.1 < 16,
        e.2 < 16,
    ensures
        parse_override(override_text(e)) == Some(e),
{
    let d0 = decimal(e.0 as nat);
    let d1 = decimal(e.1 as nat);
    let d2 = decimal(e.2 as nat);
    crate::config::lemma_decimal_parse(e.0 as nat);
    crate::config::lemma_decimal_parse(e.1 as nat);
    crate::config::lemma_decimal_parse(e.2 as nat);
    let t = override_text(e);
    let i1 = d0.len() as int;
    let i2: int = d0.len() as int + 1 + d1.len() as int;
    assert(t == d0 + seq![':'] + d1 + seq![':'] + d2);
    assert(t[i1] == ':');
    assert(t[i2] == ':');
    assert forall|j: int| 0 <= j < i1 implies t[j] != ':' by {
        assert(t[j] == d0[j]);
        assert('0' <= d0[j] <= '9');
    }
    assert forall|j: int| i1 < j < i2 implies t[j] != ':' by {
        assert(t[j] == d1[j - i1 - 1]);
        assert('0' <= d1[j - i1 - 1] <= '9');
    }
    lemma_split3(t, i1, i2);
    assert(t.take(i1) =~= d0);
    assert(t.subrange(i1 + 1, i2) =~= d1);
    assert(t.skip(i2 + 1) =~= d2);
}

/// The overrides `m` holds for the slots below `k`, with those of
/// `entries_from(m, k)` imported over them: all of `m`'s overrides, for
/// overrides in range that differ from the defaults.
proof fn lemma_import_entries(m: Map<u8, (u8, u8)>, acc: Map<u8, (u8, u8)>, k: int)
    requires
        0 <= k <= 256,
        no_defaults(m),
        forall|j: u8| #[trigger] m.contains_key(j) ==> j < 13 && m[j].0 < 16 && m[j].1 < 16,
    ensures
        imported(acc, export_texts(entries_from(m, k))) == Map::new(
            |j: u8| acc.contains_key(j) || (j >= k && m.contains_key(j)),
            |j: u8| if j >= k && m.contains_key(j) { m[j] } else { acc[j] },
        ),
    decreases 256 - k,
{
    let target = Map::new(
        |j: u8| acc.contains_key(j) || (j >= k && m.contains_key(j)),
        |j: u8| if j >= k && m.contains_key(j) { m[j] } else { acc[j] },
    );
    if k == 256 {
        assert(entries_from(m, k) =~= Seq::<(u8, u8, u8)>::empty());
        assert(export_texts(entries_from(m, k)) =~= Seq::<Seq<char>>::empty());
        assert(target =~= acc);
    } else {
        let id = k as u8;
        let next = Map::new(
            |j: u8| acc.contains_key(j) || (j >= k + 1 && m.contains_key(j)),
            |j: u8| if j >= k + 1 && m.contains_key(j) { m[j] } else { acc[j] },
        );
        if m.contains_key(id) {
            let e = (id, m[id].0, m[id].1);
            assert(!is_default_entry(e));
            lemma_parse_override_text(e);
            let rest = entries_from(m, k + 1);
            assert(entries_from(m, k) == seq![e] + rest);
            let t = export_texts(entries_from(m, k));
            assert(t[0] == override_text(e));
            assert(t.drop_first() =~= export_texts(rest));
            lemma_import_entries(m, acc.insert(id, (e.1, e.2)), k + 1);
            let after = Map::new(
                |j: u8| acc.insert(id, (e.1, e.2)).contains_key(j) || (j >= k + 1 && m.contains_key(j)),
                |j: u8| if j >= k + 1 && m.contains_key(j) { m[j] } else { acc.insert(id, (e.1, e.2))[j] },
            );
            assert(after =~= target);
        } else {
            assert(entries_from(m, k) == entries_from(m, k + 1));
            lemma_import_entries(m, acc, k + 1);
            assert(next =~= target);
        }
    }
}

/// Importing the exported overrides gives back the same overrides, for
/// overrides with slots below 13 and palette colours below 16 that differ
/// from the defaults.
pub proof fn lemma_import_export(m: Map<u8, (u8, u8)>)
    requires
        no_defaults(m),
        forall|j: u8| #[trigger] m.contains_key(j) ==> j < 13 && m[j].0 < 16 && m[j].1 < 16,
    ensures
        imported(Map::empty(), export_texts(entries_from(m, 0))) == m,
{
    lemma_import_entries(m, Map::empty(), 0);
    assert(Map::new(
        |j: u8| Map::<u8, (u8, u8)>::empty().contains_key(j) || (j >= 0 && m.contains_key(j)),
        |j: u8| if j >= 0 && m.contains_key(j) { m[j] } else { Map::<u8, (u8, u8)>::empty()[j] },
    ) =~= m);
}

/// The palette colour of the highlight group of a (lower-case) file
/// extension, if it belongs to one.
pub open spec fn highlight_group(ext: Seq<char>) -> Option<u8> {
    if in_group_0(ext) {
        Some(12u8)
    } else if in_group_1(ext) {
        Some(11u8)
    } else if in_group_2(ext) {
        Some(10u8)
    } else if in_group_3(ext) {
        Some(13u8)
    } else if in_group_4(ext) {
        Some(14u8)
    } else if in_group_5(ext) {
        Some(9u8)
    } else if in_group_6(ext) {
        Some(2u8)
    } else if in_group_7(ext) {
        Some(3u8)
    } else {
        None
    }
}

/// Archives.
pub open spec fn in_group_0(ext: Seq<char>) -> bool {
    ext == "zip"@
        || ext == "tar"@
        || ext == "gz"@
        || ext == "bz2"@
        || ext == "xz"@
        || ext == "7z"@
        || ext == "rar"@
        || ext == "arj"@
        || ext == "tgz"@
        || ext == "zst"@
        || ext == "lz"@
        || ext == "lzma"@
        || ext == "cab"@
        || ext == "iso"@
        || ext == "dmg"@
}

/// Source code.
pub open spec fn in_group_1(ext: Seq<char>) -> bool {
    ext == "rs"@
        || ext == "c"@
        || ext == "cpp"@
        || ext == "h"@
        || ext == "hpp"@
        || ext == "py"@
        || ext == "js"@
        || ext == "ts"@
        || ext == "java"@
        || ext == "go"@
        || ext == "rb"@
        || ext == "swift"@
        || ext == "kt"@
        || ext == "scala"@
        || ext == "cs"@
        || ext == "pas"@
        || ext == "asm"@
        || ext == "inc"@
        || ext == "lua"@
        || ext == "zig"@
        || ext == "nim"@
        || ext == "v"@
        || ext == "d"@
}

/// Markup and configuration.
pub open spec fn in_group_2(ext: Seq<char>) -> bool {
    ext == "html"@
        || ext == "htm"@
        || ext == "xml"@
        || ext == "json"@
        || ext == "yaml"@
        || ext == "yml"@
        || ext == "toml"@
        || ext == "ini"@
        || ext == "cfg"@
        || ext == "conf"@
        || ext == "css"@
        || ext == "scss"@
        || ext == "less"@
}

/// Documents.
pub open spec fn in_group_3(ext: Seq<char>) -> bool {
    ext == "txt"@
        || ext == "md"@
        || ext == "rst"@
        || ext == "doc"@
        || ext == "docx"@
        || ext == "pdf"@
        || ext == "rtf"@
        || ext == "odt"@
        || ext == "tex"@
        || ext == "log"@
}

/// Images.
pub open spec fn in_group_4(ext: Seq<char>) -> bool {
    ext == "png"@
        || ext == "jpg"@
        || ext == "jpeg"@
        || ext == "gif"@
        || ext == "bmp"@
        || ext == "svg"@
        || ext == "ico"@
        || ext == "webp"@
        || ext == "tiff"@
        || ext == "tif"@
        || ext == "psd"@
        || ext == "ai"@
}

/// Media.
pub open spec fn in_group_5(ext: Seq<char>) -> bool {
    ext == "mp3"@
        || ext == "wav"@
        || ext == "ogg"@
        || ext == "flac"@
        || ext == "aac"@
        || ext == "wma"@
        || ext == "mp4"@
        || ext == "avi"@
        || ext == "mkv"@
        || ext == "mov"@
        || ext == "wmv"@
        || ext == "webm"@
        || ext == "flv"@
}

/// Scripts.
pub open spec fn in_group_6(ext: Seq<char>) -> bool {
    ext == "sh"@
        || ext == "bash"@
        || ext == "zsh"@
        || ext == "fish"@
        || ext == "bat"@
        || ext == "cmd"@
        || ext == "ps1"@
        || ext == "pl"@
        || ext == "awk"@
        || ext == "sed"@
}

/// Objects and binaries.
pub open spec fn in_group_7(ext: Seq<char>) -> bool {
    ext == "o"@
        || ext == "obj"@
        || ext == "a"@
        || ext == "lib"@
        || ext == "so"@
        || ext == "dylib"@
        || ext == "dll"@
        || ext == "exe"@
        || ext == "class"@
        || ext == "pyc"@
        || ext == "pyo"@
        || ext == "wasm"@
}

fn in_group_0_exec(ext: &str) -> (r: bool)
    ensures
        r == in_group_0(ext@),
{
    str_equal(ext, "zip")
        || str_equal(ext, "tar")
        || str_equal(ext, "gz")
        || str_equal(ext, "bz2")
        || str_equal(ext, "xz")
        || str_equal(ext, "7z")
        || str_equal(ext, "rar")
        || str_equal(ext, "arj")
        || str_equal(ext, "tgz")
        || str_equal(ext, "zst")
        || str_equal(ext, "lz")
        || str_equal(ext, "lzma")
        || str_equal(ext, "cab")
        || str_equal(ext, "iso")
        || str_equal(ext, "dmg")
}

fn in_group_1_exec(ext: &str) -> (r: bool)
    ensures
        r == in_group_1(ext@),
{
    str_equal(ext, "rs")
        || str_equal(ext, "c")
        || str_equal(ext, "cpp")
        || str_equal(ext, "h")
        || str_equal(ext, "hpp")
        || str_equal(ext, "py")
        || str_equal(ext, "js")
        || str_equal(ext, "ts")
        || str_equal(ext, "java")
        || str_equal(ext, "go")
        || str_equal(ext, "rb")
        || str_equal(ext, "swift")
        || str_equal(ext, "kt")
        || str_equal(ext, "scala")
        || str_equal(ext, "cs")
        || str_equal(ext, "pas")
        || str_equal(ext, "asm")
        || str_equal(ext, "inc")
        || str_equal(ext, "lua")
        || str_equal(ext, "zig")
        || str_equal(ext, "nim")
        || str_equal(ext, "v")
        || str_equal(ext, "d")
}

fn in_group_2_exec(ext: &str) -> (r: bool)
    ensures
        r == in_group_2(ext@),
{
    str_equal(ext, "html")
        || str_equal(ext, "htm")
        || str_equal(ext, "xml")
        || str_equal(ext, "json")
        || str_equal(ext, "yaml")
        || str_equal(ext, "yml")
        || str_equal(ext, "toml")
        || str_equal(ext, "ini")
        || str_equal(ext, "cfg")
        || str_equal(ext, "conf")
        || str_equal(ext, "css")
        || str_equal(ext, "scss")
        || str_equal(ext, "less")
}

fn in_group_3_exec(ext: &str) -> (r: bool)
    ensures
        r == in_group_3(ext@),
{
    str_equal(ext, "txt")
        || str_equal(ext, "md")
        || str_equal(ext, "rst")
        || str_equal(ext, "doc")
        || str_equal(ext, "docx")
        || str_equal(ext, "pdf")
        || str_equal(ext, "rtf")
        || str_equal(ext, "odt")
        || str_equal(ext, "tex")
        || str_equal(ext, "log")
}

fn in_group_4_exec(ext: &str) -> (r: bool)
    ensures
        r == in_group_4(ext@),
{
    str_equal(ext, "png")
        || str_equal(ext, "jpg")
        || str_equal(ext, "jpeg")
        || str_equal(ext, "gif")
        || str_equal(ext, "bmp")
        || str_equal(ext, "svg")
        || str_equal(ext, "ico")
        || str_equal(ext, "webp")
        || str_equal(ext, "tiff")
        || str_equal(ext, "tif")
        || str_equal(ext, "psd")
        || str_equal(ext, "ai")
}

fn in_group_5_exec(ext: &str) -> (r: bool)
    ensures
        r == in_group_5(ext@),
{
    str_equal(ext, "mp3")
        || str_equal(ext, "wav")
        || str_equal(ext, "ogg")
        || str_equal(ext, "flac")
        || str_equal(ext, "aac")
        || str_equal(ext, "wma")
        || str_equal(ext, "mp4")
        || str_equal(ext, "avi")
        || str_equal(ext, "mkv")
        || str_equal(ext, "mov")
        || str_equal(ext, "wmv")
        || str_equal(ext, "webm")
        || str_equal(ext, "flv")
}

fn in_group_6_exec(ext: &str) -> (r: bool)
    ensures
        r == in_group_6(ext@),
{
    str_equal(ext, "sh")
        || str_equal(ext, "bash")
        || str_equal(ext, "zsh")
        || str_equal(ext, "fish")
        || str_equal(ext, "bat")
        || str_equal(ext, "cmd")
        || str_equal(ext, "ps1")
        || str_equal(ext, "pl")
        || str_equal(ext, "awk")
        || str_equal(ext, "sed")
}

fn in_group_7_exec(ext: &str) -> (r: bool)
    ensures
        r == in_group_7(ext@),
{
    str_equal(ext, "o")
        || str_equal(ext, "obj")
        || str_equal(ext, "a")
        || str_equal(ext, "lib")
        || str_equal(ext, "so")
        || str_equal(ext, "dylib")
        || str_equal(ext, "dll")
        || str_equal(ext, "exe")
        || str_equal(ext, "class")
        || str_equal(ext, "pyc")
        || str_equal(ext, "pyo")
        || str_equal(ext, "wasm")
}

impl Theme {
    /// The colour files with extension `ext` are shown in: archives light
    /// red, source code light cyan, markup light green, documents light
    /// magenta, images yellow, media light blue, scripts green, objects
    /// cyan; `None` for other extensions.
    pub fn highlight_group_color(ext: &str) -> (r: Option<(u8, u8, u8)>)
        ensures
            r == match highlight_group(ext@) {
                Some(i) => Some(palette_rgb(i as int)),
                None => None,
            },
    {
        match highlight_group_index(ext) {
            Some(i) => Some(dos_palette(i)),
            None => None,
        }
    }
}

/// How an entry of a panel is coloured.
#[derive(Clone, Copy, Debug, PartialEq, Eq, Structural)]
pub enum FileLook {
    /// The colours of an interface slot.
    Slot(u8),
    /// The cursor of the inactive panel: light gray on the background of
    /// the panel background slot.
    InactiveCursor,
    /// Fixed palette colours: foreground, background.
    Fixed(u8, u8),
}

/// The colouring of an entry: the cursor first, then a selected entry, a
/// directory, a symbolic link (light magenta), a hidden file (cyan), an
/// executable (light green), then the colour of the extension's highlight
/// group, all on dark gray; else the normal file colours.
pub open spec fn file_look(e: EntryView, is_cursor: bool, is_active: bool) -> FileLook {
    if is_cursor {
        if is_active {
            FileLook::Slot(SLOT_CURSOR_ACTIVE)
        } else {
            FileLook::InactiveCursor
        }
    } else if e.selected {
        FileLook::Slot(SLOT_FILE_SELECTED)
    } else if e.is_dir {
        FileLook::Slot(SLOT_FILE_DIR)
    } else if e.is_symlink {
        FileLook::Fixed(13, 8)
    } else if e.is_hidden {
        FileLook::Fixed(3, 8)
    } else if e.is_executable {
        FileLook::Fixed(10, 8)
    } else {
        match highlight_group(ascii_lower_seq(entry_extension(e.path))) {
            Some(i) => FileLook::Fixed(i, 8),
            None => FileLook::Slot(SLOT_FILE_NORMAL),
        }
    }
}

/// The palette index of the highlight group of `ext`, if any.
fn highlight_group_index(ext: &str) -> (r: Option<u8>)
    ensures
        r == highlight_group(ext@),
{
    if in_group_0_exec(ext) {
        Some(12)
    } else if in_group_1_exec(ext) {
        Some(11)
    } else if in_group_2_exec(ext) {
        Some(10)
    } else if in_group_3_exec(ext) {
        Some(13)
    } else if in_group_4_exec(ext) {
        Some(14)
    } else if in_group_5_exec(ext) {
        Some(9)
    } else if in_group_6_exec(ext) {
        Some(2)
    } else if in_group_7_exec(ext) {
        Some(3)
    } else {
        None
    }
}

impl Theme {
    /// How `entry` is coloured in a panel, given whether the cursor is on
    /// it and whether its panel is the active one.
    pub fn file_style(entry: &FileEntry, is_cursor: bool, is_active: bool) -> (r: FileLook)
        ensures
            r == file_look(entry@, is_cursor, is_active),
    {
        if is_cursor {
            return if is_active {
                FileLook::Slot(SLOT_CURSOR_ACTIVE)
            } else {
                FileLook::InactiveCursor
            };
        }
        if entry.selected {
            return FileLook::Slot(SLOT_FILE_SELECTED);
        }
        if entry.is_dir {
            return FileLook::Slot(SLOT_FILE_DIR);
        }
        if entry.is_symlink {
            return FileLook::Fixed(13, 8);
        }
        if entry.is_hidden {
            return FileLook::Fixed(3, 8);
        }
        if entry.is_executable {
            return FileLook::Fixed(10, 8);
        }
        let ext = to_ascii_lower(entry.extension());
        match highlight_group_index(ext.as_str()) {
            Some(i) => FileLook::Fixed(i, 8),
            None => FileLook::Slot(SLOT_FILE_NORMAL),
        }
    }
}

/// The name of interface slot `i` (the last name for any `i` past 11).
pub open spec fn slot_name_of(i: int) -> Seq<char> {
    if i == 0 {
        "Panel background"@
    } else if i == 1 {
        "File (normal)"@
    } else if i == 2 {
        "Directory entry"@
    } else if i == 3 {
        "Cursor (active)"@
    } else if i == 4 {
        "Selected file"@
    } else if i == 5 {
        "Menu bar"@
    } else if i == 6 {
        "Dialog background"@
    } else if i == 7 {
        "Status bar"@
    } else if i == 8 {
        "Fn-key bar"@
    } else if i == 9 {
        "Viewer text"@
    } else if i == 10 {
        "Info line"@
    } else if i == 11 {
        "Panel border"@
    } else {
        "Command line"@
    }
}

/// The name of interface slot `i`, as the theme editor lists it.
pub fn slot_name(i: u8) -> (s: &'static str)
    requires
        i < NUM_SLOTS,
    ensures
        s@ == slot_name_of(i as int),
{
    if i == 0 {
        "Panel background"
    } else if i == 1 {
        "File (normal)"
    } else if i == 2 {
        "Directory entry"
    } else if i == 3 {
        "Cursor (active)"
    } else if i == 4 {
        "Selected file"
    } else if i == 5 {
        "Menu bar"
    } else if i == 6 {
        "Dialog background"
    } else if i == 7 {
        "Status bar"
    } else if i == 8 {
        "Fn-key bar"
    } else if i == 9 {
        "Viewer text"
    } else if i == 10 {
        "Info line"
    } else if i == 11 {
        "Panel border"
    } else {
        "Command line"
    }
}

/// The name of palette colour `i` (the last name for any `i` past 14).
pub open spec fn palette_name_of(i: int) -> Seq<char> {
    if i == 0 {
        "Black"@
    } else if i == 1 {
        "Blue"@
    } else if i == 2 {
        "Green"@
    } else if i == 3 {
        "Cyan"@
    } else if i == 4 {
        "Red"@
    } else if i == 5 {
        "Magenta"@
    } else if i == 6 {
        "Brown"@
    } else if i == 7 {
        "Lt Gray"@
    } else if i == 8 {
        "Dk Gray"@
    } else if i == 9 {
        "Lt Blue"@
    } else if i == 10 {
        "Lt Green"@
    } else if i == 11 {
        "Lt Cyan"@
    } else if i == 12 {
        "Lt Red"@
    } else if i == 13 {
        "Lt Magenta"@
    } else if i == 14 {
        "Yellow"@
    } else {
        "White"@
    }
}

/// The name of palette colour `i`.
pub fn palette_name(i: u8) -> (s: &'static str)
    requires
        i < 16,
    ensures
        s@ == palette_name_of(i as int),
{
    if i == 0 {
        "Black"
    } else if i == 1 {
        "Blue"
    } else if i == 2 {
        "Green"
    } else if i == 3 {
        "Cyan"
    } else if i == 4 {
        "Red"
    } else if i == 5 {
        "Magenta"
    } else if i == 6 {
        "Brown"
    } else if i == 7 {
        "Lt Gray"
    } else if i == 8 {
        "Dk Gray"
    } else if i == 9 {
        "Lt Blue"
    } else if i == 10 {
        "Lt Green"
    } else if i == 11 {
        "Lt Cyan"
    } else if i == 12 {
        "Lt Red"
    } else if i == 13 {
        "Lt Magenta"
    } else if i == 14 {
        "Yellow"
    } else {
        "White"
    }
}

} // verus!
