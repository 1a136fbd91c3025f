//! Directory bookmarks: nine slots, set with Ctrl+1..9 and visited with
//! Alt+1..9, kept in the settings as a list of paths ("" for an empty slot).

use vstd::prelude::*;
use crate::numfmt::{decimal, u64_to_decimal};
use crate::splitfile::path_exists;
use crate::text::{append_str, owned};

verus! {

/// The number of bookmark slots.
pub const BOOKMARK_SLOTS: usize = 9;

/// The bookmark slots.
pub struct Bookmarks {
    pub slots: Vec<Option<String>>,
}

/// A slot as plain values.
pub open spec fn slot_view(o: Option<String>) -> Option<Seq<char>> {
    match o {
        Some(p) => Some(p@),
        None => None,
    }
}

impl View for Bookmarks {
    type V = Seq<Option<Seq<char>>>;

    open spec fn view(&self) -> Seq<Option<Seq<char>>> {
        self.slots@.map_values(|o: Option<String>| slot_view(o))
    }
}

/// The slots after restoring a saved list onto `b`: each of the first
/// nine paths that is not empty fills its slot; the other slots keep what
/// they held.
pub open spec fn restored(b: Seq<Option<Seq<char>>>, list: Seq<Seq<char>>) -> Seq<Option<Seq<char>>> {
    Seq::new(
        b.len(),
        |i: int|
            if i < list.len() && list[i].len() > 0 {
                Some(list[i])
            } else {
                b[i]
            },
    )
}

/// The list the slots are saved as: each path, or "" for an empty slot.
pub open spec fn saved_list(b: Seq<Option<Seq<char>>>) -> Seq<Seq<char>> {
    b.map_values(
        |o: Option<Seq<char>>|
            match o {
                Some(p) => p,
                None => Seq::empty(),
            },
    )
}

/// What visiting a bookmark comes to.
#[derive(Clone, Debug, PartialEq, Eq)]
pub enum BookmarkJump {
    /// Go to this directory; the text reports it.
    Go(String, String),
    /// Nothing happens; the text says why.
    Stay(String),
    /// The number is not one of a slot: nothing happens, nothing is said.
    Ignore,
}

/// The outcome of visiting slot `idx` (from 0) holding `slot`, given
/// whether its path exists: go there with "Bookmark N: path", or stay with
/// "Bookmark N path doesn't exist" or "Bookmark N not set"; N counts from 1.
pub open spec fn jump_of(idx: nat, slot: Option<Seq<char>>, exists: bool) -> (Option<Seq<char>>, Seq<char>) {
    let n = decimal(idx + 1);
    match slot {
        Some(p) => if exists {
            (Some(p), "Bookmark "@ + n + ": "@ + p)
        } else {
            (None, "Bookmark "@ + n + " path doesn't exist"@)
        },
        None => (None, "Bookmark "@ + n + " not set"@),
    }
}

/// A jump as plain values: the directory gone to, if any, and the text.
pub open spec fn jump_view(j: BookmarkJump) -> Option<(Option<Seq<char>>, Seq<char>)> {
    match j {
        BookmarkJump::Go(p, t) => Some((Some(p@), t@)),
        BookmarkJump::Stay(t) => Some((None, t@)),
        BookmarkJump::Ignore => None,
    }
}

/// The outcome of visiting slot `idx` holding `slot` when whether its path
/// exists is `exists`.
pub fn jump_outcome(idx: usize, slot: &Option<String>, exists: bool) -> (r: BookmarkJump)
    requires
        idx < BOOKMARK_SLOTS,
    ensures
        jump_view(r) == Some(jump_of(idx as nat, slot_view(*slot), exists)),
{
    let n = u64_to_decimal(idx as u64 + 1);
    let mut t = owned("Bookmark ");
    append_str(&mut t, n.as_str());
    match slot {
        Some(p) => {
            if exists {
                append_str(&mut t, ": ");
                append_str(&mut t, p.as_str());
                BookmarkJump::Go(owned(p.as_str()), t)
            } else {
                append_str(&mut t, " path doesn't exist");
                BookmarkJump::Stay(t)
            }
        },
        None => {
            append_str(&mut t, " not set");
            BookmarkJump::Stay(t)
        },
    }
}

impl Bookmarks {
    /// Nine slots, each holding a path or nothing.
    pub open spec fn wf(&self) -> bool {
        self.slots@.len() == BOOKMARK_SLOTS
    }

    /// All slots empty.
    pub fn new() -> (b: Bookmarks)
        ensures
            b.wf(),
            forall|i: int| 0 <= i < BOOKMARK_SLOTS ==> #[trigger] b@[i] is None,
    {
        let mut slots: Vec<Option<String>> = Vec::new();
        let mut i: usize = 0;
        while i < BOOKMARK_SLOTS
            invariant
                i <= BOOKMARK_SLOTS,
                slots@.len() == i,
                forall|j: int| 0 <= j < i ==> #[trigger] slots@[j] is None,
            decreases BOOKMARK_SLOTS - i,
        {
            slots.push(None);
            i += 1;
        }
        Bookmarks { slots }
    }

    /// Ctrl+N: slot `idx` (from 0) remembers `path`; a number past the
    /// slots changes nothing.
    pub fn set_bookmark(&mut self, idx: usize, path: &str)
        requires
            old(self).wf(),
        ensures
            final(self).wf(),
            final(self)@ == if idx < BOOKMARK_SLOTS {
                old(self)@.update(idx as int, Some(path@))
            } else {
                old(self)@
            },
    {
        if idx < BOOKMARK_SLOTS {
            let ghost before = self@;
            self.slots.set(idx, Some(owned(path)));
            assert(self@ =~= before.update(idx as int, Some(path@)));
        }
    }

    /// Alt+N: where visiting slot `idx` leads. Whether the path exists is
    /// asked of the file system, so of a set slot the outcome is one of
    /// the two that `jump_of` gives for it.
    pub fn goto_bookmark(&self, idx: usize) -> (r: BookmarkJump)
        requires
            self.wf(),
        ensures
            idx >= BOOKMARK_SLOTS ==> r == BookmarkJump::Ignore,
            idx < BOOKMARK_SLOTS ==> exists|e: bool| jump_view(r) == Some(jump_of(idx as nat, self@[idx as int], e)),
    {
        if idx >= BOOKMARK_SLOTS {
            return BookmarkJump::Ignore;
        }
        let slot = &self.slots[idx];
        let exists = match slot {
            Some(p) => path_exists(p.as_str()),
            None => false,
        };
        let r = jump_outcome(idx, slot, exists);
        assert(jump_view(r) == Some(jump_of(idx as nat, self@[idx as int], exists)));
        r
    }

    /// The slots as the list the settings keep.
    pub fn to_list(&self) -> (r: Vec<String>)
        ensures
            r.deep_view() == saved_list(self@),
    {
        let mut r: Vec<String> = Vec::new();
        let mut i: usize = 0;
        while i < self.slots.len()
            invariant
                i <= self.slots@.len(),
                r.deep_view() == saved_list(self@).take(i as int),
            decreases self.slots@.len() - i,
        {
            let t = match &self.slots[i] {
                Some(p) => owned(p.as_str()),
                None => String::new(),
            };
            let ghost before = r.deep_view();
            r.push(t);
            assert(r.deep_view() =~= before.push(t@));
            assert(saved_list(self@).take(i + 1) =~= saved_list(self@).take(i as int).push(t@));
            i += 1;
        }
        assert(saved_list(self@).take(self.slots@.len() as int) =~= saved_list(self@));
        r
    }

    /// Restores a saved list onto the slots (see `restored`).
    pub fn restore(&mut self, list: &Vec<String>)
        requires
            old(self).wf(),
        ensures
            final(self).wf(),
            final(self)@ == restored(old(self)@, list.deep_view()),
    {
        let ghost b0 = self@;
        let ghost l = list.deep_view();
        let mut i: usize = 0;
        while i < BOOKMARK_SLOTS && i < list.len()
            invariant
                i <= BOOKMARK_SLOTS,
                self.wf(),
                l == list.deep_view(),
                b0.len() == BOOKMARK_SLOTS,
                forall|j: int| 0 <= j < BOOKMARK_SLOTS ==> #[trigger] self@[j] == if j < i {
                    restored(b0, l)[j]
                } else {
                    b0[j]
                },
            decreases BOOKMARK_SLOTS - i,
        {
            let ghost before = self@;
            assert(l[i as int] == list@[i as int]@);
            if list[i].as_str().unicode_len() > 0 {
                self.slots.set(i, Some(owned(list[i].as_str())));
                assert(self@ =~= before.update(i as int, Some(l[i as int])));
            } else {
                assert(self@ =~= before);
            }
            assert(restored(b0, l)[i as int] == self@[i as int]);
            i += 1;
        }
        assert(self@ =~= restored(b0, l));
    }
}

/// Saving the bookmarks and restoring the list onto empty slots gives the
/// same bookmarks, when no slot holds an empty path.
pub proof fn lemma_save_restore(b: Seq<Option<Seq<char>>>, empty: Seq<Option<Seq<char>>>)
    requires
        b.len() == BOOKMARK_SLOTS,
        empty.len() == BOOKMARK_SLOTS,
        forall|i: int| 0 <= i < BOOKMARK_SLOTS ==> #[trigger] empty[i] is None,
        forall|i: int| 0 <= i < BOOKMARK_SLOTS ==> (#[trigger] b[i] matches Some(p) ==> p.len() > 0),
    ensures
        restored(empty, saved_list(b)) == b,
{
    assert(restored(empty, saved_list(b)) =~= b);
}

} // verus!
