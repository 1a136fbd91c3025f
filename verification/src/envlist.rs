//! The environment variables screen: the variables sorted by name without
//! regard to case, and a cursor over them.

use vstd::prelude::*;
use crate::panel::{key_of, sort_keyed, sorted_with, Key, SortKey};
use crate::text::{chars_of, lowercase, to_lower};

verus! {

/// The sort key of a variable: its name in lower case.
pub open spec fn env_key() -> spec_fn((Seq<char>, Seq<char>)) -> Key {
    |v: (Seq<char>, Seq<char>)| (0int, 0int, lowercase(v.0), Seq::<char>::empty())
}

/// The variables (name, value) in display order and the line under the
/// cursor.
pub struct EnvList {
    pub vars: Vec<(String, String)>,
    pub cursor: usize,
}

/// How far Page Up and Page Down move.
pub const ENV_PAGE: usize = 20;

impl EnvList {
    /// The cursor is on a variable, or on the first line of an empty list.
    pub open spec fn wf(&self) -> bool {
        self.cursor == 0 || self.cursor < self.vars.len()
    }

    /// The screen for `vars`: sorted by name without regard to case (names
    /// equal that way keep their order), cursor on the first line.
    pub fn new(vars: Vec<(String, String)>) -> (l: EnvList)
        ensures
            l.vars.deep_view() == sorted_with(env_key(), vars.deep_view()),
            l.cursor == 0,
            l.wf(),
    {
        let mut keys: Vec<SortKey> = Vec::new();
        let mut i: usize = 0;
        while i < vars.len()
            invariant
                i <= vars.len(),
                keys.len() == i,
                forall|j: int| 0 <= j < i ==> key_of(#[trigger] keys@[j]) == env_key()(vars@[j].deep_view()),
            decreases vars.len() - i,
        {
            let first = chars_of(to_lower(vars[i].0.as_str()).as_str());
            let k = SortKey { rank: 0, num: 0, first, second: Vec::new() };
            proof {
                assert(k.second@ =~= Seq::<char>::empty());
            }
            keys.push(k);
            i += 1;
        }
        let sorted = sort_keyed(vars, keys, Ghost(env_key()));
        EnvList { vars: sorted, cursor: 0 }
    }

    /// Up arrow: the line above, if any.
    pub fn cursor_up(&mut self)
        ensures
            final(self).cursor == if old(self).cursor > 0 { old(self).cursor - 1 } else { 0 },
            final(self).vars == old(self).vars,
    {
        if self.cursor > 0 {
            self.cursor -= 1;
        }
    }

    /// Down arrow: the line below, if any.
    pub fn cursor_down(&mut self)
        ensures
            final(self).cursor == if old(self).cursor + 1 < old(self).vars.len() {
                old(self).cursor + 1
            } else {
                old(self).cursor as int
            },
            final(self).vars == old(self).vars,
    {
        if self.cursor < self.vars.len() && self.cursor + 1 < self.vars.len() {
            self.cursor += 1;
        }
    }

    /// Page Up: twenty lines up, stopping at the first.
    pub fn page_up(&mut self)
        ensures
            final(self).cursor == if old(self).cursor >= ENV_PAGE { old(self).cursor - ENV_PAGE } else { 0 },
            final(self).vars == old(self).vars,
    {
        self.cursor = if self.cursor >= ENV_PAGE { self.cursor - ENV_PAGE } else { 0 };
    }

    /// Page Down: twenty lines down, stopping at the last.
    pub fn page_down(&mut self)
        requires
            old(self).cursor + ENV_PAGE <= usize::MAX,
        ensures
            ({
                let last = if old(self).vars.len() > 0 { old(self).vars.len() - 1 } else { 0 };
                final(self).cursor == if old(self).cursor + ENV_PAGE < last { old(self).cursor + ENV_PAGE } else { last }
            }),
            final(self).vars == old(self).vars,
    {
        let last = if self.vars.len() > 0 { self.vars.len() - 1 } else { 0 };
        let want = self.cursor + ENV_PAGE;
        self.cursor = if want < last { want } else { last };
    }

    /// Home: the first line.
    pub fn cursor_home(&mut self)
        ensures
            final(self).cursor == 0,
            final(self).vars == old(self).vars,
    {
        self.cursor = 0;
    }

    /// End: the last line.
    pub fn cursor_end(&mut self)
        ensures
            final(self).cursor == if old(self).vars.len() > 0 { old(self).vars.len() - 1 } else { 0 },
            final(self).vars == old(self).vars,
    {
        self.cursor = if self.vars.len() > 0 { self.vars.len() - 1 } else { 0 };
    }
}

} // verus!
