//! User menu: `label=command` lines read from a menu file, with a cursor
//! over the selectable items and parameter substitution in commands.

use vstd::prelude::*;
use crate::paths::{extension, file_stem, join};
use crate::text::{chars_of, lines_of, owned, replace_all, replace_str, split_lines, trim, trim_str};

verus! {

/// A menu line: a label and command, or a separator.
#[derive(Debug, Clone)]
pub struct UserMenuItem {
    pub label: String,
    pub command: String,
    pub is_separator: bool,
}

/// The menu and the cursor, which counts selectable items only.
#[derive(Debug)]
pub struct UserMenuData {
    pub items: Vec<UserMenuItem>,
    pub cursor: usize,
}

/// An item as plain values: label, command, separator.
pub type ItemView = (Seq<char>, Seq<char>, bool);

/// The plain values of the items.
pub open spec fn items_view(items: Seq<UserMenuItem>) -> Seq<ItemView> {
    items.map_values(|i: UserMenuItem| (i.label@, i.command@, i.is_separator))
}

/// The menu items of some lines: an empty (or blank) line is a separator,
/// a line starting with `#` a comment, a line with `=` an item with the
/// trimmed text before and after the first `=`, anything else nothing.
pub open spec fn menu_items(lines: Seq<Seq<char>>) -> Seq<ItemView>
    decreases lines.len(),
{
    if lines.len() == 0 {
        Seq::empty()
    } else {
        let t = trim(lines[0]);
        let rest = menu_items(lines.drop_first());
        let k = crate::text::index_of_or_len(t, '=');
        if t.len() == 0 {
            seq![(Seq::<char>::empty(), Seq::<char>::empty(), true)] + rest
        } else if t[0] == '#' {
            rest
        } else if k < t.len() {
            seq![(trim(t.take(k)), trim(t.skip(k + 1)), false)] + rest
        } else {
            rest
        }
    }
}

/// The menu read from a menu file's text; one placeholder item when the
/// text gives none.
pub open spec fn parse_menu(content: Seq<char>) -> Seq<ItemView> {
    let items = menu_items(split_lines(content));
    if items.len() == 0 { seq![("No items configured"@, Seq::<char>::empty(), false)] } else { items }
}

/// The number of items that are not separators.
pub open spec fn selectable(items: Seq<ItemView>) -> nat
    decreases items.len(),
{
    if items.len() == 0 {
        0
    } else {
        (if items[0].2 { 0nat } else { 1nat }) + selectable(items.drop_first())
    }
}

/// The position of the `n`-th (from 0) item that is not a separator.
pub open spec fn nth_selectable(items: Seq<ItemView>, n: int) -> Option<int>
    decreases items.len(),
{
    if items.len() == 0 {
        None
    } else if !items[0].2 && n == 0 {
        Some(0)
    } else {
        match nth_selectable(items.drop_first(), if items[0].2 { n } else { n - 1 }) {
            Some(i) => Some(i + 1),
            None => None,
        }
    }
}

/// The command with its parameters filled in, in this order: `%f` the file,
/// `%n` its name without extension, `%e` its extension (all empty without
/// a file), `%d` the current directory, `%p` the other panel's directory
/// (empty without one).
pub open spec fn substituted(
    command: Seq<char>,
    file: Option<Seq<char>>,
    dir: Seq<char>,
    other: Option<Seq<char>>,
) -> Seq<char> {
    let f = match file { Some(x) => x, None => Seq::empty() };
    let n = match file {
        Some(x) => match file_stem(x) { Some(s) => s, None => Seq::empty() },
        None => Seq::empty(),
    };
    let e = match file {
        Some(x) => match extension(x) { Some(s) => s, None => Seq::empty() },
        None => Seq::empty(),
    };
    let o = match other { Some(x) => x, None => Seq::empty() };
    let r1 = replace_all(command, "%f"@, f);
    let r2 = replace_all(r1, "%n"@, n);
    let r3 = replace_all(r2, "%e"@, e);
    let r4 = replace_all(r3, "%d"@, dir);
    replace_all(r4, "%p"@, o)
}

/// The menu file under a home directory (or the working directory without
/// one): `.config/rdn/menu.txt`.
pub open spec fn menu_path(home: Option<Seq<char>>) -> Seq<char> {
    let base = match home { Some(h) => h, None => "."@ };
    join(join(join(base, ".config"@), "rdn"@), "menu.txt"@)
}

/// Where the menu file is, given the home directory.
pub fn menu_file_path(home: Option<&str>) -> (p: String)
    ensures
        p@ == menu_path(match home { Some(h) => Some(h@), None => None }),
{
    let base = match home {
        Some(h) => owned(h),
        None => owned("."),
    };
    let a = crate::paths::join_path(base.as_str(), ".config");
    let b = crate::paths::join_path(a.as_str(), "rdn");
    crate::paths::join_path(b.as_str(), "menu.txt")
}

/// The text of the menu file written when there is none: a comment that
/// explains the format, then Git, disk and file commands in groups
/// separated by empty lines, and a command that opens a shell.
pub open spec fn default_menu_text() -> Seq<char> {
    "# RDN User Menu
# Format: label=command
# Variables: %f=file, %d=dir, %n=name, %e=ext, %p=other panel
# Empty lines are separators, lines starting with # are comments.

Git Status=git status
Git Log=git log --oneline -20
Git Diff=git diff

Disk Usage=du -sh *
Find Large Files=find . -size +10M -exec ls -lh {} \\;

List All Files=ls -laR
Count Files=find . -type f | wc -l

Open Terminal=echo \"Current dir: %d\" && $SHELL
"@
}

/// The text of the menu file written when there is none.
pub fn default_menu() -> (s: String)
    ensures
        s@ == default_menu_text(),
{
    owned("# RDN User Menu
# Format: label=command
# Variables: %f=file, %d=dir, %n=name, %e=ext, %p=other panel
# Empty lines are separators, lines starting with # are comments.

Git Status=git status
Git Log=git log --oneline -20
Git Diff=git diff

Disk Usage=du -sh *
Find Large Files=find . -size +10M -exec ls -lh {} \\;

List All Files=ls -laR
Count Files=find . -type f | wc -l

Open Terminal=echo \"Current dir: %d\" && $SHELL
")
}

/// The index of the first `=` in `v`, or its length.
fn find_eq(v: &Vec<char>) -> (k: usize)
    ensures
        k == crate::text::index_of_or_len(v@, '='),
{
    let mut k: usize = 0;
    while k < v.len() && v[k] != '='
        invariant
            k <= v@.len(),
            forall|j: int| 0 <= j < k ==> v@[j] != '=',
        decreases v@.len() - k,
    {
        k += 1;
    }
    proof {
        crate::text::lemma_index_of_or_len_is(v@, '=', k as int);
    }
    k
}

impl UserMenuData {
    /// The items as plain values.
    pub open spec fn view_items(&self) -> Seq<ItemView> {
        items_view(self.items@)
    }

    /// The menu read from the text of a menu file, cursor on the first item.
    pub fn load(content: &str) -> (m: UserMenuData)
        ensures
            m.view_items() == parse_menu(content@),
            m.cursor == 0,
    {
        let chars = chars_of(content);
        let lines = lines_of(chars.as_slice());
        let ghost ls = lines.deep_view();
        let mut items: Vec<UserMenuItem> = Vec::new();
        let mut i: usize = 0;
        assert(ls.skip(0) =~= ls);
        assert(items_view(items@) + menu_items(ls.skip(0)) =~= menu_items(ls));
        while i < lines.len()
            invariant
                i <= lines.len(),
                ls == lines.deep_view(),
                ls == split_lines(content@),
                items_view(items@) + menu_items(ls.skip(i as int)) == menu_items(ls),
            decreases lines.len() - i,
        {
            let ghost before = items_view(items@);
            assert(ls.skip(i as int)[0] == lines@[i as int]@);
            assert(ls.skip(i as int).drop_first() =~= ls.skip(i + 1));
            let t = trim_str(lines[i].as_str());
            let tv = chars_of(t.as_str());
            if tv.len() == 0 {
                items.push(UserMenuItem { label: String::new(), command: String::new(), is_separator: true });
                assert(items_view(items@) =~= before.push((Seq::<char>::empty(), Seq::<char>::empty(), true)));
            } else if tv[0] == '#' {
            } else {
                let k = find_eq(&tv);
                if k < tv.len() {
                    let label_raw = crate::text::string_of(tv.as_slice(), 0, k);
                    let cmd_raw = crate::text::string_of(tv.as_slice(), k + 1, tv.len());
                    let label = trim_str(label_raw.as_str());
                    let command = trim_str(cmd_raw.as_str());
                    proof {
                        assert(label_raw@ =~= tv@.take(k as int));
                        assert(cmd_raw@ =~= tv@.skip(k + 1));
                    }
                    items.push(UserMenuItem { label, command, is_separator: false });
                    assert(items_view(items@) =~= before.push((trim(tv@.take(k as int)), trim(tv@.skip(k + 1)), false)));
                }
            }
            i += 1;
            assert(items_view(items@) + menu_items(ls.skip(i as int)) =~= before + menu_items(ls.skip(i - 1)));
        }
        assert(ls.skip(i as int) =~= Seq::<Seq<char>>::empty());
        assert(items_view(items@) =~= menu_items(ls));
        if items.len() == 0 {
            items.push(UserMenuItem { label: owned("No items configured"), command: String::new(), is_separator: false });
            assert(items_view(items@) =~= seq![("No items configured"@, Seq::<char>::empty(), false)]);
        }
        UserMenuData { items, cursor: 0 }
    }

    /// The number of items that are not separators.
    pub fn selectable_count(&self) -> (n: usize)
        ensures
            n == selectable(self.view_items()),
    {
        let ghost iv = self.view_items();
        let mut n: usize = 0;
        let mut i: usize = self.items.len();
        assert(iv.take(i as int) =~= iv);
        while i > 0
            invariant
                i <= self.items.len(),
                iv == self.view_items(),
                n <= self.items.len() - i,
                n + selectable(iv.take(i as int)) == selectable(iv),
            decreases i,
        {
            i -= 1;
            proof {
                lemma_selectable_split(iv.take(i + 1), i as int);
                assert(iv.take(i + 1).take(i as int) =~= iv.take(i as int));
                assert(iv.take(i + 1).skip(i as int) =~= seq![iv[i as int]]);
                assert(selectable(seq![iv[i as int]]) == (if iv[i as int].2 { 0nat } else { 1nat })) by {
                    reveal_with_fuel(selectable, 2);
                    assert(seq![iv[i as int]].drop_first() =~= Seq::<ItemView>::empty());
                }
            }
            if !self.items[i].is_separator {
                n = n + 1;
            }
        }
        assert(iv.take(0) =~= Seq::<ItemView>::empty());
        n
    }

    /// The selectable item the cursor is on.
    pub fn current_item(&self) -> (r: Option<&UserMenuItem>)
        ensures
            match r {
                Some(x) => exists|i: int| nth_selectable(self.view_items(), self.cursor as int) == Some(i)
                    && 0 <= i < self.items.len() && *x == self.items@[i],
                None => nth_selectable(self.view_items(), self.cursor as int) is None,
            },
    {
        let ghost iv = self.view_items();
        let mut idx: usize = 0;
        let mut i: usize = 0;
        assert(iv.skip(0) =~= iv);
        while i < self.items.len()
            invariant
                i <= self.items.len(),
                idx <= self.cursor,
                iv == self.view_items(),
                nth_selectable(iv, self.cursor as int) == match nth_selectable(iv.skip(i as int), self.cursor - idx) {
                    Some(j) => Some(j + i),
                    None => None::<int>,
                },
            decreases self.items.len() - i,
        {
            assert(iv.skip(i as int)[0] == iv[i as int]);
            assert(iv.skip(i as int).drop_first() =~= iv.skip(i + 1));
            if !self.items[i].is_separator {
                if idx == self.cursor {
                    return Some(&self.items[i]);
                }
                idx += 1;
            }
            i += 1;
        }
        assert(iv.skip(i as int) =~= Seq::<ItemView>::empty());
        None
    }

    /// One item up.
    pub fn cursor_up(&mut self)
        ensures
            final(self).cursor == if old(self).cursor > 0 { old(self).cursor - 1 } else { 0 },
            final(self).view_items() == old(self).view_items(),
    {
        if self.cursor > 0 {
            self.cursor = self.cursor - 1;
        }
    }

    /// One item down, up to the last selectable one.
    pub fn cursor_down(&mut self)
        ensures
            final(self).cursor == if old(self).cursor + 1 < selectable(old(self).view_items()) {
                old(self).cursor + 1
            } else {
                old(self).cursor as int
            },
            final(self).view_items() == old(self).view_items(),
    {
        let count = self.selectable_count();
        let max = if count > 0 { count - 1 } else { 0 };
        if self.cursor < max {
            self.cursor = self.cursor + 1;
        }
    }

    /// Fills in the parameters of a command (see `substituted`).
    pub fn substitute_command(
        command: &str,
        current_file: Option<&str>,
        current_dir: &str,
        other_panel_dir: Option<&str>,
    ) -> (r: String)
        ensures
            r@ == substituted(
                command@,
                match current_file { Some(f) => Some(f@), None => None },
                current_dir@,
                match other_panel_dir { Some(o) => Some(o@), None => None },
            ),
    {
        proof {
            reveal_strlit("%f");
            reveal_strlit("%n");
            reveal_strlit("%e");
            reveal_strlit("%d");
            reveal_strlit("%p");
            reveal_strlit("");
            assert(""@ =~= Seq::<char>::empty());
        }
        let ghost fv = match current_file { Some(f) => Some(f@), None => None::<Seq<char>> };
        let ghost ov = match other_panel_dir { Some(o) => Some(o@), None => None::<Seq<char>> };
        let ghost f = match fv { Some(x) => x, None => Seq::<char>::empty() };
        let ghost n = match fv {
            Some(x) => match file_stem(x) { Some(s) => s, None => Seq::<char>::empty() },
            None => Seq::<char>::empty(),
        };
        let ghost e = match fv {
            Some(x) => match extension(x) { Some(s) => s, None => Seq::<char>::empty() },
            None => Seq::<char>::empty(),
        };
        let ghost o = match ov { Some(x) => x, None => Seq::<char>::empty() };
        let mut result = owned(command);
        match current_file {
            Some(file) => {
                let name_no_ext = match crate::paths::file_stem_of(file) {
                    Some(s) => s,
                    None => String::new(),
                };
                let ext = match crate::paths::extension_of(file) {
                    Some(s) => s,
                    None => String::new(),
                };
                assert(name_no_ext@ == n);
                assert(ext@ == e);
                result = replace_str(result.as_str(), "%f", file);
                result = replace_str(result.as_str(), "%n", name_no_ext.as_str());
                result = replace_str(result.as_str(), "%e", ext.as_str());
            },
            None => {
                result = replace_str(result.as_str(), "%f", "");
                result = replace_str(result.as_str(), "%n", "");
                result = replace_str(result.as_str(), "%e", "");
            },
        }
        assert(result@ == replace_all(replace_all(replace_all(command@, "%f"@, f), "%n"@, n), "%e"@, e));
        result = replace_str(result.as_str(), "%d", current_dir);
        match other_panel_dir {
            Some(other) => {
                result = replace_str(result.as_str(), "%p", other);
            },
            None => {
                result = replace_str(result.as_str(), "%p", "");
            },
        }
        assert(result@ == replace_all(replace_all(replace_all(replace_all(replace_all(command@, "%f"@, f), "%n"@, n), "%e"@, e), "%d"@, current_dir@), "%p"@, o));
        result
    }
}

/// The selectable count of a sequence splits at any point.
pub proof fn lemma_selectable_split(items: Seq<ItemView>, k: int)
    requires
        0 <= k <= items.len(),
    ensures
        selectable(items) == selectable(items.take(k)) + selectable(items.skip(k)),
    decreases k,
{
    if k == 0 {
        assert(items.take(0) =~= Seq::<ItemView>::empty());
        assert(items.skip(0) =~= items);
    } else {
        lemma_selectable_split(items.drop_first(), k - 1);
        assert(items.take(k).drop_first() =~= items.drop_first().take(k - 1));
        assert(items.drop_first().skip(k - 1) =~= items.skip(k));
    }
}

} // verus!
