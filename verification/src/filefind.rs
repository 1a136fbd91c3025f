//! File search: names matched against a wildcard pattern, optionally with a
//! text that a file's lines must contain, over the entries of a directory
//! walk.

use vstd::prelude::*;
use crate::text::{append_str, chars_of, find_from, lowercase, occurs_at, owned, push_char, to_lower};
use crate::wildcard::{matches_wildcard, wildcard_match};

verus! {

/// File find state: the name pattern, the text to look for in files, the
/// directory searched, the results and the cursor over them.
#[derive(Debug)]
pub struct FileFinder {
    pub pattern: String,
    pub content_query: String,
    pub search_root: String,
    pub results: Vec<FindResult>,
    pub cursor: usize,
    pub scroll_offset: usize,
    pub searching: bool,
    pub search_complete: bool,
    pub visible_height: usize,
    pub case_sensitive: bool,
    pub search_subdirs: bool,
}

/// A file found: where it is, its name, size and kind, and for a text
/// search the number and a preview of the first line that matched.
#[derive(Debug, Clone)]
pub struct FindResult {
    pub path: String,
    pub name: String,
    pub size: u64,
    pub is_dir: bool,
    pub match_line: Option<(usize, String)>,
}

/// An entry met on the directory walk, in walk order: its path, name, size
/// and kind, and its lines when it was read (`None` for a line that could
/// not be read as text).
#[derive(Debug, Clone)]
pub struct Candidate {
    pub path: String,
    pub name: String,
    pub size: u64,
    pub is_dir: bool,
    pub lines: Option<Vec<Option<String>>>,
}

/// `s` in lower case unless the search is case-sensitive.
pub open spec fn fold(case_sensitive: bool, s: Seq<char>) -> Seq<char> {
    if case_sensitive { s } else { lowercase(s) }
}

/// `q` occurs somewhere in `h`.
pub open spec fn contains_text(h: Seq<char>, q: Seq<char>) -> bool {
    exists|i: int| occurs_at(h, q, i)
}

/// The UTF-8 width of a character.
pub open spec fn char_width(c: char) -> int {
    vstd::utf8::encode_scalar(c as u32).len() as int
}

/// The longest start of `l` that fits in `n` bytes of UTF-8.
pub open spec fn cut_to(l: Seq<char>, n: int) -> Seq<char>
    decreases l.len(),
{
    if l.len() == 0 || char_width(l[0]) > n {
        Seq::empty()
    } else {
        seq![l[0]] + cut_to(l.drop_first(), n - char_width(l[0]))
    }
}

/// A matching line as shown: lines over 80 bytes are cut to 77 bytes and
/// end in `...`.
pub open spec fn preview(l: Seq<char>) -> Seq<char> {
    if vstd::utf8::encode_utf8(l).len() > 80 { cut_to(l, 77) + "..."@ } else { l }
}

/// The first line from line `i` on that contains `q` (folded as the
/// search says): its number counted from 1 and its preview. Lines after
/// the 100 002nd are not looked at; unreadable lines never match.
pub open spec fn first_hit(lines: Seq<Option<Seq<char>>>, q: Seq<char>, cs: bool, i: int) -> Option<(int, Seq<char>)>
    decreases lines.len() - i,
{
    if i < 0 || i >= lines.len() {
        None
    } else if lines[i] is Some && contains_text(fold(cs, lines[i]->0), q) {
        Some((i + 1, preview(lines[i]->0)))
    } else if i > 100_000 {
        None
    } else {
        first_hit(lines, q, cs, i + 1)
    }
}

/// The texts of lines read from a file.
pub open spec fn lines_view(ls: Seq<Option<String>>) -> Seq<Option<Seq<char>>> {
    ls.map_values(|l: Option<String>| match l {
        Some(s) => Some(s@),
        None => None,
    })
}

/// A result as plain values: path, name, size, kind, matching line.
pub type ResultView = (Seq<char>, Seq<char>, u64, bool, Option<(int, Seq<char>)>);

/// The plain values of a result.
pub open spec fn result_view(r: FindResult) -> ResultView {
    (
        r.path@,
        r.name@,
        r.size,
        r.is_dir,
        match r.match_line {
            Some((n, s)) => Some((n as int, s@)),
            None => None,
        },
    )
}

/// The results from candidates `i` on: each whose name matches the pattern;
/// with a text to look for, only files (not directories) that were read
/// and have a line containing it, with that line.
pub open spec fn found_from(
    cands: Seq<Candidate>,
    pattern: Seq<char>,
    query: Seq<char>,
    cs: bool,
    i: int,
) -> Seq<ResultView>
    decreases cands.len() - i,
{
    if i < 0 || i >= cands.len() {
        Seq::empty()
    } else {
        let c = cands[i];
        let rest = found_from(cands, pattern, query, cs, i + 1);
        if !matches_wildcard(fold(cs, c.name@), fold(cs, pattern)) {
            rest
        } else if query.len() > 0 && !c.is_dir {
            match c.lines {
                Some(ls) => match first_hit(lines_view(ls@), fold(cs, query), cs, 0) {
                    Some(hit) => seq![(c.path@, c.name@, c.size, c.is_dir, Some(hit))] + rest,
                    None => rest,
                },
                None => rest,
            }
        } else {
            seq![(c.path@, c.name@, c.size, c.is_dir, None)] + rest
        }
    }
}

/// `s`, lower-cased unless the search is case-sensitive.
fn fold_exec(case_sensitive: bool, s: &str) -> (r: String)
    ensures
        r@ == fold(case_sensitive, s@),
{
    if case_sensitive { owned(s) } else { to_lower(s) }
}

/// The UTF-8 width of a character.
fn char_width_exec(c: char) -> (w: usize)
    ensures
        w == char_width(c),
{
    let u = c as u32;
    if u <= 0x7F {
        1
    } else if u <= 0x7FF {
        2
    } else if u <= 0xFFFF {
        3
    } else {
        4
    }
}

/// Whether `v` takes more than `n` bytes in UTF-8.
fn wider_than(v: &[char], n: usize) -> (r: bool)
    ensures
        r == (vstd::utf8::encode_utf8(v@).len() > n),
{
    let mut total: usize = 0;
    let mut i: usize = 0;
    assert(v@.skip(0) =~= v@);
    while i < v.len()
        invariant
            i <= v@.len(),
            total <= n,
            vstd::utf8::encode_utf8(v@).len() == total + vstd::utf8::encode_utf8(v@.skip(i as int)).len(),
        decreases v@.len() - i,
    {
        let w = char_width_exec(v[i]);
        assert(v@.skip(i as int)[0] == v@[i as int]);
        assert(v@.skip(i as int).drop_first() =~= v@.skip(i + 1));
        if w > n - total {
            return true;
        }
        total = total + w;
        i += 1;
    }
    assert(v@.skip(i as int) =~= Seq::<char>::empty());
    false
}

/// The preview of a matching line.
fn preview_exec(line: &str) -> (p: String)
    ensures
        p@ == preview(line@),
{
    let v = chars_of(line);
    if !wider_than(v.as_slice(), 80) {
        return owned(line);
    }
    let mut out = String::new();
    let mut used: usize = 0;
    let mut i: usize = 0;
    assert(v@.skip(0) =~= v@);
    loop
        invariant
            v@ == line@,
            used <= 77,
            i <= v@.len(),
            out@ + cut_to(v@.skip(i as int), 77 - used) == cut_to(v@, 77),
        ensures
            out@ == cut_to(v@, 77),
        decreases v@.len() - i,
    {
        if i == v.len() {
            assert(v@.skip(i as int) =~= Seq::<char>::empty());
            assert(out@ =~= out@ + cut_to(v@.skip(i as int), 77 - used));
            break;
        }
        let w = char_width_exec(v[i]);
        assert(v@.skip(i as int)[0] == v@[i as int]);
        if w > 77 - used {
            assert(cut_to(v@.skip(i as int), 77 - used) =~= Seq::<char>::empty());
            assert(out@ =~= out@ + cut_to(v@.skip(i as int), 77 - used));
            break;
        }
        let ghost before = out@;
        push_char(&mut out, v[i]);
        assert(v@.skip(i as int).drop_first() =~= v@.skip(i + 1));
        used = used + w;
        i += 1;
        assert(out@ + cut_to(v@.skip(i as int), 77 - used) =~= before + cut_to(v@.skip(i - 1), 77 - (used - w)));
    }
    assert(out@ == cut_to(v@, 77));
    proof {
        reveal_strlit("...");
    }
    append_str(&mut out, "...");
    out
}

/// `a - b`, or 0 when `b` is larger.
pub open spec fn sat_sub(a: int, b: int) -> int {
    if a > b { a - b } else { 0 }
}

/// The page step: one less than the page height, at least 1.
pub open spec fn find_page(height: usize) -> int {
    if height > 2 { height - 1 } else { 1 }
}

/// The scroll offset that brings the cursor onto a page of `height` rows.
pub open spec fn visible_offset(cursor: usize, scroll: usize, height: usize) -> int {
    let s = if cursor < scroll { cursor as int } else { scroll as int };
    if cursor >= s + height { cursor - height + 1 } else { s }
}

impl FileFinder {
    /// A search of `root` for every name (`*`), no text, case-insensitive,
    /// into subdirectories, 15 results a page.
    pub fn new(root: String) -> (f: FileFinder)
        ensures
            f.pattern@ == "*"@,
            f.content_query@.len() == 0,
            f.search_root@ == root@,
            f.results@.len() == 0,
            f.cursor == 0,
            f.scroll_offset == 0,
            !f.searching,
            !f.search_complete,
            f.visible_height == 15,
            !f.case_sensitive,
            f.search_subdirs,
    {
        FileFinder {
            pattern: owned("*"),
            content_query: String::new(),
            search_root: root,
            results: Vec::new(),
            cursor: 0,
            scroll_offset: 0,
            searching: false,
            search_complete: false,
            visible_height: 15,
            case_sensitive: false,
            search_subdirs: true,
        }
    }

    /// Whether a name matches the pattern (both lower-cased unless the
    /// search is case-sensitive).
    pub fn matches_pattern(&self, name: &str) -> (r: bool)
        ensures
            r == matches_wildcard(fold(self.case_sensitive, name@), fold(self.case_sensitive, self.pattern@)),
    {
        let pattern = fold_exec(self.case_sensitive, self.pattern.as_str());
        let name_check = fold_exec(self.case_sensitive, name);
        wildcard_match(name_check.as_str(), pattern.as_str())
    }

    /// Whether an entry's lines are needed: its name matches, there is a
    /// text to look for, and it is not a directory.
    pub fn wants_content(&self, name: &str, is_dir: bool) -> (r: bool)
        ensures
            r == (matches_wildcard(fold(self.case_sensitive, name@), fold(self.case_sensitive, self.pattern@))
                && self.content_query@.len() > 0 && !is_dir),
    {
        self.matches_pattern(name) && !self.content_query.as_str().is_empty() && !is_dir
    }

    /// The first line of a file, among `lines`, that contains the text
    /// looked for: its number from 1 and its preview.
    pub fn content_match(&self, lines: &Vec<Option<String>>) -> (r: Option<(usize, String)>)
        ensures
            match r {
                Some((n, p)) => first_hit(lines_view(lines@), fold(self.case_sensitive, self.content_query@), self.case_sensitive, 0)
                    == Some((n as int, p@)),
                None => first_hit(lines_view(lines@), fold(self.case_sensitive, self.content_query@), self.case_sensitive, 0)
                    is None,
            },
    {
        let query = fold_exec(self.case_sensitive, self.content_query.as_str());
        let qv = chars_of(query.as_str());
        let ghost ls = lines_view(lines@);
        let ghost q = fold(self.case_sensitive, self.content_query@);
        let mut i: usize = 0;
        while i < lines.len()
            invariant
                i <= lines.len(),
                ls == lines_view(lines@),
                qv@ == q,
                q == fold(self.case_sensitive, self.content_query@),
                i <= 100_001,
                first_hit(ls, q, self.case_sensitive, 0) == first_hit(ls, q, self.case_sensitive, i as int),
            decreases lines.len() - i,
        {
            assert(ls[i as int] == match lines@[i as int] {
                Some(s) => Some(s@),
                None => None::<Seq<char>>,
            });
            match &lines[i] {
                Some(line) => {
                    let hay = fold_exec(self.case_sensitive, line.as_str());
                    let hv = chars_of(hay.as_str());
                    match find_from(hv.as_slice(), qv.as_slice(), 0) {
                        Some(_) => {
                            let p = preview_exec(line.as_str());
                            return Some((i + 1, p));
                        },
                        None => {
                            assert(!contains_text(hv@, q));
                        },
                    }
                },
                None => {},
            }
            if i > 100_000 {
                return None;
            }
            i += 1;
        }
        None
    }

    /// Runs the search over the entries of a walk of the search root (each
    /// directory's entries in the order read, a directory's contents right
    /// after it when subdirectories are searched), with the lines of each
    /// entry that `wants_content`.
    pub fn execute(&mut self, candidates: Vec<Candidate>)
        ensures
            final(self).results@.map_values(|r: FindResult| result_view(r)) == found_from(
                candidates@,
                old(self).pattern@,
                old(self).content_query@,
                old(self).case_sensitive,
                0,
            ),
            final(self).cursor == 0,
            final(self).scroll_offset == 0,
            !final(self).searching,
            final(self).search_complete,
            final(self).pattern@ == old(self).pattern@,
            final(self).content_query@ == old(self).content_query@,
            final(self).case_sensitive == old(self).case_sensitive,
            final(self).visible_height == old(self).visible_height,
            final(self).search_root@ == old(self).search_root@,
            final(self).search_subdirs == old(self).search_subdirs,
    {
        self.results.clear();
        self.cursor = 0;
        self.scroll_offset = 0;
        self.searching = true;
        self.search_complete = false;
        let ghost pat = self.pattern@;
        let ghost query = self.content_query@;
        let ghost cs = self.case_sensitive;
        let mut i: usize = 0;
        assert(self.results@.map_values(|r: FindResult| result_view(r)) =~= Seq::<ResultView>::empty());
        while i < candidates.len()
            invariant
                i <= candidates.len(),
                pat == self.pattern@,
                query == self.content_query@,
                cs == self.case_sensitive,
                pat == old(self).pattern@,
                query == old(self).content_query@,
                cs == old(self).case_sensitive,
                self.visible_height == old(self).visible_height,
                self.search_root@ == old(self).search_root@,
                self.search_subdirs == old(self).search_subdirs,
                self.cursor == 0,
                self.scroll_offset == 0,
                self.results@.map_values(|r: FindResult| result_view(r)) + found_from(candidates@, pat, query, cs, i as int)
                    == found_from(candidates@, pat, query, cs, 0),
            decreases candidates.len() - i,
        {
            let c = &candidates[i];
            let ghost before = self.results@.map_values(|r: FindResult| result_view(r));
            if self.matches_pattern(c.name.as_str()) {
                if !self.content_query.as_str().is_empty() && !c.is_dir {
                    match &c.lines {
                        Some(ls) => {
                            match self.content_match(ls) {
                                Some(hit) => {
                                    let r = FindResult {
                                        path: c.path.clone(),
                                        name: c.name.clone(),
                                        size: c.size,
                                        is_dir: c.is_dir,
                                        match_line: Some(hit),
                                    };
                                    self.results.push(r);
                                    assert(self.results@.map_values(|r: FindResult| result_view(r)) =~= before.push(result_view(r)));
                                },
                                None => {},
                            }
                        },
                        None => {},
                    }
                } else {
                    let r = FindResult {
                        path: c.path.clone(),
                        name: c.name.clone(),
                        size: c.size,
                        is_dir: c.is_dir,
                        match_line: None,
                    };
                    self.results.push(r);
                    assert(self.results@.map_values(|r: FindResult| result_view(r)) =~= before.push(result_view(r)));
                }
            }
            i += 1;
            assert(self.results@.map_values(|r: FindResult| result_view(r)) + found_from(candidates@, pat, query, cs, i as int)
                =~= before + found_from(candidates@, pat, query, cs, i - 1));
        }
        assert(found_from(candidates@, pat, query, cs, i as int) =~= Seq::<ResultView>::empty());
        assert(self.results@.map_values(|r: FindResult| result_view(r)) =~= found_from(candidates@, pat, query, cs, 0));
        self.searching = false;
        self.search_complete = true;
    }

    /// Scrolls so that the cursor is on the page.
    fn ensure_visible(&mut self)
        requires
            old(self).scroll_offset + old(self).visible_height <= usize::MAX,
            old(self).visible_height > 0 || old(self).cursor < usize::MAX,
        ensures
            final(self).scroll_offset == visible_offset(old(self).cursor, old(self).scroll_offset, old(self).visible_height),
            final(self).cursor == old(self).cursor,
            final(self).results@ == old(self).results@,
            *final(self) == (FileFinder { cursor: final(self).cursor, scroll_offset: final(self).scroll_offset, ..*old(self) }),
            final(self).visible_height == old(self).visible_height,
    {
        if self.cursor < self.scroll_offset {
            self.scroll_offset = self.cursor;
        }
        if self.cursor >= self.scroll_offset + self.visible_height {
            self.scroll_offset = self.cursor - self.visible_height + 1;
        }
    }

    /// One result up.
    pub fn cursor_up(&mut self)
        requires
            old(self).cursor > 0 ==> old(self).scroll_offset + old(self).visible_height <= usize::MAX,
        ensures
            old(self).cursor > 0 ==> final(self).cursor == old(self).cursor - 1
                && final(self).scroll_offset == visible_offset(final(self).cursor, old(self).scroll_offset, old(self).visible_height),
            old(self).cursor == 0 ==> final(self).cursor == 0 && final(self).scroll_offset == old(self).scroll_offset,
            final(self).results@ == old(self).results@,
            *final(self) == (FileFinder { cursor: final(self).cursor, scroll_offset: final(self).scroll_offset, ..*old(self) }),
    {
        if self.cursor > 0 {
            self.cursor = self.cursor - 1;
            self.ensure_visible();
        }
    }

    /// One result down, if there is one.
    pub fn cursor_down(&mut self)
        requires
            old(self).cursor + 1 < old(self).results.len() ==> old(self).scroll_offset + old(self).visible_height <= usize::MAX,
            old(self).cursor + 1 < old(self).results.len() ==> (old(self).visible_height > 0 || old(self).cursor + 1 < usize::MAX),
        ensures
            old(self).cursor + 1 < old(self).results.len() ==> final(self).cursor == old(self).cursor + 1
                && final(self).scroll_offset == visible_offset(final(self).cursor, old(self).scroll_offset, old(self).visible_height),
            !(old(self).cursor + 1 < old(self).results.len()) ==> final(self).cursor == old(self).cursor
                && final(self).scroll_offset == old(self).scroll_offset,
            final(self).results@ == old(self).results@,
            *final(self) == (FileFinder { cursor: final(self).cursor, scroll_offset: final(self).scroll_offset, ..*old(self) }),
    {
        if self.cursor < usize::MAX && self.cursor + 1 < self.results.len() {
            self.cursor = self.cursor + 1;
            self.ensure_visible();
        }
    }

    /// A page up.
    pub fn page_up(&mut self)
        requires
            old(self).scroll_offset + old(self).visible_height <= usize::MAX,
            old(self).visible_height > 0 || old(self).cursor < usize::MAX,
        ensures
            final(self).cursor == sat_sub(old(self).cursor as int, find_page(old(self).visible_height)),
            final(self).scroll_offset == visible_offset(final(self).cursor, old(self).scroll_offset, old(self).visible_height),
            final(self).results@ == old(self).results@,
            *final(self) == (FileFinder { cursor: final(self).cursor, scroll_offset: final(self).scroll_offset, ..*old(self) }),
    {
        let page = if self.visible_height > 2 { self.visible_height - 1 } else { 1 };
        self.cursor = if self.cursor > page { self.cursor - page } else { 0 };
        self.ensure_visible();
    }

    /// A page down, stopping at the last result.
    pub fn page_down(&mut self)
        requires
            old(self).scroll_offset + old(self).visible_height <= usize::MAX,
            old(self).cursor + find_page(old(self).visible_height) <= usize::MAX,
            old(self).visible_height > 0 || old(self).results.len() < usize::MAX,
        ensures
            ({
                let want = old(self).cursor + find_page(old(self).visible_height);
                let last = sat_sub(old(self).results.len() as int, 1);
                final(self).cursor == if want < last { want } else { last }
            }),
            final(self).scroll_offset == visible_offset(final(self).cursor, old(self).scroll_offset, old(self).visible_height),
            final(self).results@ == old(self).results@,
            *final(self) == (FileFinder { cursor: final(self).cursor, scroll_offset: final(self).scroll_offset, ..*old(self) }),
    {
        let page = if self.visible_height > 2 { self.visible_height - 1 } else { 1 };
        let last = if self.results.len() > 0 { self.results.len() - 1 } else { 0 };
        let want = self.cursor + page;
        self.cursor = if want < last { want } else { last };
        self.ensure_visible();
    }

    /// The result under the cursor.
    pub fn current_result(&self) -> (r: Option<&FindResult>)
        ensures
            match r {
                Some(x) => self.cursor < self.results.len() && *x == self.results@[self.cursor as int],
                None => self.cursor >= self.results.len(),
            },
    {
        if self.cursor < self.results.len() {
            Some(&self.results[self.cursor])
        } else {
            None
        }
    }
}

/// The entries of a stack in the order they come off it: the top (last)
/// first.
pub open spec fn top_first(stack: Seq<Candidate>) -> Seq<Candidate> {
    Seq::new(stack.len(), |i: int| stack[stack.len() - 1 - i])
}

/// The directory walk of a file search, one entry at a time: the entries
/// still to visit, kept as a stack whose top is visited next, those
/// visited so far in visiting order, and whether the walk goes into
/// subdirectories.
pub struct FindWalk {
    pub pending: Vec<Candidate>,
    pub visited: Vec<Candidate>,
    pub deep: bool,
}

impl FindWalk {
    /// The entries still to visit, in the order they will be visited.
    pub open spec fn to_visit(&self) -> Seq<Candidate> {
        top_first(self.pending@)
    }

    /// A walk over the entries of the search root, in the order read.
    pub fn new(root_listing: Vec<Candidate>, deep: bool) -> (w: FindWalk)
        ensures
            w.to_visit() == root_listing@,
            w.visited@ == Seq::<Candidate>::empty(),
            w.deep == deep,
    {
        let mut w = FindWalk { pending: Vec::new(), visited: Vec::new(), deep };
        w.enter(root_listing);
        assert(w.to_visit() =~= root_listing@);
        w
    }

    /// Whether every entry has been visited.
    pub fn is_done(&self) -> (r: bool)
        ensures
            r == (self.to_visit().len() == 0),
    {
        self.pending.len() == 0
    }

    /// Visits the next entry. When it is a directory and the walk goes into
    /// subdirectories, gives its path: its entries are to be read and
    /// handed to `enter` before the walk goes on.
    pub fn visit_next(&mut self) -> (dir: Option<String>)
        requires
            old(self).to_visit().len() > 0,
        ensures
            final(self).visited@ == old(self).visited@.push(old(self).to_visit()[0]),
            final(self).to_visit() == old(self).to_visit().drop_first(),
            final(self).deep == old(self).deep,
            dir is Some <==> (old(self).to_visit()[0].is_dir && old(self).deep),
            dir is Some ==> dir->0@ == old(self).to_visit()[0].path@,
    {
        let ghost before = self.to_visit();
        let c = self.pending.pop().unwrap();
        let dir = if c.is_dir && self.deep {
            Some(owned(c.path.as_str()))
        } else {
            None
        };
        self.visited.push(c);
        assert(self.to_visit() =~= before.drop_first());
        dir
    }

    /// Puts the entries of a directory, in the order read, before all the
    /// entries still to visit.
    pub fn enter(&mut self, listing: Vec<Candidate>)
        ensures
            final(self).to_visit() == listing@ + old(self).to_visit(),
            final(self).visited@ == old(self).visited@,
            final(self).deep == old(self).deep,
    {
        let ghost rest = self.to_visit();
        let ghost all = listing@;
        let mut l = listing;
        while l.len() > 0
            invariant
                l@.len() <= all.len(),
                l@ == all.subrange(0, l@.len() as int),
                self.to_visit() == all.subrange(l@.len() as int, all.len() as int) + rest,
                self.visited@ == old(self).visited@,
                self.deep == old(self).deep,
            decreases l.len(),
        {
            let ghost prev = l@;
            let ghost before = self.pending@;
            let c = l.pop().unwrap();
            assert(c == all[l@.len() as int]);
            self.pending.push(c);
            assert(self.pending@ == before.push(c));
            assert(l@ =~= all.subrange(0, l@.len() as int));
            assert(top_first(self.pending@) =~= seq![c] + top_first(before));
            assert(seq![c] + (all.subrange(prev.len() as int, all.len() as int) + rest)
                =~= all.subrange(l@.len() as int, all.len() as int) + rest);
        }
        assert(all.subrange(0, all.len() as int) =~= all);
    }

    /// The entries visited, in visiting order.
    pub fn into_visited(self) -> (v: Vec<Candidate>)
        ensures
            v@ == self.visited@,
    {
        self.visited
    }
}

} // verus!
