//! A line-based text editor: cursor movement, editing, block selection,
//! clipboard, search and replace, undo and redo.
//!
//! Columns count characters of a line.

use vstd::prelude::*;
use crate::keys::{Key, Mods};
use crate::text::{append_str, chars_of, owned, push_char, string_of};

verus! {

broadcast use vstd::seq_lib::group_seq_properties;

/// A block between two positions; either end may come first.
#[derive(Debug, Clone, Copy, PartialEq, Eq, Structural)]
pub struct Selection {
    pub start_x: usize,
    pub start_y: usize,
    pub end_x: usize,
    pub end_y: usize,
}

/// An edit as the undo and redo stacks remember it.
#[derive(Debug)]
pub enum UndoAction {
    Insert { x: usize, y: usize, text: String },
    Delete { x: usize, y: usize, text: String },
    JoinLines { y: usize, col: usize },
    SplitLine { y: usize, col: usize },
    ReplaceAll { old_lines: Vec<String> },
}

/// An edit as plain values.
pub enum UndoView {
    Insert { x: usize, y: usize, text: Seq<char> },
    Delete { x: usize, y: usize, text: Seq<char> },
    JoinLines { y: usize, col: usize },
    SplitLine { y: usize, col: usize },
    ReplaceAll { old_lines: Seq<Seq<char>> },
}

impl View for UndoAction {
    type V = UndoView;

    open spec fn view(&self) -> UndoView {
        match self {
            UndoAction::Insert { x, y, text } => UndoView::Insert { x: *x, y: *y, text: text@ },
            UndoAction::Delete { x, y, text } => UndoView::Delete { x: *x, y: *y, text: text@ },
            UndoAction::JoinLines { y, col } => UndoView::JoinLines { y: *y, col: *col },
            UndoAction::SplitLine { y, col } => UndoView::SplitLine { y: *y, col: *col },
            UndoAction::ReplaceAll { old_lines } => UndoView::ReplaceAll { old_lines: old_lines.deep_view() },
        }
    }
}

/// What the input line at the bottom of the editor is asking for.
#[derive(Debug, Clone, Copy, PartialEq, Eq, Structural)]
pub enum EditorInputMode {
    Normal,
    Search,
    Replace,
    ReplaceConfirm,
    SaveAs,
    GotoLine,
}

/// The editor's state, with the keys of the macro being recorded and of
/// the last macro recorded. Positions on a line (`cursor_x`, `scroll_x`,
/// the columns of a selection and of the edits remembered for undo) count
/// characters, not bytes, so they stay on character boundaries in text
/// that is not ASCII.
pub struct Editor {
    pub path: Option<String>,
    pub lines: Vec<String>,
    pub cursor_x: usize,
    pub cursor_y: usize,
    pub scroll_x: usize,
    pub scroll_y: usize,
    pub visible_height: usize,
    pub visible_width: usize,
    pub modified: bool,
    pub selection: Option<Selection>,
    pub clipboard: Vec<String>,
    pub undo_stack: Vec<UndoAction>,
    pub redo_stack: Vec<UndoAction>,
    pub search_query: String,
    pub replace_query: String,
    pub auto_indent: bool,
    pub word_wrap: bool,
    pub tab_size: usize,
    pub insert_mode: bool,
    pub status_msg: Option<String>,
    pub input_mode: EditorInputMode,
    pub input_buffer: String,
    pub macro_recording: bool,
    pub macro_buffer: Vec<(Key, Mods)>,
    pub macro_saved: Vec<(Key, Mods)>,
}

/// The editor as plain values.
#[verifier::ext_equal]
pub struct EditorView {
    pub path: Option<Seq<char>>,
    pub lines: Seq<Seq<char>>,
    pub cursor_x: usize,
    pub cursor_y: usize,
    pub scroll_x: usize,
    pub scroll_y: usize,
    pub visible_height: usize,
    pub visible_width: usize,
    pub modified: bool,
    pub selection: Option<Selection>,
    pub clipboard: Seq<Seq<char>>,
    pub undo: Seq<UndoView>,
    pub redo: Seq<UndoView>,
    pub search_query: Seq<char>,
    pub replace_query: Seq<char>,
    pub auto_indent: bool,
    pub word_wrap: bool,
    pub tab_size: usize,
    pub insert_mode: bool,
    pub status_msg: Option<Seq<char>>,
    pub input_mode: EditorInputMode,
    pub input_buffer: Seq<char>,
    pub macro_recording: bool,
    pub macro_buffer: Seq<(Key, Mods)>,
    pub macro_saved: Seq<(Key, Mods)>,
}

/// The views of a stack of edits.
pub open spec fn actions_view(v: Seq<UndoAction>) -> Seq<UndoView> {
    v.map_values(|a: UndoAction| a@)
}

impl View for Editor {
    type V = EditorView;

    open spec fn view(&self) -> EditorView {
        EditorView {
            path: match self.path {
                Some(p) => Some(p@),
                None => None,
            },
            lines: self.lines.deep_view(),
            cursor_x: self.cursor_x,
            cursor_y: self.cursor_y,
            scroll_x: self.scroll_x,
            scroll_y: self.scroll_y,
            visible_height: self.visible_height,
            visible_width: self.visible_width,
            modified: self.modified,
            selection: self.selection,
            clipboard: self.clipboard.deep_view(),
            undo: actions_view(self.undo_stack@),
            redo: actions_view(self.redo_stack@),
            search_query: self.search_query@,
            replace_query: self.replace_query@,
            auto_indent: self.auto_indent,
            word_wrap: self.word_wrap,
            tab_size: self.tab_size,
            insert_mode: self.insert_mode,
            status_msg: match self.status_msg {
                Some(s) => Some(s@),
                None => None,
            },
            input_mode: self.input_mode,
            input_buffer: self.input_buffer@,
            macro_recording: self.macro_recording,
            macro_buffer: self.macro_buffer@,
            macro_saved: self.macro_saved@,
        }
    }
}

/// A line as the editor holds it: no newline in it.
pub open spec fn line_ok(s: Seq<char>) -> bool {
    forall|i: int| 0 <= i < s.len() ==> #[trigger] s[i] != '\n'
}

/// No line holds a newline.
pub open spec fn lines_ok(ls: Seq<Seq<char>>) -> bool {
    forall|i: int| 0 <= i < ls.len() ==> line_ok(#[trigger] ls[i])
}

/// A well-formed editor: at least one line, the cursor on a line, no
/// newline inside a line.
pub open spec fn wf(e: EditorView) -> bool {
    &&& e.lines.len() >= 1
    &&& e.cursor_y < e.lines.len()
    &&& lines_ok(e.lines)
}

/// The scroll offset that keeps position `c` inside a window of `h` cells
/// starting at `s`.
pub open spec fn fit_scroll(c: usize, s: usize, h: usize) -> usize {
    let s1 = if c < s { c } else { s };
    if c - s1 >= h {
        if h == 0 && c == usize::MAX { c } else { (c - h + 1) as usize }
    } else {
        s1
    }
}

/// The view with the cursor brought into the window.
pub open spec fn scrolled(e: EditorView) -> EditorView {
    EditorView {
        scroll_y: fit_scroll(e.cursor_y, e.scroll_y, e.visible_height),
        scroll_x: fit_scroll(e.cursor_x, e.scroll_x, e.visible_width),
        ..e
    }
}

/// The length of the line under the cursor.
pub open spec fn cur_len(e: EditorView) -> nat {
    e.lines[e.cursor_y as int].len()
}

/// The view with the cursor column kept within its line.
pub open spec fn clamped(e: EditorView) -> EditorView {
    if e.cursor_x > cur_len(e) {
        EditorView { cursor_x: cur_len(e) as usize, ..e }
    } else {
        e
    }
}

/// The view with the cursor moved to (`x`, `y`), the selection cleared and
/// the window scrolled to it.
pub open spec fn moved_to(e: EditorView, x: usize, y: usize) -> EditorView {
    scrolled(EditorView { cursor_x: x, cursor_y: y, selection: None, ..e })
}

/// The view with the cursor on line `y`, its column kept within the line,
/// the selection cleared and the window scrolled.
pub open spec fn moved_to_line(e: EditorView, y: usize) -> EditorView {
    scrolled(EditorView { selection: None, ..clamped(EditorView { cursor_y: y, ..e }) })
}

/// The text of the lines joined with newlines (what is written to disk).
pub open spec fn document_text(lines: Seq<Seq<char>>) -> Seq<char> {
    crate::config::joined(lines, '\n')
}

/// The lines an editor opens with for a file's contents: the lines of the
/// text, or one empty line when it is empty.
pub open spec fn opened_lines(content: Seq<char>) -> Seq<Seq<char>> {
    if content.len() == 0 {
        seq![Seq::<char>::empty()]
    } else {
        crate::text::split_lines(content)
    }
}

/// The editor's state before anything is opened.
pub open spec fn blank(path: Option<Seq<char>>, lines: Seq<Seq<char>>) -> EditorView {
    EditorView {
        path,
        lines,
        cursor_x: 0,
        cursor_y: 0,
        scroll_x: 0,
        scroll_y: 0,
        visible_height: 20,
        visible_width: 80,
        modified: false,
        selection: None,
        clipboard: Seq::empty(),
        undo: Seq::empty(),
        redo: Seq::empty(),
        search_query: Seq::empty(),
        replace_query: Seq::empty(),
        auto_indent: true,
        word_wrap: false,
        tab_size: 4,
        insert_mode: true,
        status_msg: None,
        input_mode: EditorInputMode::Normal,
        input_buffer: Seq::empty(),
        macro_recording: false,
        macro_buffer: Seq::empty(),
        macro_saved: Seq::empty(),
    }
}

/// The lines of a text hold no newline, and a text that is not empty has
/// a line.
pub proof fn lemma_split_lines_ok(s: Seq<char>)
    ensures
        lines_ok(crate::text::split_lines(s)),
        s.len() > 0 ==> crate::text::split_lines(s).len() >= 1,
    decreases s.len(),
{
    if s.len() > 0 {
        let k = crate::text::index_of_or_len(s, '\n');
        crate::text::lemma_index_of_or_len_bounds(s);
        crate::text::lemma_index_of_or_len(s, '\n');
        if k < s.len() {
            lemma_split_lines_ok(s.skip(k + 1));
            let first = crate::text::line_body(s.take(k), true);
            assert(line_ok(first)) by {
                assert forall|i: int| 0 <= i < first.len() implies #[trigger] first[i] != '\n' by {
                    assert(first[i] == s[i]);
                }
            }
            let rest = crate::text::split_lines(s.skip(k + 1));
            assert(crate::text::split_lines(s) == seq![first] + rest);
            assert forall|i: int| 0 <= i < crate::text::split_lines(s).len()
                implies line_ok(#[trigger] crate::text::split_lines(s)[i]) by {
                if i > 0 {
                    assert(crate::text::split_lines(s)[i] == rest[i - 1]);
                }
            }
        } else {
            assert(crate::text::split_lines(s) == seq![s]);
        }
    }
}

/// The line (from 0) that going to line `line_num` (counted from 1) lands
/// on: 0 for 0, the last line past the end.
pub open spec fn line_target(e: EditorView, line_num: usize) -> usize {
    (if line_num >= 1 && line_num - 1 < e.lines.len() - 1 {
        line_num - 1
    } else if line_num == 0 {
        0
    } else {
        e.lines.len() - 1
    }) as usize
}

impl Editor {
    /// An empty, unnamed document.
    pub fn new() -> (e: Editor)
        ensures
            e@ == blank(None, seq![Seq::<char>::empty()]),
            wf(e@),
    {
        let e = Editor {
            path: None,
            lines: vec![String::new()],
            cursor_x: 0,
            cursor_y: 0,
            scroll_x: 0,
            scroll_y: 0,
            visible_height: 20,
            visible_width: 80,
            modified: false,
            selection: None,
            clipboard: Vec::new(),
            undo_stack: Vec::new(),
            redo_stack: Vec::new(),
            search_query: String::new(),
            replace_query: String::new(),
            auto_indent: true,
            word_wrap: false,
            tab_size: 4,
            insert_mode: true,
            status_msg: None,
            input_mode: EditorInputMode::Normal,
            input_buffer: String::new(),
            macro_recording: false,
            macro_buffer: Vec::new(),
            macro_saved: Vec::new(),
        };
        assert(e@ =~= blank(None, seq![Seq::<char>::empty()]));
        e
    }

    /// The editor on the file at `path` whose contents are `content`.
    pub fn from_content(path: String, content: &str) -> (e: Editor)
        ensures
            e@ == blank(Some(path@), opened_lines(content@)),
            wf(e@),
    {
        let mut e = Editor::new();
        let chars = chars_of(content);
        if chars.len() > 0 {
            let ls = crate::text::lines_of(chars.as_slice());
            proof {
                lemma_split_lines_ok(content@);
            }
            e.lines = ls;
        }
        e.path = Some(path);
        assert(e@ =~= blank(Some(path@), opened_lines(content@)));
        e
    }

    /// The text to save: the lines joined with newlines.
    pub fn text(&self) -> (t: String)
        ensures
            t@ == document_text(self@.lines),
    {
        crate::config::join_with(&self.lines, '\n')
    }

    /// The number of lines.
    pub fn line_count(&self) -> (n: usize)
        ensures
            n == self@.lines.len(),
    {
        self.lines.len()
    }
}

/// Letters and digits, as `char::is_alphanumeric` tells them.
pub open spec fn alnum(c: char) -> bool {
    crate::text::alphanumeric(c)
}

fn alnum_exec(c: char) -> (r: bool)
    ensures
        r == alnum(c),
{
    crate::text::is_alphanumeric(c)
}

/// From column `x`, moving left over characters that are (`word`) or are
/// not letters or digits.
pub open spec fn skip_back(s: Seq<char>, x: int, word: bool) -> int
    decreases x,
{
    if 0 < x <= s.len() && alnum(s[x - 1]) == word {
        skip_back(s, x - 1, word)
    } else {
        x
    }
}

/// From column `x`, moving right over characters that are (`word`) or are
/// not letters or digits.
pub open spec fn skip_fwd(s: Seq<char>, x: int, word: bool) -> int
    decreases s.len() - x,
{
    if 0 <= x < s.len() && alnum(s[x]) == word {
        skip_fwd(s, x + 1, word)
    } else {
        x
    }
}

pub proof fn lemma_skip_back_bounds(s: Seq<char>, x: int, word: bool)
    requires
        0 <= x <= s.len(),
    ensures
        0 <= skip_back(s, x, word) <= x,
    decreases x,
{
    if 0 < x && alnum(s[x - 1]) == word {
        lemma_skip_back_bounds(s, x - 1, word);
    }
}

pub proof fn lemma_skip_fwd_bounds(s: Seq<char>, x: int, word: bool)
    requires
        0 <= x <= s.len(),
    ensures
        x <= skip_fwd(s, x, word) <= s.len(),
    decreases s.len() - x,
{
    if x < s.len() && alnum(s[x]) == word {
        lemma_skip_fwd_bounds(s, x + 1, word);
    }
}

/// The block with its earlier end first: (start x, start y, end x, end y).
pub open spec fn ordered(s: Selection) -> (usize, usize, usize, usize) {
    if s.start_y < s.end_y || (s.start_y == s.end_y && s.start_x <= s.end_x) {
        (s.start_x, s.start_y, s.end_x, s.end_y)
    } else {
        (s.end_x, s.end_y, s.start_x, s.start_y)
    }
}

/// Whether the character at (`x`, `y`) lies in the block.
pub open spec fn in_block(sel: Option<Selection>, x: usize, y: usize) -> bool {
    match sel {
        Some(s) => {
            let (sx, sy, ex, ey) = ordered(s);
            if y < sy || y > ey {
                false
            } else if y == sy && y == ey {
                sx <= x < ex
            } else if y == sy {
                x >= sx
            } else if y == ey {
                x < ex
            } else {
                true
            }
        },
        None => false,
    }
}

/// The title: the file name or `Untitled`, with `*` when modified.
pub open spec fn title_of(path: Option<Seq<char>>, modified: bool) -> Seq<char> {
    let name = match path {
        Some(p) => match crate::paths::file_name(p) {
            Some(n) => n,
            None => "Untitled"@,
        },
        None => "Untitled"@,
    };
    if modified { name.push('*') } else { name }
}

/// The page step: the window height less one, at least one.
pub open spec fn page_of(h: usize) -> int {
    if h > 1 { h - 1 } else { 1 }
}

/// Cursor one character left, wrapping to the end of the line above.
pub open spec fn after_left(e: EditorView) -> EditorView {
    if e.cursor_x > 0 {
        moved_to(e, (e.cursor_x - 1) as usize, e.cursor_y)
    } else if e.cursor_y > 0 {
        moved_to(e, e.lines[e.cursor_y - 1].len() as usize, (e.cursor_y - 1) as usize)
    } else {
        moved_to(e, e.cursor_x, e.cursor_y)
    }
}

/// Cursor one character right, wrapping to the start of the line below.
pub open spec fn after_right(e: EditorView) -> EditorView {
    if e.cursor_x < cur_len(e) {
        moved_to(e, (e.cursor_x + 1) as usize, e.cursor_y)
    } else if e.cursor_y + 1 < e.lines.len() {
        moved_to(e, 0, (e.cursor_y + 1) as usize)
    } else {
        moved_to(e, e.cursor_x, e.cursor_y)
    }
}

/// Cursor one word left (at the start of a line: to the end of the line
/// above, the selection kept).
pub open spec fn after_word_left(e: EditorView) -> EditorView {
    if e.cursor_x == 0 {
        if e.cursor_y > 0 {
            scrolled(EditorView {
                cursor_y: (e.cursor_y - 1) as usize,
                cursor_x: e.lines[e.cursor_y - 1].len() as usize,
                ..e
            })
        } else {
            scrolled(e)
        }
    } else {
        let s = e.lines[e.cursor_y as int];
        let x0 = if e.cursor_x < s.len() { e.cursor_x as int } else { s.len() as int };
        moved_to(e, skip_back(s, skip_back(s, x0, false), true) as usize, e.cursor_y)
    }
}

/// Cursor one word right (at the end of a line: to the start of the line
/// below, the selection kept).
pub open spec fn after_word_right(e: EditorView) -> EditorView {
    let s = e.lines[e.cursor_y as int];
    if e.cursor_x >= s.len() {
        if e.cursor_y + 1 < e.lines.len() {
            scrolled(EditorView { cursor_y: (e.cursor_y + 1) as usize, cursor_x: 0, ..e })
        } else {
            scrolled(e)
        }
    } else {
        moved_to(e, skip_fwd(s, skip_fwd(s, e.cursor_x as int, true), false) as usize, e.cursor_y)
    }
}

/// The length of a line in characters.
fn line_len(s: &String) -> (n: usize)
    ensures
        n == s@.len(),
{
    s.as_str().unicode_len()
}

impl Editor {
    /// The title shown above the text.
    pub fn title(&self) -> (t: String)
        ensures
            t@ == title_of(self@.path, self.modified),
    {
        proof {
            reveal_strlit("Untitled");
        }
        let mut name = match &self.path {
            Some(p) => match crate::paths::file_name_of(p.as_str()) {
                Some(n) => n,
                None => owned("Untitled"),
            },
            None => owned("Untitled"),
        };
        if self.modified {
            push_char(&mut name, '*');
        }
        name
    }

    /// Keeps the cursor column within its line.
    pub fn clamp_cursor_x(&mut self)
        requires
            wf(old(self)@),
        ensures
            final(self)@ == clamped(old(self)@),
    {
        let n = line_len(&self.lines[self.cursor_y]);
        if self.cursor_x > n {
            self.cursor_x = n;
        }
        assert(self@ =~= clamped(old(self)@));
    }

    /// Scrolls so that the cursor is inside the window.
    pub fn ensure_visible(&mut self)
        ensures
            final(self)@ == scrolled(old(self)@),
    {
        if self.cursor_y < self.scroll_y {
            self.scroll_y = self.cursor_y;
        }
        if self.cursor_y - self.scroll_y >= self.visible_height {
            if self.visible_height == 0 && self.cursor_y == usize::MAX {
                self.scroll_y = self.cursor_y;
            } else {
                self.scroll_y = self.cursor_y - self.visible_height + 1;
            }
        }
        if self.cursor_x < self.scroll_x {
            self.scroll_x = self.cursor_x;
        }
        if self.cursor_x - self.scroll_x >= self.visible_width {
            if self.visible_width == 0 && self.cursor_x == usize::MAX {
                self.scroll_x = self.cursor_x;
            } else {
                self.scroll_x = self.cursor_x - self.visible_width + 1;
            }
        }
        assert(self@ =~= scrolled(old(self)@));
    }

    /// Drops the block.
    pub fn clear_selection(&mut self)
        ensures
            final(self)@ == (EditorView { selection: None, ..old(self)@ }),
    {
        self.selection = None;
        assert(self@ =~= (EditorView { selection: None, ..old(self)@ }));
    }

    fn move_cursor(&mut self, x: usize, y: usize)
        ensures
            final(self)@ == moved_to(old(self)@, x, y),
    {
        self.cursor_x = x;
        self.cursor_y = y;
        self.clear_selection();
        self.ensure_visible();
    }

    fn move_to_line(&mut self, y: usize)
        requires
            wf(old(self)@),
            y < old(self)@.lines.len(),
        ensures
            final(self)@ == moved_to_line(old(self)@, y),
    {
        self.cursor_y = y;
        self.clamp_cursor_x();
        self.clear_selection();
        self.ensure_visible();
    }

    /// One character left.
    pub fn cursor_left(&mut self)
        requires
            wf(old(self)@),
        ensures
            final(self)@ == after_left(old(self)@),
            wf(final(self)@),
    {
        if self.cursor_x > 0 {
            self.move_cursor(self.cursor_x - 1, self.cursor_y);
        } else if self.cursor_y > 0 {
            let y = self.cursor_y - 1;
            let n = line_len(&self.lines[y]);
            self.move_cursor(n, y);
        } else {
            self.move_cursor(self.cursor_x, self.cursor_y);
        }
    }

    /// One character right.
    pub fn cursor_right(&mut self)
        requires
            wf(old(self)@),
        ensures
            final(self)@ == after_right(old(self)@),
            wf(final(self)@),
    {
        let n = line_len(&self.lines[self.cursor_y]);
        if self.cursor_x < n {
            self.move_cursor(self.cursor_x + 1, self.cursor_y);
        } else if self.cursor_y < self.lines.len() - 1 {
            self.move_cursor(0, self.cursor_y + 1);
        } else {
            self.move_cursor(self.cursor_x, self.cursor_y);
        }
    }

    /// One line up, the column kept within the line.
    pub fn cursor_up(&mut self)
        requires
            wf(old(self)@),
        ensures
            final(self)@ == if old(self)@.cursor_y > 0 {
                moved_to_line(old(self)@, (old(self)@.cursor_y - 1) as usize)
            } else {
                moved_to(old(self)@, old(self)@.cursor_x, old(self)@.cursor_y)
            },
            wf(final(self)@),
    {
        if self.cursor_y > 0 {
            self.move_to_line(self.cursor_y - 1);
        } else {
            self.move_cursor(self.cursor_x, self.cursor_y);
        }
    }

    /// One line down, the column kept within the line.
    pub fn cursor_down(&mut self)
        requires
            wf(old(self)@),
        ensures
            final(self)@ == if old(self)@.cursor_y + 1 < old(self)@.lines.len() {
                moved_to_line(old(self)@, (old(self)@.cursor_y + 1) as usize)
            } else {
                moved_to(old(self)@, old(self)@.cursor_x, old(self)@.cursor_y)
            },
            wf(final(self)@),
    {
        if self.cursor_y < self.lines.len() - 1 {
            self.move_to_line(self.cursor_y + 1);
        } else {
            self.move_cursor(self.cursor_x, self.cursor_y);
        }
    }

    /// To the start of the line.
    pub fn cursor_home(&mut self)
        ensures
            final(self)@ == moved_to(old(self)@, 0, old(self)@.cursor_y),
    {
        self.move_cursor(0, self.cursor_y);
    }

    /// To the end of the line.
    pub fn cursor_end(&mut self)
        requires
            wf(old(self)@),
        ensures
            final(self)@ == moved_to(old(self)@, cur_len(old(self)@) as usize, old(self)@.cursor_y),
            wf(final(self)@),
    {
        let n = line_len(&self.lines[self.cursor_y]);
        self.move_cursor(n, self.cursor_y);
    }

    /// A page up.
    pub fn page_up(&mut self)
        requires
            wf(old(self)@),
        ensures
            final(self)@ == moved_to_line(
                old(self)@,
                (if old(self)@.cursor_y >= page_of(old(self)@.visible_height) {
                    old(self)@.cursor_y - page_of(old(self)@.visible_height)
                } else {
                    0
                }) as usize,
            ),
            wf(final(self)@),
    {
        let page = if self.visible_height > 1 { self.visible_height - 1 } else { 1 };
        let y = self.cursor_y.saturating_sub(page);
        self.move_to_line(y);
    }

    /// A page down, at most to the last line.
    pub fn page_down(&mut self)
        requires
            wf(old(self)@),
        ensures
            final(self)@ == moved_to_line(
                old(self)@,
                (if old(self)@.cursor_y + page_of(old(self)@.visible_height) < old(self)@.lines.len() - 1 {
                    old(self)@.cursor_y + page_of(old(self)@.visible_height)
                } else {
                    old(self)@.lines.len() - 1
                }) as usize,
            ),
            wf(final(self)@),
    {
        let page = if self.visible_height > 1 { self.visible_height - 1 } else { 1 };
        let last = self.lines.len() - 1;
        let y = if page < last - self.cursor_y { self.cursor_y + page } else { last };
        self.move_to_line(y);
    }

    /// To the start of the text.
    pub fn goto_top(&mut self)
        ensures
            final(self)@ == moved_to(old(self)@, 0, 0),
    {
        self.move_cursor(0, 0);
    }

    /// To the end of the text.
    pub fn goto_bottom(&mut self)
        requires
            wf(old(self)@),
        ensures
            final(self)@ == moved_to(
                old(self)@,
                old(self)@.lines.last().len() as usize,
                (old(self)@.lines.len() - 1) as usize,
            ),
            wf(final(self)@),
    {
        let y = self.lines.len() - 1;
        let n = line_len(&self.lines[y]);
        self.move_cursor(n, y);
    }

    /// To the start of line `line_num` (counted from 1; 0 is the first line,
    /// and past the end the last).
    pub fn goto_line(&mut self, line_num: usize)
        requires
            wf(old(self)@),
        ensures
            final(self)@ == moved_to(old(self)@, 0, line_target(old(self)@, line_num)),
            wf(final(self)@),
    {
        let t = line_num.saturating_sub(1);
        let last = self.lines.len() - 1;
        let y = if t < last { t } else { last };
        self.move_cursor(0, y);
    }

    /// One word left.
    pub fn word_left(&mut self)
        requires
            wf(old(self)@),
        ensures
            final(self)@ == after_word_left(old(self)@),
            wf(final(self)@),
    {
        if self.cursor_x == 0 {
            if self.cursor_y > 0 {
                self.cursor_y = self.cursor_y - 1;
                self.cursor_x = line_len(&self.lines[self.cursor_y]);
            }
            self.ensure_visible();
            return;
        }
        let chars = chars_of(self.lines[self.cursor_y].as_str());
        let ghost s = chars@;
        let mut x = if self.cursor_x < chars.len() { self.cursor_x } else { chars.len() };
        let ghost x0 = x as int;
        while x > 0 && !alnum_exec(chars[x - 1])
            invariant
                x <= chars@.len(),
                s == chars@,
                skip_back(s, x as int, false) == skip_back(s, x0, false),
            decreases x,
        {
            x -= 1;
        }
        let ghost x1 = x as int;
        while x > 0 && alnum_exec(chars[x - 1])
            invariant
                x <= chars@.len(),
                s == chars@,
                skip_back(s, x as int, true) == skip_back(s, x1, true),
                x1 == skip_back(s, x0, false),
            decreases x,
        {
            x -= 1;
        }
        self.move_cursor(x, self.cursor_y);
    }

    /// One word right.
    pub fn word_right(&mut self)
        requires
            wf(old(self)@),
        ensures
            final(self)@ == after_word_right(old(self)@),
            wf(final(self)@),
    {
        let chars = chars_of(self.lines[self.cursor_y].as_str());
        let ghost s = chars@;
        let len = chars.len();
        if self.cursor_x >= len {
            if self.cursor_y < self.lines.len() - 1 {
                self.cursor_y = self.cursor_y + 1;
                self.cursor_x = 0;
            }
            self.ensure_visible();
            return;
        }
        let mut x = self.cursor_x;
        let ghost x0 = x as int;
        while x < len && alnum_exec(chars[x])
            invariant
                x <= len == chars@.len(),
                s == chars@,
                skip_fwd(s, x as int, true) == skip_fwd(s, x0, true),
            decreases len - x,
        {
            x += 1;
        }
        let ghost x1 = x as int;
        while x < len && !alnum_exec(chars[x])
            invariant
                x <= len == chars@.len(),
                s == chars@,
                skip_fwd(s, x as int, false) == skip_fwd(s, x1, false),
                x1 == skip_fwd(s, x0, true),
            decreases len - x,
        {
            x += 1;
        }
        self.move_cursor(x, self.cursor_y);
    }

    /// Starts a block at the cursor.
    pub fn start_selection(&mut self)
        ensures
            final(self)@ == (EditorView {
                selection: Some(Selection {
                    start_x: old(self).cursor_x,
                    start_y: old(self).cursor_y,
                    end_x: old(self).cursor_x,
                    end_y: old(self).cursor_y,
                }),
                ..old(self)@
            }),
    {
        self.selection = Some(Selection {
            start_x: self.cursor_x,
            start_y: self.cursor_y,
            end_x: self.cursor_x,
            end_y: self.cursor_y,
        });
        assert(self@ =~= (EditorView {
            selection: Some(Selection {
                start_x: old(self).cursor_x,
                start_y: old(self).cursor_y,
                end_x: old(self).cursor_x,
                end_y: old(self).cursor_y,
            }),
            ..old(self)@
        }));
    }

    /// Moves the block's end to the cursor, when there is a block.
    pub fn update_selection(&mut self)
        ensures
            final(self)@ == (match old(self)@.selection {
                Some(s) => EditorView {
                    selection: Some(Selection { end_x: old(self).cursor_x, end_y: old(self).cursor_y, ..s }),
                    ..old(self)@
                },
                None => old(self)@,
            }),
    {
        match self.selection {
            Some(s) => {
                self.selection = Some(Selection { end_x: self.cursor_x, end_y: self.cursor_y, ..s });
            },
            None => {},
        }
        assert(self@ =~= (match old(self)@.selection {
            Some(s) => EditorView {
                selection: Some(Selection { end_x: old(self).cursor_x, end_y: old(self).cursor_y, ..s }),
                ..old(self)@
            },
            None => old(self)@,
        }));
    }

    /// The whole text as the block.
    pub fn select_all(&mut self)
        requires
            wf(old(self)@),
        ensures
            final(self)@ == (EditorView {
                selection: Some(Selection {
                    start_x: 0,
                    start_y: 0,
                    end_x: old(self)@.lines.last().len() as usize,
                    end_y: (old(self)@.lines.len() - 1) as usize,
                }),
                ..old(self)@
            }),
    {
        let y = self.lines.len() - 1;
        let n = line_len(&self.lines[y]);
        self.selection = Some(Selection { start_x: 0, start_y: 0, end_x: n, end_y: y });
        assert(self@ =~= (EditorView {
            selection: Some(Selection {
                start_x: 0,
                start_y: 0,
                end_x: old(self)@.lines.last().len() as usize,
                end_y: (old(self)@.lines.len() - 1) as usize,
            }),
            ..old(self)@
        }));
    }

    /// Whether there is a block.
    pub fn has_selection(&self) -> (r: bool)
        ensures
            r == self.selection.is_some(),
    {
        self.selection.is_some()
    }

    /// The block with its earlier end first.
    pub fn normalized_selection(&self) -> (r: Option<(usize, usize, usize, usize)>)
        ensures
            r == match self.selection {
                Some(s) => Some(ordered(s)),
                None => None,
            },
    {
        match self.selection {
            Some(s) => {
                if s.start_y < s.end_y || (s.start_y == s.end_y && s.start_x <= s.end_x) {
                    Some((s.start_x, s.start_y, s.end_x, s.end_y))
                } else {
                    Some((s.end_x, s.end_y, s.start_x, s.start_y))
                }
            },
            None => None,
        }
    }

    /// Whether the character at (`x`, `y`) is in the block.
    pub fn is_in_selection(&self, x: usize, y: usize) -> (r: bool)
        ensures
            r == in_block(self.selection, x, y),
    {
        match self.normalized_selection() {
            Some((sx, sy, ex, ey)) => {
                if y < sy || y > ey {
                    return false;
                }
                if y == sy && y == ey {
                    return x >= sx && x < ex;
                }
                if y == sy {
                    return x >= sx;
                }
                if y == ey {
                    return x < ex;
                }
                true
            },
            None => false,
        }
    }
}

/// The stack with an edit pushed; beyond 1001 entries the oldest goes.
pub open spec fn pushed(stack: Seq<UndoView>, a: UndoView) -> Seq<UndoView> {
    (if stack.len() > 1000 { stack.drop_first() } else { stack }).push(a)
}

/// `n` spaces.
pub open spec fn spaces(n: nat) -> Seq<char> {
    Seq::new(n, |i: int| ' ')
}

/// The view after an edit: new lines and cursor column, the edit
/// remembered, the text marked modified and nothing left to redo.
pub open spec fn after_edit(e: EditorView, lines: Seq<Seq<char>>, x: int, y: int, a: UndoView) -> EditorView {
    EditorView {
        lines,
        cursor_x: x as usize,
        cursor_y: y as usize,
        undo: pushed(e.undo, a),
        modified: true,
        redo: Seq::empty(),
        ..e
    }
}

/// Typing `c` at the cursor. A tab inserts spaces up to the next tab stop
/// (none when the cursor is past the end of the line); another character
/// is inserted, or in overwrite mode replaces the character under the
/// cursor; past the end of the line it is appended.
pub open spec fn typed(e: EditorView, c: char) -> EditorView {
    let x = e.cursor_x as int;
    let y = e.cursor_y as int;
    let line = e.lines[y];
    if c == '\t' {
        let n = e.tab_size - x % (e.tab_size as int);
        let sp = spaces(n as nat);
        let a = UndoView::Insert { x: e.cursor_x, y: e.cursor_y, text: sp };
        if x <= line.len() {
            scrolled(after_edit(e, e.lines.update(y, line.take(x) + sp + line.skip(x)), x + n, y, a))
        } else {
            scrolled(after_edit(e, e.lines, x, y, a))
        }
    } else {
        let a = UndoView::Insert { x: e.cursor_x, y: e.cursor_y, text: seq![c] };
        if e.insert_mode || x >= line.len() {
            if x <= line.len() {
                scrolled(after_edit(e, e.lines.update(y, line.take(x) + seq![c] + line.skip(x)), x + 1, y, a))
            } else {
                scrolled(after_edit(e, e.lines.update(y, line.push(c)), line.len() as int + 1, y, a))
            }
        } else {
            scrolled(after_edit(e, e.lines.update(y, line.update(x, c)), x + 1, y, a))
        }
    }
}

/// Backspace: the character before the cursor goes; at the start of a
/// line, the line joins the one above.
pub open spec fn backspaced(e: EditorView) -> EditorView {
    let x = e.cursor_x as int;
    let y = e.cursor_y as int;
    let line = e.lines[y];
    if x > 0 {
        let a = UndoView::Delete { x: (x - 1) as usize, y: e.cursor_y, text: seq![line[x - 1]] };
        scrolled(after_edit(e, e.lines.update(y, line.take(x - 1) + line.skip(x)), x - 1, y, a))
    } else if y > 0 {
        let above = e.lines[y - 1];
        let a = UndoView::JoinLines { y: (y - 1) as usize, col: above.len() as usize };
        scrolled(after_edit(e, e.lines.update(y - 1, above + line).remove(y), above.len() as int, y - 1, a))
    } else {
        scrolled(e)
    }
}

/// Delete: the character under the cursor goes; at the end of a line, the
/// next line joins it.
pub open spec fn deleted_char(e: EditorView) -> EditorView {
    let x = e.cursor_x as int;
    let y = e.cursor_y as int;
    let line = e.lines[y];
    if x < line.len() {
        let a = UndoView::Delete { x: e.cursor_x, y: e.cursor_y, text: seq![line[x]] };
        after_edit(e, e.lines.update(y, line.take(x) + line.skip(x + 1)), x, y, a)
    } else if y + 1 < e.lines.len() {
        let a = UndoView::JoinLines { y: e.cursor_y, col: line.len() as usize };
        after_edit(e, e.lines.update(y, line + e.lines[y + 1]).remove(y + 1), x, y, a)
    } else {
        e
    }
}

/// The white space a line starts with.
pub open spec fn leading_white(s: Seq<char>) -> Seq<char>
    decreases s.len(),
{
    if s.len() > 0 && crate::text::is_white(s[0]) {
        seq![s[0]] + leading_white(s.drop_first())
    } else {
        Seq::empty()
    }
}

/// Enter: the line splits at the cursor; the new line starts with the
/// indentation of the old one when auto-indent is on.
pub open spec fn split_at_cursor(e: EditorView) -> EditorView {
    let x = e.cursor_x as int;
    let y = e.cursor_y as int;
    let line = e.lines[y];
    let indent = if e.auto_indent { leading_white(line) } else { Seq::empty() };
    let a = UndoView::SplitLine { y: e.cursor_y, col: e.cursor_x };
    scrolled(after_edit(
        e,
        e.lines.update(y, line.take(x)).insert(y + 1, indent + line.skip(x)),
        indent.len() as int,
        y + 1,
        a,
    ))
}

/// Deleting the cursor's line (not the only one); the cursor stays on the
/// same row, or the last one, within its line.
pub open spec fn line_deleted(e: EditorView) -> EditorView {
    let y = e.cursor_y as int;
    if e.lines.len() > 1 {
        let ls = e.lines.remove(y);
        let ny = if y >= ls.len() { ls.len() - 1 } else { y };
        let a = UndoView::Delete { x: 0, y: e.cursor_y, text: e.lines[y].push('\n') };
        clamped(after_edit(e, ls, e.cursor_x as int, ny, a))
    } else {
        e
    }
}

/// `line[..from] + ins + line[to..]`.
fn splice(line: &String, from: usize, to: usize, ins: &str) -> (r: String)
    requires
        from <= to <= line@.len(),
    ensures
        r@ == line@.take(from as int) + ins@ + line@.skip(to as int),
{
    let v = chars_of(line.as_str());
    let mut r = string_of(v.as_slice(), 0, from);
    append_str(&mut r, ins);
    let tail = string_of(v.as_slice(), to, v.len());
    append_str(&mut r, tail.as_str());
    assert(r@ =~= line@.take(from as int) + ins@ + line@.skip(to as int));
    r
}

/// A string of `n` spaces.
fn spaces_string(n: usize) -> (r: String)
    ensures
        r@ == spaces(n as nat),
{
    let mut r = String::new();
    let mut i: usize = 0;
    while i < n
        invariant
            i <= n,
            r@ == spaces(i as nat),
        decreases n - i,
    {
        push_char(&mut r, ' ');
        i += 1;
        assert(r@ =~= spaces(i as nat));
    }
    r
}

/// A string holding one character.
fn char_string(c: char) -> (r: String)
    ensures
        r@ == seq![c],
{
    let mut r = String::new();
    push_char(&mut r, c);
    assert(r@ =~= seq![c]);
    r
}

/// The white space a line starts with.
fn leading_white_exec(s: &String) -> (r: String)
    ensures
        r@ == leading_white(s@),
{
    let v = chars_of(s.as_str());
    let mut k: usize = 0;
    assert(v@.skip(0) =~= v@);
    while k < v.len() && crate::text::is_white_exec(v[k])
        invariant
            k <= v@.len(),
            v@ == s@,
            leading_white(v@) == v@.take(k as int) + leading_white(v@.skip(k as int)),
        decreases v@.len() - k,
    {
        assert(v@.skip(k as int).drop_first() =~= v@.skip(k + 1));
        assert(v@.take(k + 1) =~= v@.take(k as int) + seq![v@[k as int]]);
        k += 1;
    }
    assert(leading_white(v@.skip(k as int)) =~= Seq::<char>::empty());
    string_of(v.as_slice(), 0, k)
}

proof fn lemma_ok_update(ls: Seq<Seq<char>>, y: int, l: Seq<char>)
    requires
        lines_ok(ls),
        line_ok(l),
        0 <= y < ls.len(),
    ensures
        lines_ok(ls.update(y, l)),
{
    assert forall|i: int| 0 <= i < ls.update(y, l).len() implies line_ok(#[trigger] ls.update(y, l)[i]) by {
        if i != y {
            assert(ls.update(y, l)[i] == ls[i]);
        }
    }
}

proof fn lemma_ok_parts(a: Seq<char>, b: Seq<char>)
    requires
        line_ok(a),
        line_ok(b),
    ensures
        line_ok(a + b),
{
    assert forall|i: int| 0 <= i < (a + b).len() implies #[trigger] (a + b)[i] != '\n' by {
        if i < a.len() {
            assert((a + b)[i] == a[i]);
        } else {
            assert((a + b)[i] == b[i - a.len()]);
        }
    }
}

proof fn lemma_ok_sub(a: Seq<char>, i: int, j: int)
    requires
        line_ok(a),
        0 <= i <= j <= a.len(),
    ensures
        line_ok(a.subrange(i, j)),
        line_ok(a.take(j)),
        line_ok(a.skip(i)),
{
    assert forall|k: int| 0 <= k < a.subrange(i, j).len() implies #[trigger] a.subrange(i, j)[k] != '\n' by {
        assert(a.subrange(i, j)[k] == a[i + k]);
    }
    assert forall|k: int| 0 <= k < a.take(j).len() implies #[trigger] a.take(j)[k] != '\n' by {
        assert(a.take(j)[k] == a[k]);
    }
    assert forall|k: int| 0 <= k < a.skip(i).len() implies #[trigger] a.skip(i)[k] != '\n' by {
        assert(a.skip(i)[k] == a[i + k]);
    }
}

proof fn lemma_leading_white_ok(s: Seq<char>)
    requires
        line_ok(s),
    ensures
        line_ok(leading_white(s)),
        leading_white(s).len() <= s.len(),
    decreases s.len(),
{
    if s.len() > 0 && crate::text::is_white(s[0]) {
        lemma_ok_sub(s, 1, s.len() as int);
        assert(s.drop_first() == s.skip(1));
        lemma_leading_white_ok(s.drop_first());
        lemma_ok_parts(seq![s[0]], leading_white(s.drop_first()));
    }
}

impl Editor {
    fn push_undo(&mut self, action: UndoAction)
        ensures
            final(self)@ == (EditorView { undo: pushed(old(self)@.undo, action@), ..old(self)@ }),
    {
        if self.undo_stack.len() > 1000 {
            self.undo_stack.remove(0);
        }
        let ghost mid = self.undo_stack@;
        self.undo_stack.push(action);
        assert(actions_view(self.undo_stack@) =~= pushed(old(self)@.undo, action@));
        assert(self@ =~= (EditorView { undo: pushed(old(self)@.undo, action@), ..old(self)@ }));
    }

    fn replace_line(&mut self, y: usize, s: String)
        requires
            y < old(self).lines@.len(),
        ensures
            final(self)@ == (EditorView { lines: old(self)@.lines.update(y as int, s@), ..old(self)@ }),
    {
        self.lines.set(y, s);
        assert(self@.lines =~= old(self)@.lines.update(y as int, s@));
        assert(self@ =~= (EditorView { lines: old(self)@.lines.update(y as int, s@), ..old(self)@ }));
    }

    fn mark_edited(&mut self)
        ensures
            final(self)@ == (EditorView { modified: true, redo: Seq::empty(), ..old(self)@ }),
    {
        self.modified = true;
        self.redo_stack.clear();
        assert(self@ =~= (EditorView { modified: true, redo: Seq::empty(), ..old(self)@ }));
    }

    /// Types a character (see `typed`).
    pub fn insert_char(&mut self, c: char)
        requires
            wf(old(self)@),
            c != '\n',
            c == '\t' ==> old(self).tab_size > 0,
            cur_len(old(self)@) + old(self).tab_size + 1 <= usize::MAX,
        ensures
            final(self)@ == typed(old(self)@, c),
            wf(final(self)@),
    {
        let y = self.cursor_y;
        let x = self.cursor_x;
        let len = line_len(&self.lines[y]);
        let ghost line = self@.lines[y as int];
        proof {
            assert(line_ok(line));
        }
        if c == '\t' {
            let n = self.tab_size - (x % self.tab_size);
            let sp = spaces_string(n);
            self.push_undo(UndoAction::Insert { x, y, text: sp.clone() });
            if x <= len {
                let nl = splice(&self.lines[y], x, x, sp.as_str());
                proof {
                    lemma_ok_sub(line, x as int, x as int);
                    assert(line_ok(sp@));
                    lemma_ok_parts(line.take(x as int), sp@);
                    lemma_ok_parts(line.take(x as int) + sp@, line.skip(x as int));
                    lemma_ok_update(self@.lines, y as int, nl@);
                }
                self.replace_line(y, nl);
                self.cursor_x = x + n;
            }
        } else {
            self.push_undo(UndoAction::Insert { x, y, text: char_string(c) });
            let cs = char_string(c);
            if self.insert_mode || x >= len {
                if x <= len {
                    let nl = splice(&self.lines[y], x, x, cs.as_str());
                    proof {
                        lemma_ok_sub(line, x as int, x as int);
                        lemma_ok_parts(line.take(x as int), cs@);
                        lemma_ok_parts(line.take(x as int) + cs@, line.skip(x as int));
                        lemma_ok_update(self@.lines, y as int, nl@);
                    }
                    self.replace_line(y, nl);
                    self.cursor_x = x + 1;
                } else {
                    let nl = splice(&self.lines[y], len, len, cs.as_str());
                    proof {
                        assert(line.skip(len as int) =~= Seq::<char>::empty());
                        assert(line.take(len as int) =~= line);
                        assert(nl@ =~= line.push(c));
                        lemma_ok_parts(line, cs@);
                        lemma_ok_update(self@.lines, y as int, nl@);
                    }
                    self.replace_line(y, nl);
                    self.cursor_x = len + 1;
                }
            } else {
                let nl = splice(&self.lines[y], x, x + 1, cs.as_str());
                proof {
                    assert(nl@ =~= line.update(x as int, c));
                    lemma_ok_sub(line, x as int, x + 1);
                    lemma_ok_parts(line.take(x as int), cs@);
                    lemma_ok_parts(line.take(x as int) + cs@, line.skip(x + 1));
                    lemma_ok_update(self@.lines, y as int, nl@);
                }
                self.replace_line(y, nl);
                self.cursor_x = x + 1;
            }
        }
        self.mark_edited();
        self.ensure_visible();
        assert(self@ =~= typed(old(self)@, c));
    }
}

impl Editor {
    /// Backspace (see `backspaced`).
    pub fn backspace(&mut self)
        requires
            wf(old(self)@),
            old(self).cursor_x <= cur_len(old(self)@),
        ensures
            final(self)@ == backspaced(old(self)@),
            wf(final(self)@),
    {
        let y = self.cursor_y;
        let x = self.cursor_x;
        let ghost e = self@;
        let ghost line = e.lines[y as int];
        proof {
            assert(line_ok(line));
        }
        if x > 0 {
            let v = chars_of(self.lines[y].as_str());
            let ch = v[x - 1];
            self.push_undo(UndoAction::Delete { x: x - 1, y, text: char_string(ch) });
            let nl = splice(&self.lines[y], x - 1, x, "");
            proof {
                reveal_strlit("");
                assert(""@ =~= Seq::<char>::empty());
                assert(nl@ =~= line.take(x - 1) + line.skip(x as int));
                lemma_ok_sub(line, x - 1, x as int);
                lemma_ok_parts(line.take(x - 1), line.skip(x as int));
                lemma_ok_update(self@.lines, y as int, nl@);
            }
            self.replace_line(y, nl);
            self.cursor_x = x - 1;
            self.mark_edited();
        } else if y > 0 {
            let current = self.lines.remove(y);
            let ny = y - 1;
            let col = line_len(&self.lines[ny]);
            self.cursor_y = ny;
            self.push_undo(UndoAction::JoinLines { y: ny, col });
            assert(self.lines@.len() == self@.lines.len());
            assert(self@.lines[ny as int] == self.lines@[ny as int]@);
            let mut joined = self.lines[ny].clone();
            append_str(&mut joined, current.as_str());
            proof {
                assert(self.lines@[ny as int]@ == e.lines[ny as int]);
                assert(line_ok(e.lines[ny as int]));
                lemma_ok_parts(e.lines[ny as int], line);
            }
            self.replace_line(ny, joined);
            self.cursor_x = col;
            self.mark_edited();
            proof {
                assert(self@.lines =~= e.lines.update(y - 1, e.lines[y - 1] + line).remove(y as int));
                assert forall|i: int| 0 <= i < self@.lines.len() implies line_ok(#[trigger] self@.lines[i]) by {
                    if i < y - 1 {
                        assert(self@.lines[i] == e.lines[i]);
                    } else if i >= y {
                        assert(self@.lines[i] == e.lines[i + 1]);
                    }
                }
            }
        }
        self.ensure_visible();
        assert(self@ =~= backspaced(old(self)@));
    }

    /// Delete (see `deleted_char`).
    pub fn delete_char(&mut self)
        requires
            wf(old(self)@),
        ensures
            final(self)@ == deleted_char(old(self)@),
            wf(final(self)@),
    {
        let y = self.cursor_y;
        let x = self.cursor_x;
        let ghost e = self@;
        let ghost line = e.lines[y as int];
        proof {
            assert(line_ok(line));
        }
        let len = line_len(&self.lines[y]);
        if x < len {
            let v = chars_of(self.lines[y].as_str());
            let ch = v[x];
            self.push_undo(UndoAction::Delete { x, y, text: char_string(ch) });
            let nl = splice(&self.lines[y], x, x + 1, "");
            proof {
                reveal_strlit("");
                assert(""@ =~= Seq::<char>::empty());
                assert(nl@ =~= line.take(x as int) + line.skip(x + 1));
                lemma_ok_sub(line, x as int, x + 1);
                lemma_ok_parts(line.take(x as int), line.skip(x + 1));
                lemma_ok_update(self@.lines, y as int, nl@);
            }
            self.replace_line(y, nl);
            self.mark_edited();
        } else if y < self.lines.len() - 1 {
            let next = self.lines.remove(y + 1);
            self.push_undo(UndoAction::JoinLines { y, col: len });
            assert(self.lines@.len() == self@.lines.len());
            assert(self@.lines[y as int] == self.lines@[y as int]@);
            let mut joined = self.lines[y].clone();
            append_str(&mut joined, next.as_str());
            proof {
                assert(self.lines@[y as int]@ == line);
                assert(line_ok(e.lines[y + 1]));
                lemma_ok_parts(line, e.lines[y + 1]);
            }
            self.replace_line(y, joined);
            self.mark_edited();
            proof {
                assert(self@.lines =~= e.lines.update(y as int, line + e.lines[y + 1]).remove(y + 1));
                assert forall|i: int| 0 <= i < self@.lines.len() implies line_ok(#[trigger] self@.lines[i]) by {
                    if i < y {
                        assert(self@.lines[i] == e.lines[i]);
                    } else if i > y {
                        assert(self@.lines[i] == e.lines[i + 1]);
                    }
                }
            }
        }
        assert(self@ =~= deleted_char(old(self)@));
    }

    /// Enter (see `split_at_cursor`).
    pub fn enter_key(&mut self)
        requires
            wf(old(self)@),
            old(self).cursor_x <= cur_len(old(self)@),
        ensures
            final(self)@ == split_at_cursor(old(self)@),
            wf(final(self)@),
    {
        let y = self.cursor_y;
        let x = self.cursor_x;
        let ghost e = self@;
        let ghost line = e.lines[y as int];
        proof {
            assert(line_ok(line));
            lemma_leading_white_ok(line);
        }
        let indent = if self.auto_indent { leading_white_exec(&self.lines[y]) } else { String::new() };
        self.push_undo(UndoAction::SplitLine { y, col: x });
        let len = line_len(&self.lines[y]);
        let v = chars_of(self.lines[y].as_str());
        let rest = string_of(v.as_slice(), x, len);
        let head = string_of(v.as_slice(), 0, x);
        self.replace_line(y, head);
        let mut new_line = indent.clone();
        append_str(&mut new_line, rest.as_str());
        let ilen = line_len(&indent);
        proof {
            lemma_ok_sub(line, x as int, x as int);
            assert(rest@ =~= line.skip(x as int));
            assert(head@ =~= line.take(x as int));
            lemma_ok_parts(indent@, line.skip(x as int));
        }
        assert(self.lines@.len() == self@.lines.len());
        let n = self.lines.len();
        assert(y < n);
        self.lines.insert(y + 1, new_line);
        self.cursor_y = y + 1;
        self.cursor_x = ilen;
        self.mark_edited();
        proof {
            let want = e.lines.update(y as int, line.take(x as int)).insert(y + 1, indent@ + line.skip(x as int));
            assert(self@.lines =~= want);
            assert forall|i: int| 0 <= i < self@.lines.len() implies line_ok(#[trigger] self@.lines[i]) by {
                if i < y {
                    assert(self@.lines[i] == e.lines[i]);
                } else if i > y + 1 {
                    assert(self@.lines[i] == e.lines[i - 1]);
                }
            }
        }
        self.ensure_visible();
        assert(self@ =~= split_at_cursor(old(self)@));
    }

    /// Deletes the cursor's line, unless it is the only one.
    pub fn delete_line(&mut self)
        requires
            wf(old(self)@),
        ensures
            final(self)@ == line_deleted(old(self)@),
            wf(final(self)@),
    {
        let ghost e = self@;
        if self.lines.len() > 1 {
            let y = self.cursor_y;
            let removed = self.lines.remove(y);
            let mut text = removed;
            push_char(&mut text, '\n');
            self.push_undo(UndoAction::Delete { x: 0, y, text });
            assert(self.lines@.len() == self@.lines.len());
            if self.cursor_y >= self.lines.len() {
                self.cursor_y = self.lines.len() - 1;
            }
            proof {
                assert(self@.lines =~= e.lines.remove(y as int));
                assert forall|i: int| 0 <= i < self@.lines.len() implies line_ok(#[trigger] self@.lines[i]) by {
                    if i < y {
                        assert(self@.lines[i] == e.lines[i]);
                    } else {
                        assert(self@.lines[i] == e.lines[i + 1]);
                    }
                }
            }
            self.mark_edited();
            self.clamp_cursor_x();
        }
        assert(self@ =~= line_deleted(old(self)@));
    }
}

/// The smaller of two integers.
pub open spec fn min_of(a: int, b: int) -> int {
    if a < b { a } else { b }
}

/// What line `y` contributes to the text of the block from (`sx`, `sy`) to
/// (`ex`, `ey`): its part inside the block, with a newline when the block
/// goes on past it.
pub open spec fn block_piece(line: Seq<char>, y: int, sx: int, sy: int, ex: int, ey: int) -> Seq<char> {
    let a = min_of(sx, line.len() as int);
    let b = min_of(ex, line.len() as int);
    if y == sy && y == ey {
        line.subrange(a, b)
    } else if y == sy {
        line.skip(a).push('\n')
    } else if y == ey {
        line.take(b)
    } else {
        line.push('\n')
    }
}

/// The text of the block from line `y` on (lines past the end of the text
/// contribute nothing).
pub open spec fn block_text_from(ls: Seq<Seq<char>>, y: int, sx: int, sy: int, ex: int, ey: int) -> Seq<char>
    decreases ls.len() - y,
{
    if y < 0 || y > ey || y >= ls.len() {
        Seq::empty()
    } else {
        block_piece(ls[y], y, sx, sy, ex, ey) + block_text_from(ls, y + 1, sx, sy, ex, ey)
    }
}

/// The text of the block; empty without one.
pub open spec fn selected_text(e: EditorView) -> Seq<char> {
    match e.selection {
        Some(s) => {
            let (sx, sy, ex, ey) = ordered(s);
            block_text_from(e.lines, sy as int, sx as int, sy as int, ex as int, ey as int)
        },
        None => Seq::empty(),
    }
}

/// The lines once the block from (`sx`, `sy`) to (`ex`, `ey`) is cut out.
pub open spec fn lines_without_block(ls: Seq<Seq<char>>, sx: int, sy: int, ex: int, ey: int) -> Seq<Seq<char>> {
    let line = ls[sy];
    if sy == ey {
        ls.update(sy, line.take(min_of(sx, line.len() as int)) + line.skip(min_of(ex, line.len() as int)))
    } else {
        let first = line.take(min_of(sx, line.len() as int));
        let last = if ey < ls.len() { ls[ey].skip(min_of(ex, ls[ey].len() as int)) } else { Seq::empty() };
        ls.take(sy) + seq![first + last] + ls.skip(min_of(ey + 1, ls.len() as int))
    }
}

/// Deleting the block: the text is cut out, the cursor goes to where the
/// block started.
pub open spec fn block_deleted(e: EditorView) -> EditorView {
    match e.selection {
        Some(s) => {
            let (sx, sy, ex, ey) = ordered(s);
            scrolled(EditorView {
                lines: lines_without_block(e.lines, sx as int, sy as int, ex as int, ey as int),
                cursor_x: sx,
                cursor_y: sy,
                selection: None,
                undo: pushed(e.undo, UndoView::ReplaceAll { old_lines: e.lines }),
                modified: true,
                redo: Seq::empty(),
                ..e
            })
        },
        None => e,
    }
}

/// When the block can be deleted: it starts on a line of the text and its
/// end line is not the largest index.
pub open spec fn block_deletable(e: EditorView) -> bool {
    match e.selection {
        Some(s) => ordered(s).1 < e.lines.len() && ordered(s).3 < usize::MAX,
        None => true,
    }
}

/// Copying the block: when its text is not empty, its lines become the
/// clipboard and the status says so.
pub open spec fn copied(e: EditorView) -> EditorView {
    let t = selected_text(e);
    if t.len() > 0 {
        EditorView { clipboard: crate::text::split_lines(t), status_msg: Some("Block copied"@), ..e }
    } else {
        e
    }
}

/// The view with the block deleted first, when there is one.
pub open spec fn without_block(e: EditorView) -> EditorView {
    if e.selection is Some { block_deleted(e) } else { e }
}

/// The text that pasting puts in place of the cursor's line.
pub open spec fn paste_combined(e: EditorView) -> Seq<char> {
    let line = e.lines[e.cursor_y as int];
    let cx = min_of(e.cursor_x as int, line.len() as int);
    line.take(cx) + document_text(e.clipboard) + line.skip(cx)
}

/// Pasting the clipboard at the cursor (replacing the block); the cursor
/// ends after the pasted text.
pub open spec fn pasted(e: EditorView) -> EditorView {
    if e.clipboard.len() == 0 {
        e
    } else {
        let e1 = without_block(e);
        let y = e1.cursor_y as int;
        let line = e1.lines[y];
        let cx = min_of(e1.cursor_x as int, line.len() as int);
        let text = document_text(e1.clipboard);
        let after = line.skip(cx);
        let nl = crate::text::split_lines(paste_combined(e1));
        let (nx, ny) = if nl.len() == 1 {
            (e1.cursor_x + text.len(), y)
        } else {
            (nl[nl.len() - 1].len() - after.len(), y + nl.len() - 1)
        };
        scrolled(EditorView {
            lines: e1.lines.take(y) + nl + e1.lines.skip(y + 1),
            cursor_x: nx as usize,
            cursor_y: ny as usize,
            undo: pushed(e1.undo, UndoView::ReplaceAll { old_lines: e1.lines }),
            modified: true,
            redo: Seq::empty(),
            ..e1
        })
    }
}

/// When pasting works: the clipboard is ASCII, the block (if any) can be
/// deleted, the pasted line is not empty and the cursor column stays in
/// range.
pub open spec fn paste_ok(e: EditorView) -> bool {
    &&& lines_ok(e.clipboard)
    &&& block_deletable(e)
    &&& e.clipboard.len() > 0 ==> {
        let e1 = without_block(e);
        &&& paste_combined(e1).len() > 0
        &&& e1.cursor_x + document_text(e1.clipboard).len() <= usize::MAX
    }
}

/// The last line of the lines of `p + a`, when `a` has no newline, ends
/// with `a`.
pub proof fn lemma_last_line_ends_with(p: Seq<char>, a: Seq<char>)
    requires
        !a.contains('\n'),
        (p + a).len() > 0,
    ensures
        crate::text::split_lines(p + a).len() >= 1,
        crate::text::split_lines(p + a).last().len() >= a.len(),
    decreases p.len(),
{
    let s = p + a;
    let k = crate::text::index_of_or_len(s, '\n');
    crate::text::lemma_index_of_or_len_bounds(s);
    crate::text::lemma_index_of_or_len(s, '\n');
    if k < s.len() {
        assert(k < p.len()) by {
            if k >= p.len() {
                assert(s[k] == a[k - p.len()]);
            }
        }
        let rest = s.skip(k + 1);
        assert(rest =~= p.skip(k + 1) + a);
        if rest.len() > 0 {
            lemma_last_line_ends_with(p.skip(k + 1), a);
            assert(crate::text::split_lines(s) == seq![crate::text::line_body(s.take(k), true)] + crate::text::split_lines(rest));
        } else {
            assert(a.len() == 0);
        }
    }
}

impl Editor {
    /// The text of the block (see `selected_text`).
    pub fn get_selected_text(&self) -> (t: String)
        ensures
            t@ == selected_text(self@),
    {
        match self.normalized_selection() {
            Some((sx, sy, ex, ey)) => {
                let ghost ls = self@.lines;
                let mut out = String::new();
                let mut y = sy;
                assert(self.lines@.len() == ls.len());
                assert(sy == ey ==> sx <= ex);
                while y < self.lines.len() && y <= ey
                    invariant_except_break
                        sy <= y,
                        sy == ey ==> sx <= ex,
                        ls == self@.lines,
                        ls.len() == self.lines@.len(),
                        out@ + block_text_from(ls, y as int, sx as int, sy as int, ex as int, ey as int)
                            == block_text_from(ls, sy as int, sx as int, sy as int, ex as int, ey as int),
                    ensures
                        out@ == block_text_from(ls, sy as int, sx as int, sy as int, ex as int, ey as int),
                    decreases self.lines@.len() - y,
                {
                    let v = chars_of(self.lines[y].as_str());
                    assert(v@ == ls[y as int]);
                    let n = v.len();
                    let a = if sx < n { sx } else { n };
                    let b = if ex < n { ex } else { n };
                    let ghost before = out@;
                    if y == sy && y == ey {
                        let piece = string_of(v.as_slice(), a, b);
                        append_str(&mut out, piece.as_str());
                    } else if y == sy {
                        let piece = string_of(v.as_slice(), a, n);
                        append_str(&mut out, piece.as_str());
                        push_char(&mut out, '\n');
                    } else if y == ey {
                        let piece = string_of(v.as_slice(), 0, b);
                        append_str(&mut out, piece.as_str());
                    } else {
                        append_str(&mut out, self.lines[y].as_str());
                        push_char(&mut out, '\n');
                    }
                    assert(out@ =~= before + block_piece(ls[y as int], y as int, sx as int, sy as int, ex as int, ey as int));
                    if y == ey {
                        assert(block_text_from(ls, y + 1, sx as int, sy as int, ex as int, ey as int) =~= Seq::<char>::empty());
                        assert(out@ =~= block_text_from(ls, sy as int, sx as int, sy as int, ex as int, ey as int));
                        break;
                    }
                    y = y + 1;
                }
                out
            },
            None => String::new(),
        }
    }

    /// Deletes the block (see `block_deleted`).
    pub fn delete_selected(&mut self)
        requires
            wf(old(self)@),
            block_deletable(old(self)@),
        ensures
            final(self)@ == block_deleted(old(self)@),
            wf(final(self)@),
    {
        let ghost e = self@;
        match self.normalized_selection() {
            Some((sx, sy, ex, ey)) => {
                let old_lines = self.lines.clone();
                assert(old_lines.deep_view() =~= e.lines) by {
                    assert forall|i: int| 0 <= i < old_lines@.len() implies old_lines@[i]@ == self.lines@[i]@ by {}
                }
                self.push_undo(UndoAction::ReplaceAll { old_lines });
                assert(self.lines@.len() == e.lines.len());
                let n = self.lines.len();
                let lv = chars_of(self.lines[sy].as_str());
                assert(lv@ == e.lines[sy as int]);
                proof {
                    assert(line_ok(lv@));
                }
                let ln = lv.len();
                let a = if sx < ln { sx } else { ln };
                if sy == ey {
                    let b = if ex < ln { ex } else { ln };
                    let mut nl = string_of(lv.as_slice(), 0, a);
                    let tail = string_of(lv.as_slice(), b, ln);
                    append_str(&mut nl, tail.as_str());
                    proof {
                        lemma_ok_sub(lv@, a as int, a as int);
                        lemma_ok_sub(lv@, b as int, b as int);
                        assert(nl@ =~= lv@.take(a as int) + lv@.skip(b as int));
                        lemma_ok_parts(lv@.take(a as int), lv@.skip(b as int));
                        lemma_ok_update(e.lines, sy as int, nl@);
                    }
                    self.replace_line(sy, nl);
                } else {
                    let mut nl = string_of(lv.as_slice(), 0, a);
                    proof {
                        lemma_ok_sub(lv@, a as int, a as int);
                        assert(nl@ =~= lv@.take(a as int));
                    }
                    let ghost last: Seq<char> = Seq::empty();
                    if ey < n {
                        let ev = chars_of(self.lines[ey].as_str());
                        assert(ev@ == e.lines[ey as int]);
                        let en = ev.len();
                        let b = if ex < en { ex } else { en };
                        let tail = string_of(ev.as_slice(), b, en);
                        proof {
                            assert(line_ok(ev@));
                            lemma_ok_sub(ev@, b as int, b as int);
                            assert(tail@ =~= ev@.skip(b as int));
                            last = tail@;
                        }
                        append_str(&mut nl, tail.as_str());
                    }
                    proof {
                        lemma_ok_parts(lv@.take(a as int), last);
                        assert(nl@ =~= lv@.take(a as int) + last);
                    }
                    let end = if ey + 1 < n { ey + 1 } else { n };
                    let mut k = sy + 1;
                    let ghost mid = self@;
                    assert(e.lines.take(sy + 1) + e.lines.skip(k as int) =~= e.lines);
                    while k < end
                        invariant
                            sy < n,
                            sy + 1 <= k <= end <= n,
                            self.lines@.len() == n - (k - sy - 1),
                            self@.lines == e.lines.take(sy + 1) + e.lines.skip(k as int),
                            self@ == (EditorView { lines: self@.lines, ..mid }),
                            e.lines.len() == n,
                        decreases end - k,
                    {
                        let ghost prev = self.lines@;
                        let ghost prevd = self@.lines;
                        self.lines.remove(sy + 1);
                        assert(self.lines@ == prev.remove(sy + 1));
                        assert(self@.lines =~= prevd.remove(sy + 1)) by {
                            assert forall|i: int| 0 <= i < self.lines@.len() implies #[trigger] self@.lines[i] == prevd.remove(sy + 1)[i] by {
                                if i < sy + 1 {
                                    assert(self.lines@[i] == prev[i]);
                                } else {
                                    assert(self.lines@[i] == prev[i + 1]);
                                }
                            }
                        }
                        assert forall|i: int| 0 <= i < self@.lines.len() implies #[trigger] self@.lines[i] == (e.lines.take(sy + 1) + e.lines.skip(k + 1))[i] by {
                            if i < sy + 1 {
                                assert(prevd[i] == e.lines[i]);
                            } else {
                                assert(prevd[i + 1] == e.lines.skip(k as int)[i + 1 - (sy + 1)]);
                            }
                        }
                        k += 1;
                        assert(self@.lines =~= e.lines.take(sy + 1) + e.lines.skip(k as int));
                    }
                    assert(self.lines@.len() > sy);
                    self.replace_line(sy, nl);
                    proof {
                        let want = lines_without_block(e.lines, sx as int, sy as int, ex as int, ey as int);
                        assert(self@.lines =~= want);
                        assert forall|i: int| 0 <= i < self@.lines.len() implies line_ok(#[trigger] self@.lines[i]) by {
                            if i < sy {
                                assert(self@.lines[i] == e.lines[i]);
                            } else if i > sy {
                                assert(self@.lines[i] == e.lines[i - sy - 1 + end]);
                            }
                        }
                    }
                }
                self.cursor_x = sx;
                self.cursor_y = sy;
                self.selection = None;
                self.mark_edited();
                self.ensure_visible();
                assert(self@ =~= block_deleted(old(self)@));
            },
            None => {},
        }
    }
}

/// Whether a text is a valid editor line.
fn line_ok_exec(s: &String) -> (r: bool)
    ensures
        r == line_ok(s@),
{
    let t = s.as_str();
    let v = chars_of(t);
    let mut i: usize = 0;
    while i < v.len()
        invariant
            i <= v@.len(),
            v@ == s@,
            forall|j: int| 0 <= j < i ==> v@[j] != '\n',
        decreases v@.len() - i,
    {
        if v[i] == '\n' {
            return false;
        }
        i += 1;
    }
    true
}

/// Whether all texts are valid editor lines.
fn lines_ok_exec(ls: &Vec<String>) -> (r: bool)
    ensures
        r == lines_ok(ls.deep_view()),
{
    let mut i: usize = 0;
    while i < ls.len()
        invariant
            i <= ls@.len(),
            forall|j: int| 0 <= j < i ==> line_ok(#[trigger] ls.deep_view()[j]),
        decreases ls@.len() - i,
    {
        if !line_ok_exec(&ls[i]) {
            assert(!line_ok(ls.deep_view()[i as int]));
            return false;
        }
        i += 1;
    }
    true
}

proof fn lemma_paste_combined_len(e: EditorView)
    requires
        e.cursor_y < e.lines.len(),
    ensures
        paste_combined(e).len() == e.lines[e.cursor_y as int].len() + document_text(e.clipboard).len(),
{
}

impl Editor {
    /// Copies the block to the clipboard (see `copied`) and returns its
    /// text, which the caller also hands to the system clipboard when it is
    /// not empty.
    pub fn copy_selection(&mut self) -> (t: String)
        ensures
            t@ == selected_text(old(self)@),
            final(self)@ == copied(old(self)@),
    {
        proof {
            reveal_strlit("Block copied");
        }
        let text = self.get_selected_text();
        if text.as_str().unicode_len() > 0 {
            let v = chars_of(text.as_str());
            self.clipboard = crate::text::lines_of(v.as_slice());
            self.status_msg = Some(owned("Block copied"));
        }
        assert(self@ =~= copied(old(self)@));
        text
    }

    /// Copies the block, then deletes it; returns the copied text.
    pub fn cut_selection(&mut self) -> (t: String)
        requires
            wf(old(self)@),
            block_deletable(old(self)@),
        ensures
            t@ == selected_text(old(self)@),
            final(self)@ == block_deleted(copied(old(self)@)),
            wf(final(self)@),
    {
        let t = self.copy_selection();
        self.delete_selected();
        t
    }

    /// Takes text from the system clipboard: when it is not empty, its lines
    /// become the clipboard.
    pub fn set_clipboard_text(&mut self, text: &str)
        ensures
            final(self)@ == if text@.len() > 0 {
                EditorView { clipboard: crate::text::split_lines(text@), ..old(self)@ }
            } else {
                old(self)@
            },
    {
        if text.unicode_len() > 0 {
            let v = chars_of(text);
            self.clipboard = crate::text::lines_of(v.as_slice());
        }
        assert(self@ =~= if text@.len() > 0 {
            EditorView { clipboard: crate::text::split_lines(text@), ..old(self)@ }
        } else {
            old(self)@
        });
    }

    /// Whether the block can be deleted (see `block_deletable`).
    pub fn selection_deletable(&self) -> (r: bool)
        ensures
            r == block_deletable(self@),
    {
        match self.normalized_selection() {
            Some((_sx, sy, _ex, ey)) => sy < self.lines.len() && ey < usize::MAX,
            None => true,
        }
    }

    /// Whether pasting works now (see `paste_ok`).
    pub fn paste_allowed(&self) -> (r: bool)
        requires
            wf(self@),
        ensures
            r == paste_ok(self@),
    {
        if !lines_ok_exec(&self.clipboard) || !self.selection_deletable() {
            return false;
        }
        if self.clipboard.len() == 0 {
            return true;
        }
        let text = crate::config::join_with(&self.clipboard, '\n');
        let tl = line_len(&text);
        let ghost e1 = without_block(self@);
        let (filled, cx1) = match self.normalized_selection() {
            Some((sx, sy, ex, ey)) => {
                let ln = line_len(&self.lines[sy]);
                let a = if sx < ln { sx } else { ln };
                if sy == ey {
                    let b = if ex < ln { ex } else { ln };
                    (a > 0 || ln - b > 0, sx)
                } else if ey < self.lines.len() {
                    let en = line_len(&self.lines[ey]);
                    let b = if ex < en { ex } else { en };
                    (a > 0 || en - b > 0, sx)
                } else {
                    (a > 0, sx)
                }
            },
            None => (line_len(&self.lines[self.cursor_y]) > 0, self.cursor_x),
        };
        proof {
            assert(e1.cursor_y < e1.lines.len());
            lemma_paste_combined_len(e1);
            assert(e1.clipboard == self@.clipboard);
            assert(filled == (e1.lines[e1.cursor_y as int].len() > 0));
            assert(e1.cursor_x == cx1);
        }
        (filled || tl > 0) && tl <= usize::MAX - cx1
    }
}

/// The lines with line `y` replaced by the lines `nl`.
pub open spec fn spliced(ls: Seq<Seq<char>>, y: int, nl: Seq<Seq<char>>) -> Seq<Seq<char>> {
    ls.take(y) + nl + ls.skip(y + 1)
}

proof fn lemma_spliced_ok(ls: Seq<Seq<char>>, y: int, nl: Seq<Seq<char>>)
    requires
        lines_ok(ls),
        lines_ok(nl),
        0 <= y < ls.len(),
    ensures
        lines_ok(spliced(ls, y, nl)),
        spliced(ls, y, nl).len() == ls.len() - 1 + nl.len(),
{
    let fl = spliced(ls, y, nl);
    assert forall|k: int| 0 <= k < fl.len() implies line_ok(#[trigger] fl[k]) by {
        if k < y {
            assert(fl[k] == ls[k]);
        } else if k < y + nl.len() {
            assert(fl[k] == nl[k - y]);
        } else {
            assert(fl[k] == ls[k - nl.len() + 1]);
        }
    }
}

impl Editor {
    /// Replaces line `y` by the lines `new_lines`.
    fn splice_lines(&mut self, y: usize, new_lines: Vec<String>)
        requires
            y < old(self).lines@.len(),
        ensures
            final(self)@ == (EditorView { lines: spliced(old(self)@.lines, y as int, new_lines.deep_view()), ..old(self)@ }),
    {
        let ghost e1 = self@;
        let ghost nl = new_lines.deep_view();
        let num_new = new_lines.len();
        self.lines.remove(y);
        let ghost base = self@.lines;
        assert(base =~= e1.lines.take(y as int) + e1.lines.skip(y + 1)) by {
            assert forall|i: int| 0 <= i < base.len() implies #[trigger] base[i] == (e1.lines.take(y as int) + e1.lines.skip(y + 1))[i] by {
                if i < y {
                    assert(self.lines@[i]@ == e1.lines[i]);
                } else {
                    assert(self.lines@[i]@ == e1.lines[i + 1]);
                }
            }
        }
        let mut rest = new_lines;
        let mut i: usize = 0;
        let ghost mid = self@;
        assert(e1.lines.len() == old(self).lines@.len());
        assert(nl.take(0) =~= Seq::<Seq<char>>::empty());
        assert(nl.skip(0) =~= nl);
        while rest.len() > 0
            invariant
                i <= num_new,
                nl.len() == num_new,
                rest.deep_view() == nl.skip(i as int),
                y <= base.len(),
                y < e1.lines.len(),
                base.len() + 1 == e1.lines.len(),
                self@.lines == e1.lines.take(y as int) + nl.take(i as int) + e1.lines.skip(y + 1),
                self.lines@.len() == base.len() + i,
                self@ == (EditorView { lines: self@.lines, ..mid }),
            decreases rest.len(),
        {
            let ghost rv = rest.deep_view();
            let ghost before = self@.lines;
            let ghost beforev = self.lines@;
            let cur = self.lines.len();
            let x = rest.remove(0);
            assert(x@ == rv[0]);
            assert(rest.deep_view() =~= rv.drop_first()) by {
                assert forall|k: int| 0 <= k < rest@.len() implies #[trigger] rest.deep_view()[k] == rv.drop_first()[k] by {}
            }
            assert(y + i <= cur);
            self.lines.insert(y + i, x);
            assert(self@.lines =~= before.insert(y + i, x@)) by {
                assert forall|k: int| 0 <= k < self.lines@.len() implies #[trigger] self@.lines[k] == before.insert(y + i, x@)[k] by {
                    if k < y + i {
                        assert(self.lines@[k] == beforev[k]);
                    } else if k > y + i {
                        assert(self.lines@[k] == beforev[k - 1]);
                    }
                }
            }
            assert(nl.skip(i as int)[0] == nl[i as int]);
            let ghost want = e1.lines.take(y as int) + nl.take(i + 1) + e1.lines.skip(y + 1);
            assert(self@.lines =~= want) by {
                assert forall|k: int| 0 <= k < want.len() implies #[trigger] self@.lines[k] == want[k] by {
                    if k < y {
                        assert(before[k] == e1.lines[k]);
                    } else if k < y + i {
                        assert(before[k] == nl[k - y]);
                    } else if k == y + i {
                    } else {
                        assert(before[k - 1] == e1.lines.skip(y + 1)[k - 1 - y - i]);
                    }
                }
            }
            i += 1;
            assert(rest.deep_view() =~= nl.skip(i as int));
        }
        assert(i == num_new) by {
            assert(nl.skip(i as int).len() == 0);
        }
        assert(nl.take(num_new as int) =~= nl);
        assert(self@ =~= (EditorView { lines: spliced(e1.lines, y as int, nl), ..e1 }));
    }

    /// The text that pasting puts in place of the cursor's line, the
    /// length of the pasted text and of the part of the line after the
    /// cursor.
    fn paste_parts(&self) -> (r: (String, usize, usize))
        requires
            wf(self@),
        ensures
            r.0@ == paste_combined(self@),
            r.1 == document_text(self@.clipboard).len(),
            r.2 == self@.lines[self.cursor_y as int].len() - min_of(self.cursor_x as int, self@.lines[self.cursor_y as int].len() as int),
            lines_ok(self@.clipboard) ==> ({
                let line = self@.lines[self.cursor_y as int];
                let cx = min_of(self.cursor_x as int, line.len() as int);
                let nl = crate::text::split_lines(r.0@);
                r.0@.len() > 0 ==> nl.len() >= 1 && nl.last().len() >= line.len() - cx
            }),
    {
        let text = crate::config::join_with(&self.clipboard, '\n');
        let tl = line_len(&text);
        let y = self.cursor_y;
        assert(self.lines@.len() == self@.lines.len());
        let v = chars_of(self.lines[y].as_str());
        let ghost line = self@.lines[y as int];
        assert(v@ == line);
        let n = v.len();
        let cx = if self.cursor_x < n { self.cursor_x } else { n };
        let mut combined = string_of(v.as_slice(), 0, cx);
        append_str(&mut combined, text.as_str());
        let after = string_of(v.as_slice(), cx, n);
        append_str(&mut combined, after.as_str());
        proof {
            assert(after@ =~= line.skip(cx as int));
            assert(combined@ =~= paste_combined(self@));
            if lines_ok(self@.clipboard) {
                assert(line_ok(line));
                assert(!after@.contains('\n')) by {
                    if after@.contains('\n') {
                        let j = choose|j: int| 0 <= j < after@.len() && after@[j] == '\n';
                        assert(line[cx + j] == '\n');
                    }
                }
                assert(combined@ =~= (line.take(cx as int) + text@) + after@);
                if combined@.len() > 0 {
                    lemma_last_line_ends_with(line.take(cx as int) + text@, after@);
                }
            }
        }
        (combined, tl, n - cx)
    }

    /// Pastes the clipboard at the cursor (see `pasted`).
    pub fn paste(&mut self)
        requires
            wf(old(self)@),
            paste_ok(old(self)@),
        ensures
            final(self)@ == pasted(old(self)@),
            wf(final(self)@),
    {
        if self.clipboard.len() == 0 {
            assert(self@.clipboard.len() == 0);
            return;
        }
        if self.has_selection() {
            self.delete_selected();
        }
        let ghost e1 = self@;
        assert(e1 == without_block(old(self)@));
        let (combined, tl, after_len) = self.paste_parts();
        let old_lines = self.lines.clone();
        assert(old_lines.deep_view() =~= e1.lines) by {
            assert forall|i: int| 0 <= i < old_lines@.len() implies old_lines@[i]@ == self.lines@[i]@ by {}
        }
        self.push_undo(UndoAction::ReplaceAll { old_lines });
        let y = self.cursor_y;
        let cv = chars_of(combined.as_str());
        let new_lines = crate::text::lines_of(cv.as_slice());
        let ghost nl = new_lines.deep_view();
        let num_new = new_lines.len();
        proof {
            lemma_split_lines_ok(combined@);
            lemma_spliced_ok(e1.lines, y as int, nl);
        }
        assert(self.lines@.len() == self@.lines.len());
        self.splice_lines(y, new_lines);
        if num_new == 1 {
            self.cursor_x = self.cursor_x + tl;
        } else {
            let total = self.lines.len();
            assert(total == self@.lines.len());
            self.cursor_y = y + (num_new - 1);
            assert(self@.lines[self.cursor_y as int] == nl[num_new - 1]);
            let ll = line_len(&self.lines[self.cursor_y]);
            self.cursor_x = ll - after_len;
        }
        self.mark_edited();
        self.ensure_visible();
        assert(self@ =~= pasted(old(self)@));
    }
}

/// The first position at or after `i` where `q` occurs in `h`.
pub open spec fn first_occ(h: Seq<char>, q: Seq<char>, i: int) -> Option<int>
    decreases h.len() + 1 - i,
{
    if i < 0 || i > h.len() {
        None
    } else if crate::text::occurs_at(h, q, i) {
        Some(i)
    } else {
        first_occ(h, q, i + 1)
    }
}

/// The last position at or before `i` where `q` occurs in `h`.
pub open spec fn last_occ(h: Seq<char>, q: Seq<char>, i: int) -> Option<int>
    decreases i + 1,
{
    if i < 0 {
        None
    } else if crate::text::occurs_at(h, q, i) {
        Some(i)
    } else {
        last_occ(h, q, i - 1)
    }
}

/// A line in lower case, as searching compares it.
pub open spec fn folded(s: Seq<char>) -> Seq<char> {
    crate::text::ascii_lower_seq(s)
}

/// Searching forward from line `y`: on line `start_y` from column `from`,
/// on later lines from their start. The column and line of the first hit.
pub open spec fn forward_hit(ls: Seq<Seq<char>>, q: Seq<char>, y: int, start_y: int, from: int) -> Option<(int, int)>
    decreases ls.len() - y,
{
    if y < 0 || y >= ls.len() {
        None
    } else {
        match first_occ(folded(ls[y]), q, if y == start_y { from } else { 0 }) {
            Some(p) => Some((p, y)),
            None => forward_hit(ls, q, y + 1, start_y, from),
        }
    }
}

/// Searching again from the top, up to line `start_y`, where only text
/// before column `to` counts.
pub open spec fn wrapped_hit(ls: Seq<Seq<char>>, q: Seq<char>, y: int, start_y: int, to: int) -> Option<(int, int)>
    decreases start_y + 1 - y,
{
    if y < 0 || y > start_y || y >= ls.len() {
        None
    } else {
        let h = folded(ls[y]);
        match first_occ(h.take(if y == start_y { to } else { h.len() as int }), q, 0) {
            Some(p) => Some((p, y)),
            None => wrapped_hit(ls, q, y + 1, start_y, to),
        }
    }
}

/// Searching backward from line `y` down to the top: on line `start_y` only
/// text before column `to` counts. The column and line of the hit.
pub open spec fn backward_hit(ls: Seq<Seq<char>>, q: Seq<char>, y: int, start_y: int, to: int) -> Option<(int, int)>
    decreases y + 1,
{
    if y < 0 || y >= ls.len() {
        None
    } else {
        let h = folded(ls[y]).take(if y == start_y { to } else { ls[y].len() as int });
        match last_occ(h, q, h.len() as int) {
            Some(p) => Some((p, y)),
            None => backward_hit(ls, q, y - 1, start_y, to),
        }
    }
}

/// The view with a hit at (`p`, `y`) selected, the cursor on it.
pub open spec fn at_hit(e: EditorView, p: int, y: int) -> EditorView {
    scrolled(EditorView {
        cursor_x: p as usize,
        cursor_y: y as usize,
        selection: Some(Selection {
            start_x: p as usize,
            start_y: y as usize,
            end_x: (p + e.search_query.len()) as usize,
            end_y: y as usize,
        }),
        ..e
    })
}

/// The view when nothing was found.
pub open spec fn not_found(e: EditorView) -> EditorView {
    EditorView { status_msg: Some("Not found"@), ..e }
}

/// The case-insensitive search forward from just after the cursor,
/// wrapping around to the top: the hit is selected.
pub open spec fn searched_next(e: EditorView) -> (EditorView, bool) {
    if e.search_query.len() == 0 {
        (e, false)
    } else {
        let q = folded(e.search_query);
        let y = e.cursor_y as int;
        let from = e.cursor_x + 1;
        match forward_hit(e.lines, q, y, y, from) {
            Some((p, hy)) => (at_hit(e, p, hy), true),
            None => match wrapped_hit(e.lines, q, 0, y, from) {
                Some((p, hy)) => (at_hit(e, p, hy), true),
                None => (not_found(e), false),
            },
        }
    }
}

/// The case-insensitive search backward from the cursor.
pub open spec fn searched_prev(e: EditorView) -> (EditorView, bool) {
    if e.search_query.len() == 0 {
        (e, false)
    } else {
        let q = folded(e.search_query);
        let y = e.cursor_y as int;
        match backward_hit(e.lines, q, y, y, e.cursor_x as int) {
            Some((p, hy)) => (at_hit(e, p, hy), true),
            None => (not_found(e), false),
        }
    }
}

proof fn lemma_occ_bounds(h: Seq<char>, q: Seq<char>, i: int)
    requires
        q.len() > 0,
    ensures
        first_occ(h, q, i) matches Some(p) ==> i <= p && p + q.len() <= h.len(),
        last_occ(h, q, i) matches Some(p) ==> 0 <= p <= i && p + q.len() <= h.len(),
    decreases h.len() + 1 - i,
{
    if 0 <= i <= h.len() && !crate::text::occurs_at(h, q, i) {
        lemma_occ_bounds(h, q, i + 1);
    }
    lemma_last_bounds(h, q, i);
}

proof fn lemma_last_bounds(h: Seq<char>, q: Seq<char>, i: int)
    requires
        q.len() > 0,
    ensures
        last_occ(h, q, i) matches Some(p) ==> 0 <= p <= i && p + q.len() <= h.len(),
    decreases i + 1,
{
    if i >= 0 && !crate::text::occurs_at(h, q, i) {
        lemma_last_bounds(h, q, i - 1);
    }
}

/// `first_occ` computed.
fn first_occ_exec(h: &[char], q: &[char], from: usize) -> (r: Option<usize>)
    ensures
        match r {
            Some(x) => first_occ(h@, q@, from as int) == Some(x as int),
            None => first_occ(h@, q@, from as int) is None,
        },
{
    if from > h.len() {
        return None;
    }
    let mut i = from;
    while i <= h.len()
        invariant
            from <= i <= h@.len() + 1,
            first_occ(h@, q@, from as int) == first_occ(h@, q@, i as int),
        decreases h@.len() + 1 - i,
    {
        if crate::text::occurs_at_exec(h, q, i) {
            return Some(i);
        }
        if i == h.len() {
            assert(first_occ(h@, q@, i + 1) is None);
            return None;
        }
        i += 1;
    }
    None
}

/// `last_occ` computed.
fn last_occ_exec(h: &[char], q: &[char], upto: usize) -> (r: Option<usize>)
    ensures
        match r {
            Some(x) => last_occ(h@, q@, upto as int) == Some(x as int),
            None => last_occ(h@, q@, upto as int) is None,
        },
{
    let mut i = upto;
    loop
        invariant
            i <= upto,
            last_occ(h@, q@, upto as int) == last_occ(h@, q@, i as int),
        decreases i,
    {
        if crate::text::occurs_at_exec(h, q, i) {
            return Some(i);
        }
        if i == 0 {
            assert(last_occ(h@, q@, -1) is None);
            return None;
        }
        i -= 1;
    }
}

impl Editor {
    fn select_hit(&mut self, p: usize, y: usize, qlen: usize)
        requires
            qlen == old(self)@.search_query.len(),
            p + qlen <= usize::MAX,
        ensures
            final(self)@ == at_hit(old(self)@, p as int, y as int),
    {
        self.cursor_y = y;
        self.cursor_x = p;
        self.selection = Some(Selection { start_x: p, start_y: y, end_x: p + qlen, end_y: y });
        self.ensure_visible();
        assert(self@ =~= at_hit(old(self)@, p as int, y as int));
    }

    fn report_not_found(&mut self)
        ensures
            final(self)@ == not_found(old(self)@),
    {
        proof {
            reveal_strlit("Not found");
        }
        self.status_msg = Some(owned("Not found"));
        assert(self@ =~= not_found(old(self)@));
    }

    /// Finds the next match of the search text (see `searched_next`).
    pub fn find_next(&mut self) -> (found: bool)
        requires
            wf(old(self)@),
            line_ok(old(self)@.search_query),
            old(self).cursor_x < cur_len(old(self)@),
        ensures
            (final(self)@, found) == searched_next(old(self)@),
            wf(final(self)@),
    {
        let ghost e = self@;
        let ql = line_len(&self.search_query);
        if ql == 0 {
            return false;
        }
        let query = crate::text::to_ascii_lower(self.search_query.as_str());
        let qv = chars_of(query.as_str());
        assert(qv@ == folded(e.search_query));
        let start_y = self.cursor_y;
        let cl = line_len(&self.lines[start_y]);
        let start_x = self.cursor_x + 1;
        let n = self.lines.len();
        assert(n == e.lines.len());
        let mut y = start_y;
        while y < n
            invariant
                start_y <= y <= n,
                n == e.lines.len(),
                self@ == e,
                e == old(self)@,
                qv@ == folded(e.search_query),
                qv@.len() == ql,
                ql > 0,
                wf(e),
                start_x == e.cursor_x + 1,
                start_y == e.cursor_y,
                forward_hit(e.lines, qv@, start_y as int, start_y as int, start_x as int)
                    == forward_hit(e.lines, qv@, y as int, start_y as int, start_x as int),
            decreases n - y,
        {
            let low = crate::text::to_ascii_lower(self.lines[y].as_str());
            proof {
                assert(line_ok(e.lines[y as int]));
                assert(self.lines@[y as int]@ == e.lines[y as int]);
            }
            let hv = chars_of(low.as_str());
            let hl = hv.len();
            assert(hv@ == folded(e.lines[y as int]));
            let from = if y == start_y { start_x } else { 0 };
            match first_occ_exec(hv.as_slice(), qv.as_slice(), from) {
                Some(p) => {
                    proof {
                        lemma_occ_bounds(hv@, qv@, from as int);
                        assert(forward_hit(e.lines, qv@, y as int, start_y as int, start_x as int) == Some((p as int, y as int)));
                    }
                    self.select_hit(p, y, ql);
                    return true;
                },
                None => {},
            }
            y += 1;
        }
        assert(forward_hit(e.lines, qv@, start_y as int, start_y as int, start_x as int) is None);
        let last = start_y;
        let mut y: usize = 0;
        while y <= last
            invariant
                last == start_y,
                y <= last + 1,
                n == e.lines.len(),
                start_y < n,
                self@ == e,
                e == old(self)@,
                qv@ == folded(e.search_query),
                qv@.len() == ql,
                ql > 0,
                wf(e),
                start_x == e.cursor_x + 1,
                start_x <= e.lines[start_y as int].len(),
                start_y == e.cursor_y,
                forward_hit(e.lines, qv@, start_y as int, start_y as int, start_x as int) is None,
                wrapped_hit(e.lines, qv@, 0, start_y as int, start_x as int)
                    == wrapped_hit(e.lines, qv@, y as int, start_y as int, start_x as int),
            decreases last + 1 - y,
        {
            let low = crate::text::to_ascii_lower(self.lines[y].as_str());
            proof {
                assert(line_ok(e.lines[y as int]));
                assert(self.lines@[y as int]@ == e.lines[y as int]);
            }
            let hv = chars_of(low.as_str());
            let hl = hv.len();
            assert(hv@ == folded(e.lines[y as int]));
            let to = if y == start_y { start_x } else { hv.len() };
            let head = vstd::slice::slice_subrange(hv.as_slice(), 0, to);
            assert(head@ =~= hv@.take(to as int));
            match first_occ_exec(head, qv.as_slice(), 0) {
                Some(p) => {
                    proof {
                        lemma_occ_bounds(head@, qv@, 0);
                        assert(wrapped_hit(e.lines, qv@, y as int, start_y as int, start_x as int) == Some((p as int, y as int)));
                    }
                    self.select_hit(p, y, ql);
                    return true;
                },
                None => {},
            }
            y += 1;
        }
        assert(wrapped_hit(e.lines, qv@, 0, start_y as int, start_x as int) is None);
        self.report_not_found();
        false
    }

    /// Finds the previous match of the search text (see `searched_prev`).
    pub fn find_prev(&mut self) -> (found: bool)
        requires
            wf(old(self)@),
            line_ok(old(self)@.search_query),
            old(self).cursor_x <= cur_len(old(self)@),
        ensures
            (final(self)@, found) == searched_prev(old(self)@),
            wf(final(self)@),
    {
        let ghost e = self@;
        let ql = line_len(&self.search_query);
        if ql == 0 {
            return false;
        }
        let query = crate::text::to_ascii_lower(self.search_query.as_str());
        let qv = chars_of(query.as_str());
        assert(qv@ == folded(e.search_query));
        let start_y = self.cursor_y;
        let start_x = self.cursor_x;
        let n = self.lines.len();
        assert(n == e.lines.len());
        let mut k: usize = 0;
        while k <= start_y
            invariant
                k <= start_y + 1,
                start_y < n,
                n == e.lines.len(),
                self@ == e,
                e == old(self)@,
                qv@ == folded(e.search_query),
                qv@.len() == ql,
                ql > 0,
                wf(e),
                start_x == e.cursor_x,
                start_x <= e.lines[start_y as int].len(),
                start_y == e.cursor_y,
                backward_hit(e.lines, qv@, start_y as int, start_y as int, start_x as int)
                    == backward_hit(e.lines, qv@, start_y - k, start_y as int, start_x as int),
            decreases start_y + 1 - k,
        {
            let y = start_y - k;
            let low = crate::text::to_ascii_lower(self.lines[y].as_str());
            proof {
                assert(line_ok(e.lines[y as int]));
                assert(self.lines@[y as int]@ == e.lines[y as int]);
            }
            let hv = chars_of(low.as_str());
            let hl = hv.len();
            assert(hv@ == folded(e.lines[y as int]));
            let to = if y == start_y { start_x } else { hv.len() };
            let head = vstd::slice::slice_subrange(hv.as_slice(), 0, to);
            assert(head@ =~= hv@.take(to as int));
            match last_occ_exec(head, qv.as_slice(), to) {
                Some(p) => {
                    proof {
                        lemma_last_bounds(head@, qv@, to as int);
                        assert(backward_hit(e.lines, qv@, y as int, start_y as int, start_x as int) == Some((p as int, y as int)));
                    }
                    self.select_hit(p, y, ql);
                    return true;
                },
                None => {},
            }
            k += 1;
        }
        assert(backward_hit(e.lines, qv@, start_y as int, start_y as int, start_x as int) is None);
        self.report_not_found();
        false
    }
}

/// Replacing the block's first line part with the replacement text: the
/// text before the block's start column, the replacement, and the text
/// from its end column on (both columns taken within the start line).
pub open spec fn replaced_current(e: EditorView) -> EditorView {
    match e.selection {
        Some(s) => {
            let (sx, sy, ex, ey) = ordered(s);
            let line = e.lines[sy as int];
            let a = min_of(sx as int, line.len() as int);
            let b = min_of(ex as int, line.len() as int);
            EditorView {
                lines: e.lines.update(sy as int, line.take(a) + e.replace_query + line.skip(b)),
                cursor_x: (a + e.replace_query.len()) as usize,
                modified: true,
                selection: None,
                ..e
            }
        },
        None => e,
    }
}

/// How many times `p` occurs in `s`, counted from the left without overlap
/// (`str::matches(p).count()`).
pub open spec fn count_matches(s: Seq<char>, p: Seq<char>) -> nat
    decreases s.len(),
{
    if s.len() == 0 {
        0
    } else if p.len() > 0 && p.len() <= s.len() && s.take(p.len() as int) == p {
        1 + count_matches(s.skip(p.len() as int), p)
    } else {
        count_matches(s.drop_first(), p)
    }
}

/// The number of matches over all lines.
pub open spec fn total_matches(ls: Seq<Seq<char>>, p: Seq<char>) -> nat
    decreases ls.len(),
{
    if ls.len() == 0 {
        0
    } else {
        count_matches(ls[0], p) + total_matches(ls.drop_first(), p)
    }
}

/// The status line after replacing `n` matches.
pub open spec fn replaced_message(n: nat) -> Seq<char> {
    "Replaced "@ + crate::numfmt::decimal(n) + " occurrences"@
}

/// Replacing every match of the search text (case-sensitive) in every line
/// by the replacement text; the old lines are remembered for undo.
pub open spec fn replaced_all(e: EditorView) -> (EditorView, nat) {
    if e.search_query.len() == 0 {
        (e, 0)
    } else {
        let n = total_matches(e.lines, e.search_query);
        let e1 = EditorView {
            lines: e.lines.map_values(|l: Seq<char>| crate::text::replace_all(l, e.search_query, e.replace_query)),
            undo: pushed(e.undo, UndoView::ReplaceAll { old_lines: e.lines }),
            status_msg: Some(replaced_message(n)),
            ..e
        };
        if n > 0 {
            (EditorView { modified: true, redo: Seq::empty(), ..e1 }, n)
        } else {
            (e1, n)
        }
    }
}

proof fn lemma_total_push(ls: Seq<Seq<char>>, l: Seq<char>, p: Seq<char>)
    ensures
        total_matches(ls.push(l), p) == total_matches(ls, p) + count_matches(l, p),
    decreases ls.len(),
{
    if ls.len() > 0 {
        lemma_total_push(ls.drop_first(), l, p);
        assert(ls.push(l).drop_first() =~= ls.drop_first().push(l));
    } else {
        assert(ls.push(l).drop_first() =~= Seq::<Seq<char>>::empty());
    }
}

proof fn lemma_replace_all_ok(s: Seq<char>, p: Seq<char>, t: Seq<char>)
    requires
        line_ok(s),
        line_ok(t),
    ensures
        line_ok(crate::text::replace_all(s, p, t)),
    decreases s.len(),
{
    if s.len() > 0 {
        if p.len() > 0 && p.len() <= s.len() && s.take(p.len() as int) == p {
            lemma_ok_sub(s, p.len() as int, s.len() as int);
            lemma_replace_all_ok(s.skip(p.len() as int), p, t);
            lemma_ok_parts(t, crate::text::replace_all(s.skip(p.len() as int), p, t));
        } else {
            lemma_ok_sub(s, 1, 1);
            assert(s.drop_first() == s.skip(1));
            lemma_replace_all_ok(s.drop_first(), p, t);
            lemma_ok_sub(s, 0, 1);
            assert(seq![s[0]] == s.take(1));
            lemma_ok_parts(seq![s[0]], crate::text::replace_all(s.drop_first(), p, t));
        }
    }
}

/// The number of matches of `p` in `s`, when it fits in `usize`.
fn count_matches_exec(s: &str, p: &str) -> (r: usize)
    requires
        p@.len() > 0,
    ensures
        r == count_matches(s@, p@),
{
    let v = chars_of(s);
    let pv = chars_of(p);
    let mut n: usize = 0;
    let mut i: usize = 0;
    assert(v@.skip(0) =~= v@);
    while i < v.len()
        invariant
            i <= v@.len(),
            v@ == s@,
            pv@ == p@,
            p@.len() > 0,
            n <= i,
            n + count_matches(v@.skip(i as int), p@) == count_matches(s@, p@),
        decreases v@.len() - i,
    {
        let ghost rest = v@.skip(i as int);
        if crate::text::occurs_at_exec(v.as_slice(), pv.as_slice(), i) {
            assert(rest.take(p@.len() as int) =~= v@.subrange(i as int, i + p@.len()));
            assert(rest.skip(p@.len() as int) =~= v@.skip(i + p@.len()));
            n += 1;
            i += pv.len();
        } else {
            assert(!(p@.len() <= rest.len() && rest.take(p@.len() as int) == p@)) by {
                if p@.len() <= rest.len() && rest.take(p@.len() as int) == p@ {
                    assert(rest.take(p@.len() as int) =~= v@.subrange(i as int, i + p@.len()));
                }
            }
            assert(rest.drop_first() =~= v@.skip(i + 1));
            i += 1;
        }
    }
    assert(v@.skip(i as int) =~= Seq::<char>::empty());
    n
}

impl Editor {
    /// Replaces the block's text on its first line by the replacement
    /// (see `replaced_current`).
    pub fn replace_current(&mut self)
        requires
            wf(old(self)@),
            line_ok(old(self)@.replace_query),
            old(self).selection matches Some(s) ==> ordered(s).1 < old(self)@.lines.len()
                && old(self)@.lines[ordered(s).1 as int].len() + old(self)@.replace_query.len() <= usize::MAX,
        ensures
            final(self)@ == replaced_current(old(self)@),
            wf(final(self)@),
    {
        let ghost e = self@;
        match self.normalized_selection() {
            Some((sx, sy, ex, _ey)) => {
                assert(self.lines@.len() == e.lines.len());
                let v = chars_of(self.lines[sy].as_str());
                let ghost line = e.lines[sy as int];
                assert(v@ == line);
                let n = v.len();
                let a = if sx < n { sx } else { n };
                let b = if ex < n { ex } else { n };
                let mut nl = string_of(v.as_slice(), 0, a);
                append_str(&mut nl, self.replace_query.as_str());
                let tail = string_of(v.as_slice(), b, n);
                append_str(&mut nl, tail.as_str());
                let rl = line_len(&self.replace_query);
                proof {
                    assert(line_ok(line));
                    lemma_ok_sub(line, a as int, a as int);
                    lemma_ok_sub(line, b as int, b as int);
                    assert(tail@ =~= line.skip(b as int));
                    assert(nl@ =~= line.take(a as int) + e.replace_query + line.skip(b as int));
                    lemma_ok_parts(line.take(a as int), e.replace_query);
                    lemma_ok_parts(line.take(a as int) + e.replace_query, line.skip(b as int));
                    lemma_ok_update(e.lines, sy as int, nl@);
                }
                self.replace_line(sy, nl);
                self.cursor_x = a + rl;
                self.modified = true;
                self.selection = None;
                assert(self@ =~= replaced_current(old(self)@));
            },
            None => {},
        }
    }

    /// Whether the number of matches `replace_all` counts fits in `usize`.
    pub fn replace_count_fits(&self) -> (r: bool)
        ensures
            r == (self@.search_query.len() == 0 || total_matches(self@.lines, self@.search_query) <= usize::MAX),
    {
        if self.search_query.as_str().unicode_len() == 0 {
            return true;
        }
        let ghost ls = self@.lines;
        let mut total: usize = 0;
        let mut i: usize = 0;
        assert(ls.take(0) =~= Seq::<Seq<char>>::empty());
        while i < self.lines.len()
            invariant
                i <= self.lines@.len(),
                ls == self@.lines,
                ls.len() == self.lines@.len(),
                self@.search_query.len() > 0,
                total == total_matches(ls.take(i as int), self@.search_query),
            decreases self.lines@.len() - i,
        {
            let c = count_matches_exec(self.lines[i].as_str(), self.search_query.as_str());
            proof {
                assert(ls.take(i + 1) =~= ls.take(i as int).push(ls[i as int]));
                lemma_total_push(ls.take(i as int), ls[i as int], self@.search_query);
                lemma_total_suffix(ls, self@.search_query, i + 1);
            }
            if c > usize::MAX - total {
                return false;
            }
            total = total + c;
            i += 1;
        }
        assert(ls.take(i as int) =~= ls);
        true
    }

    /// Replaces every match (see `replaced_all`) and returns how many.
    pub fn replace_all(&mut self) -> (count: usize)
        requires
            wf(old(self)@),
            line_ok(old(self)@.replace_query),
            old(self)@.search_query.len() == 0 || total_matches(old(self)@.lines, old(self)@.search_query) <= usize::MAX,
        ensures
            (final(self)@, count as nat) == replaced_all(old(self)@),
            wf(final(self)@),
    {
        let ghost e = self@;
        if self.search_query.as_str().unicode_len() == 0 {
            return 0;
        }
        let old_lines = self.lines.clone();
        assert(old_lines.deep_view() =~= e.lines) by {
            assert forall|i: int| 0 <= i < old_lines@.len() implies old_lines@[i]@ == self.lines@[i]@ by {}
        }
        self.push_undo(UndoAction::ReplaceAll { old_lines });
        let ghost q = e.search_query;
        let ghost t = e.replace_query;
        let ghost mid = self@;
        let mut count: usize = 0;
        let mut i: usize = 0;
        assert(self.lines@.len() == e.lines.len());
        let n = self.lines.len();
        while i < n
            invariant
                i <= n,
                n == e.lines.len(),
                self.lines@.len() == n,
                q.len() > 0,
                q == e.search_query,
                t == e.replace_query,
                line_ok(t),
                wf(e),
                total_matches(e.lines, q) <= usize::MAX,
                count == total_matches(e.lines.take(i as int), q),
                self@ == (EditorView { lines: self@.lines, ..mid }),
                mid.search_query == q,
                mid.replace_query == t,
                forall|k: int| 0 <= k < i ==> #[trigger] self@.lines[k] == crate::text::replace_all(e.lines[k], q, t),
                forall|k: int| i <= k < n ==> #[trigger] self@.lines[k] == e.lines[k],
            decreases n - i,
        {
            let c = count_matches_exec(self.lines[i].as_str(), self.search_query.as_str());
            proof {
                assert(self@.lines[i as int] == e.lines[i as int]);
                assert(e.lines.take(i + 1) =~= e.lines.take(i as int).push(e.lines[i as int]));
                lemma_total_push(e.lines.take(i as int), e.lines[i as int], q);
                lemma_total_suffix(e.lines, q, i + 1);
            }
            if c > 0 {
                let r = crate::text::replace_str(self.lines[i].as_str(), self.search_query.as_str(), self.replace_query.as_str());
                let ghost before = self@.lines;
                self.lines.set(i, r);
                assert(self@.lines =~= before.update(i as int, r@));
            } else {
                proof {
                    lemma_no_match_same(e.lines[i as int], q, t);
                }
            }
            count = count + c;
            i += 1;
        }
        proof {
            assert(e.lines.take(n as int) =~= e.lines);
            assert(self@.lines =~= e.lines.map_values(|l: Seq<char>| crate::text::replace_all(l, q, t)));
            assert forall|k: int| 0 <= k < self@.lines.len() implies line_ok(#[trigger] self@.lines[k]) by {
                assert(line_ok(e.lines[k]));
                lemma_replace_all_ok(e.lines[k], q, t);
            }
        }
        let msg = replaced_text(count);
        self.status_msg = Some(msg);
        if count > 0 {
            self.mark_edited();
        }
        assert(self@ =~= replaced_all(old(self)@).0);
        count
    }
}

/// The total over a prefix never exceeds the total.
proof fn lemma_total_suffix(ls: Seq<Seq<char>>, p: Seq<char>, i: int)
    requires
        0 <= i <= ls.len(),
    ensures
        total_matches(ls.take(i), p) <= total_matches(ls, p),
    decreases ls.len() - i,
{
    if i < ls.len() {
        lemma_total_suffix(ls, p, i + 1);
        assert(ls.take(i + 1) =~= ls.take(i).push(ls[i]));
        lemma_total_push(ls.take(i), ls[i], p);
    } else {
        assert(ls.take(i) =~= ls);
    }
}

/// Without a match, replacing changes nothing.
proof fn lemma_no_match_same(s: Seq<char>, p: Seq<char>, t: Seq<char>)
    requires
        count_matches(s, p) == 0,
    ensures
        crate::text::replace_all(s, p, t) == s,
    decreases s.len(),
{
    if s.len() > 0 {
        if p.len() > 0 && p.len() <= s.len() && s.take(p.len() as int) == p {
        } else {
            lemma_no_match_same(s.drop_first(), p, t);
            assert(seq![s[0]] + s.drop_first() =~= s);
        }
    }
}

/// `Replaced <n> occurrences`.
fn replaced_text(n: usize) -> (r: String)
    ensures
        r@ == replaced_message(n as nat),
{
    let mut r = owned("Replaced ");
    let d = crate::numfmt::u64_to_decimal(n as u64);
    append_str(&mut r, d.as_str());
    append_str(&mut r, " occurrences");
    r
}

/// A text ending with a newline (a whole deleted line).
pub open spec fn ends_with_newline(t: Seq<char>) -> bool {
    t.len() > 0 && t.last() == '\n'
}

/// A text without its trailing newlines.
pub open spec fn without_newlines(t: Seq<char>) -> Seq<char> {
    crate::text::strip_end(t, crate::text::equals('\n'))
}

/// When the newest edit can be undone: the line it names exists, its
/// positions lie within that line, and the text it puts back is a line.
pub open spec fn undo_ok(e: EditorView) -> bool {
    e.undo.len() == 0 || match e.undo.last() {
        UndoView::Insert { x, y, text } => y < e.lines.len() && x + text.len() <= e.lines[y as int].len(),
        UndoView::Delete { x, y, text } => y < e.lines.len() && x <= e.lines[y as int].len() && line_ok(without_newlines(text)),
        UndoView::JoinLines { y, col } => y < e.lines.len() && col <= e.lines[y as int].len(),
        UndoView::SplitLine { y, col } => y < e.lines.len(),
        UndoView::ReplaceAll { old_lines } => old_lines.len() >= 1 && lines_ok(old_lines),
    }
}

/// The lines, cursor and redo entry that undoing the edit `a` gives.
pub open spec fn undo_effect(ls: Seq<Seq<char>>, a: UndoView) -> (Seq<Seq<char>>, int, int, UndoView) {
    match a {
        UndoView::Insert { x, y, text } => {
            let l = ls[y as int];
            (ls.update(y as int, l.take(x as int) + l.skip(x + text.len())), x as int, y as int, a)
        },
        UndoView::Delete { x, y, text } => {
            let l = ls[y as int];
            let t = without_newlines(text);
            let ls1 = ls.update(y as int, l.take(x as int) + t + l.skip(x as int));
            (if ends_with_newline(text) { ls1.insert(y as int, t) } else { ls1 }, x as int, y as int, a)
        },
        UndoView::JoinLines { y, col } => {
            let l = ls[y as int];
            (ls.update(y as int, l.take(col as int)).insert(y + 1, l.skip(col as int)), 0, y + 1, a)
        },
        UndoView::SplitLine { y, col } => {
            if y + 1 < ls.len() {
                let joined = ls[y as int] + crate::text::strip_start(ls[y + 1], |c: char| crate::text::is_white(c));
                (ls.update(y as int, joined).remove(y + 1), col as int, y as int, a)
            } else {
                (ls, col as int, y as int, a)
            }
        },
        UndoView::ReplaceAll { old_lines } => (old_lines, 0, 0, UndoView::ReplaceAll { old_lines: ls }),
    }
}

/// Undoing the newest edit: it moves to the redo stack, the text is marked
/// modified and the cursor goes where the edit was.
pub open spec fn undone(e: EditorView) -> EditorView {
    if e.undo.len() == 0 {
        e
    } else {
        let (ls, x, y, r) = undo_effect(e.lines, e.undo.last());
        scrolled(EditorView {
            lines: ls,
            cursor_x: x as usize,
            cursor_y: y as usize,
            undo: e.undo.drop_last(),
            redo: e.redo.push(r),
            modified: true,
            ..e
        })
    }
}

/// When the newest undone edit can be redone.
pub open spec fn redo_ok(e: EditorView) -> bool {
    e.redo.len() == 0 || match e.redo.last() {
        UndoView::Insert { x, y, text } => y < e.lines.len() && x <= e.lines[y as int].len() && line_ok(text)
            && x + text.len() <= usize::MAX,
        UndoView::Delete { x, y, text } => y < e.lines.len() && (if ends_with_newline(text) {
            y + 1 < e.lines.len()
        } else {
            x <= e.lines[y as int].len() && x + text.len() <= usize::MAX
        }),
        UndoView::JoinLines { y, col } => y < e.lines.len(),
        UndoView::SplitLine { y, col } => y < e.lines.len() && col <= e.lines[y as int].len(),
        UndoView::ReplaceAll { old_lines } => old_lines.len() >= 1 && lines_ok(old_lines) && e.cursor_y < old_lines.len(),
    }
}

/// The lines, cursor and undo entry that redoing the edit `a` gives.
pub open spec fn redo_effect(ls: Seq<Seq<char>>, a: UndoView, cx: int, cy: int) -> (Seq<Seq<char>>, int, int, UndoView) {
    match a {
        UndoView::Insert { x, y, text } => {
            let l = ls[y as int];
            (ls.update(y as int, l.take(x as int) + text + l.skip(x as int)), x + text.len(), y as int, a)
        },
        UndoView::Delete { x, y, text } => {
            if ends_with_newline(text) && y < ls.len() {
                (ls.remove(y as int), x as int, y as int, a)
            } else {
                let l = ls[y as int];
                let end = min_of(x + text.len(), l.len() as int);
                (ls.update(y as int, l.take(x as int) + l.skip(end)), x as int, y as int, a)
            }
        },
        UndoView::JoinLines { y, col } => {
            if y + 1 < ls.len() {
                (ls.update(y as int, ls[y as int] + ls[y + 1]).remove(y + 1), col as int, y as int, a)
            } else {
                (ls, col as int, y as int, a)
            }
        },
        UndoView::SplitLine { y, col } => {
            let l = ls[y as int];
            (ls.update(y as int, l.take(col as int)).insert(y + 1, l.skip(col as int)), 0, y + 1, a)
        },
        UndoView::ReplaceAll { old_lines } => (old_lines, cx, cy, UndoView::ReplaceAll { old_lines: ls }),
    }
}

/// Redoing the newest undone edit: it moves back to the undo stack.
pub open spec fn redone(e: EditorView) -> EditorView {
    if e.redo.len() == 0 {
        e
    } else {
        let (ls, x, y, u) = redo_effect(e.lines, e.redo.last(), e.cursor_x as int, e.cursor_y as int);
        scrolled(EditorView {
            lines: ls,
            cursor_x: x as usize,
            cursor_y: y as usize,
            redo: e.redo.drop_last(),
            undo: e.undo.push(u),
            modified: true,
            ..e
        })
    }
}

/// Whether a text ends with a newline.
fn ends_with_newline_exec(t: &String) -> (r: bool)
    ensures
        r == ends_with_newline(t@),
{
    let v = chars_of(t.as_str());
    v.len() > 0 && v[v.len() - 1] == '\n'
}

/// `str::trim_start`: leading white space removed.
fn trim_start_exec(s: &String) -> (r: String)
    ensures
        r@ == crate::text::strip_start(s@, |c: char| crate::text::is_white(c)),
        line_ok(s@) ==> line_ok(r@),
{
    let v = chars_of(s.as_str());
    let mut k: usize = 0;
    while k < v.len() && crate::text::is_white_exec(v[k])
        invariant
            k <= v@.len(),
            v@ == s@,
            forall|j: int| 0 <= j < k ==> crate::text::is_white(#[trigger] v@[j]),
        decreases v@.len() - k,
    {
        k += 1;
    }
    proof {
        crate::text::lemma_strip_start_index(v@, |c: char| crate::text::is_white(c), k as int);
        if line_ok(s@) {
            lemma_ok_sub(v@, k as int, k as int);
        }
    }
    let r = string_of(v.as_slice(), k, v.len());
    assert(r@ =~= v@.skip(k as int));
    r
}

proof fn lemma_strip_newlines_len(t: Seq<char>)
    ensures
        without_newlines(t).len() <= t.len(),
    decreases t.len(),
{
    if t.len() > 0 && t.last() == '\n' {
        lemma_strip_newlines_len(t.drop_last());
    }
}

impl Editor {
    /// Whether the newest edit can be undone (see `undo_ok`).
    pub fn undo_possible(&self) -> (r: bool)
        ensures
            r == undo_ok(self@),
    {
        let n = self.undo_stack.len();
        if n == 0 {
            return true;
        }
        let a = &self.undo_stack[n - 1];
        assert(self@.undo.last() == a@);
        let lc = self.lines.len();
        assert(lc == self@.lines.len());
        match a {
            UndoAction::Insert { x, y, text } => {
                if *y >= lc {
                    return false;
                }
                let ll = line_len(&self.lines[*y]);
                let tl = line_len(text);
                tl <= ll && *x <= ll - tl
            },
            UndoAction::Delete { x, y, text } => {
                if *y >= lc {
                    return false;
                }
                let ll = line_len(&self.lines[*y]);
                let t = crate::text::trim_end_char_str(text.as_str(), '\n');
                *x <= ll && line_ok_exec(&t)
            },
            UndoAction::JoinLines { y, col } => {
                if *y >= lc {
                    return false;
                }
                *col <= line_len(&self.lines[*y])
            },
            UndoAction::SplitLine { y, col: _ } => *y < lc,
            UndoAction::ReplaceAll { old_lines } => {
                old_lines.len() >= 1 && lines_ok_exec(old_lines)
            },
        }
    }

    /// Whether the newest undone edit can be redone (see `redo_ok`).
    pub fn redo_possible(&self) -> (r: bool)
        ensures
            r == redo_ok(self@),
    {
        let n = self.redo_stack.len();
        if n == 0 {
            return true;
        }
        let a = &self.redo_stack[n - 1];
        assert(self@.redo.last() == a@);
        let lc = self.lines.len();
        assert(lc == self@.lines.len());
        match a {
            UndoAction::Insert { x, y, text } => {
                if *y >= lc {
                    return false;
                }
                let ll = line_len(&self.lines[*y]);
                let tl = line_len(text);
                *x <= ll && line_ok_exec(text) && tl <= usize::MAX - *x
            },
            UndoAction::Delete { x, y, text } => {
                if *y >= lc {
                    return false;
                }
                if ends_with_newline_exec(text) {
                    *y < lc - 1
                } else {
                    let ll = line_len(&self.lines[*y]);
                    let tl = line_len(text);
                    *x <= ll && tl <= usize::MAX - *x
                }
            },
            UndoAction::JoinLines { y, col: _ } => *y < lc,
            UndoAction::SplitLine { y, col } => {
                if *y >= lc {
                    return false;
                }
                *col <= line_len(&self.lines[*y])
            },
            UndoAction::ReplaceAll { old_lines } => {
                old_lines.len() >= 1 && lines_ok_exec(old_lines) && self.cursor_y < old_lines.len()
            },
        }
    }
}

impl Editor {
    /// Line `y` without the columns `from` to `to`.
    fn cut_line(&mut self, y: usize, from: usize, to: usize)
        requires
            y < old(self)@.lines.len(),
            from <= to <= old(self)@.lines[y as int].len(),
            lines_ok(old(self)@.lines),
        ensures
            final(self)@ == (EditorView {
                lines: old(self)@.lines.update(y as int, old(self)@.lines[y as int].take(from as int) + old(self)@.lines[y as int].skip(to as int)),
                ..old(self)@
            }),
            lines_ok(final(self)@.lines),
    {
        let ghost l = self@.lines[y as int];
        assert(self.lines@.len() == self@.lines.len());
        let nl = splice(&self.lines[y], from, to, "");
        proof {
            reveal_strlit("");
            assert(""@ =~= Seq::<char>::empty());
            assert(nl@ =~= l.take(from as int) + l.skip(to as int));
            assert(line_ok(l));
            lemma_ok_sub(l, from as int, to as int);
            lemma_ok_sub(l, to as int, to as int);
            lemma_ok_parts(l.take(from as int), l.skip(to as int));
            lemma_ok_update(self@.lines, y as int, nl@);
        }
        self.replace_line(y, nl);
    }

    /// Text `t` put into line `y` at column `x`.
    fn put_text(&mut self, y: usize, x: usize, t: &str)
        requires
            y < old(self)@.lines.len(),
            x <= old(self)@.lines[y as int].len(),
            lines_ok(old(self)@.lines),
            line_ok(t@),
        ensures
            final(self)@ == (EditorView {
                lines: old(self)@.lines.update(y as int, old(self)@.lines[y as int].take(x as int) + t@ + old(self)@.lines[y as int].skip(x as int)),
                ..old(self)@
            }),
            lines_ok(final(self)@.lines),
    {
        let ghost l = self@.lines[y as int];
        assert(self.lines@.len() == self@.lines.len());
        let nl = splice(&self.lines[y], x, x, t);
        proof {
            assert(line_ok(l));
            lemma_ok_sub(l, x as int, x as int);
            lemma_ok_parts(l.take(x as int), t@);
            lemma_ok_parts(l.take(x as int) + t@, l.skip(x as int));
            lemma_ok_update(self@.lines, y as int, nl@);
        }
        self.replace_line(y, nl);
    }

    /// Line `y` split at column `col`.
    fn split_line_at(&mut self, y: usize, col: usize)
        requires
            y < old(self)@.lines.len(),
            col <= old(self)@.lines[y as int].len(),
            lines_ok(old(self)@.lines),
        ensures
            final(self)@ == (EditorView {
                lines: old(self)@.lines.update(y as int, old(self)@.lines[y as int].take(col as int))
                    .insert(y + 1, old(self)@.lines[y as int].skip(col as int)),
                ..old(self)@
            }),
            lines_ok(final(self)@.lines),
    {
        let ghost e = self@;
        let ghost l = e.lines[y as int];
        assert(self.lines@.len() == e.lines.len());
        let v = chars_of(self.lines[y].as_str());
        let n = v.len();
        let head = string_of(v.as_slice(), 0, col);
        let rest = string_of(v.as_slice(), col, n);
        proof {
            assert(line_ok(l));
            lemma_ok_sub(l, col as int, col as int);
            assert(head@ =~= l.take(col as int));
            assert(rest@ =~= l.skip(col as int));
            lemma_ok_update(e.lines, y as int, head@);
        }
        self.replace_line(y, head);
        let ghost mid = self@.lines;
        let len = self.lines.len();
        assert(len == mid.len());
        self.lines.insert(y + 1, rest);
        proof {
            assert(self@.lines =~= mid.insert(y + 1, rest@)) by {
                assert forall|k: int| 0 <= k < self.lines@.len() implies #[trigger] self@.lines[k] == mid.insert(y + 1, rest@)[k] by {
                    if k < y + 1 {
                        assert(self.lines@[k]@ == mid[k]);
                    } else if k > y + 1 {
                        assert(self.lines@[k]@ == mid[k - 1]);
                    }
                }
            }
            assert forall|k: int| 0 <= k < self@.lines.len() implies line_ok(#[trigger] self@.lines[k]) by {
                if k < y + 1 {
                    assert(self@.lines[k] == mid[k]);
                } else if k > y + 1 {
                    assert(self@.lines[k] == mid[k - 1]);
                }
            }
        }
        assert(self@ =~= (EditorView {
            lines: e.lines.update(y as int, l.take(col as int)).insert(y + 1, l.skip(col as int)),
            ..e
        }));
    }

    /// Line `y + 1` appended to line `y` (without its leading white space
    /// when `trim`).
    fn join_next(&mut self, y: usize, trim: bool)
        requires
            y + 1 < old(self)@.lines.len(),
            lines_ok(old(self)@.lines),
        ensures
            final(self)@ == (EditorView {
                lines: old(self)@.lines.update(
                    y as int,
                    old(self)@.lines[y as int] + (if trim {
                        crate::text::strip_start(old(self)@.lines[y + 1], |c: char| crate::text::is_white(c))
                    } else {
                        old(self)@.lines[y + 1]
                    }),
                ).remove(y + 1),
                ..old(self)@
            }),
            lines_ok(final(self)@.lines),
    {
        let ghost e = self@;
        assert(self.lines@.len() == e.lines.len());
        let len = self.lines.len();
        assert(y + 1 < len);
        let next = self.lines.remove(y + 1);
        assert(next@ == e.lines[y + 1]);
        let tail = if trim { trim_start_exec(&next) } else { next };
        let ghost mid = self@.lines;
        assert(mid =~= e.lines.remove(y + 1)) by {
            assert forall|k: int| 0 <= k < mid.len() implies #[trigger] mid[k] == e.lines.remove(y + 1)[k] by {
                if k < y + 1 {
                    assert(self.lines@[k]@ == e.lines[k]);
                } else {
                    assert(self.lines@[k]@ == e.lines[k + 1]);
                }
            }
        }
        assert(self.lines@[y as int]@ == e.lines[y as int]);
        let mut joined = self.lines[y].clone();
        append_str(&mut joined, tail.as_str());
        proof {
            assert(line_ok(e.lines[y as int]));
            assert(line_ok(e.lines[y + 1]));
            lemma_ok_parts(e.lines[y as int], tail@);
            assert forall|k: int| 0 <= k < mid.len() implies line_ok(#[trigger] mid[k]) by {
                if k < y + 1 {
                    assert(mid[k] == e.lines[k]);
                } else {
                    assert(mid[k] == e.lines[k + 1]);
                }
            }
            lemma_ok_update(mid, y as int, joined@);
        }
        self.replace_line(y, joined);
        let ghost want = e.lines.update(y as int, e.lines[y as int] + tail@).remove(y + 1);
        assert(self@.lines =~= want);
    }

    /// A line `t` put before line `y`.
    fn insert_line(&mut self, y: usize, t: String)
        requires
            y <= old(self)@.lines.len(),
            lines_ok(old(self)@.lines),
            line_ok(t@),
        ensures
            final(self)@ == (EditorView { lines: old(self)@.lines.insert(y as int, t@), ..old(self)@ }),
            lines_ok(final(self)@.lines),
    {
        let ghost e = self@;
        let ghost tv = t@;
        let len = self.lines.len();
        assert(len == e.lines.len());
        self.lines.insert(y, t);
        proof {
            assert(self@.lines =~= e.lines.insert(y as int, tv)) by {
                assert forall|k: int| 0 <= k < self.lines@.len() implies #[trigger] self@.lines[k] == e.lines.insert(y as int, tv)[k] by {
                    if k < y {
                        assert(self.lines@[k]@ == e.lines[k]);
                    } else if k > y {
                        assert(self.lines@[k]@ == e.lines[k - 1]);
                    }
                }
            }
            assert forall|k: int| 0 <= k < self@.lines.len() implies line_ok(#[trigger] self@.lines[k]) by {
                if k < y {
                    assert(self@.lines[k] == e.lines[k]);
                } else if k > y {
                    assert(self@.lines[k] == e.lines[k - 1]);
                }
            }
        }
        assert(self@ =~= (EditorView { lines: e.lines.insert(y as int, tv), ..e }));
    }

    /// Line `y` removed.
    fn remove_line(&mut self, y: usize)
        requires
            y < old(self)@.lines.len(),
            lines_ok(old(self)@.lines),
        ensures
            final(self)@ == (EditorView { lines: old(self)@.lines.remove(y as int), ..old(self)@ }),
            lines_ok(final(self)@.lines),
    {
        let ghost e = self@;
        assert(self.lines@.len() == e.lines.len());
        self.lines.remove(y);
        proof {
            assert(self@.lines =~= e.lines.remove(y as int)) by {
                assert forall|k: int| 0 <= k < self.lines@.len() implies #[trigger] self@.lines[k] == e.lines.remove(y as int)[k] by {
                    if k < y {
                        assert(self.lines@[k]@ == e.lines[k]);
                    } else {
                        assert(self.lines@[k]@ == e.lines[k + 1]);
                    }
                }
            }
            assert forall|k: int| 0 <= k < self@.lines.len() implies line_ok(#[trigger] self@.lines[k]) by {
                if k < y {
                    assert(self@.lines[k] == e.lines[k]);
                } else {
                    assert(self@.lines[k] == e.lines[k + 1]);
                }
            }
        }
        assert(self@ =~= (EditorView { lines: e.lines.remove(y as int), ..e }));
    }

    /// All lines replaced by `ls`; the old lines are returned.
    fn swap_lines(&mut self, ls: Vec<String>) -> (old_lines: Vec<String>)
        ensures
            final(self)@ == (EditorView { lines: ls.deep_view(), ..old(self)@ }),
            old_lines.deep_view() == old(self)@.lines,
    {
        let mut cur = ls;
        std::mem::swap(&mut self.lines, &mut cur);
        assert(self@ =~= (EditorView { lines: ls.deep_view(), ..old(self)@ }));
        cur
    }
}

/// The view with the lines and cursor an undo or redo step gives.
pub open spec fn applied(e: EditorView, eff: (Seq<Seq<char>>, int, int, UndoView)) -> EditorView {
    EditorView { lines: eff.0, cursor_x: eff.1 as usize, cursor_y: eff.2 as usize, ..e }
}

/// The edit is one that `undo_ok` accepts on these lines.
pub open spec fn undo_fits(ls: Seq<Seq<char>>, a: UndoView) -> bool {
    undo_ok(EditorView { lines: ls, undo: seq![a], ..blank(None, ls) })
}

/// The edit is one that `redo_ok` accepts on these lines and cursor line.
pub open spec fn redo_fits(ls: Seq<Seq<char>>, a: UndoView, cy: usize) -> bool {
    redo_ok(EditorView { lines: ls, redo: seq![a], cursor_y: cy, ..blank(None, ls) })
}

impl Editor {
    fn undo_insert(&mut self, x: usize, y: usize, text: &String)
        requires
            wf(old(self)@),
            y < old(self)@.lines.len(),
            x + text@.len() <= old(self)@.lines[y as int].len(),
        ensures
            final(self)@ == applied(old(self)@, undo_effect(old(self)@.lines, UndoView::Insert { x, y, text: text@ })),
            wf(final(self)@),
    {
        let ghost e = self@;
        assert(self.lines@.len() == e.lines.len());
        let ll = line_len(&self.lines[y]);
        let tl = line_len(text);
        self.cut_line(y, x, x + tl);
        self.cursor_x = x;
        self.cursor_y = y;
        assert(self@ =~= applied(e, undo_effect(e.lines, UndoView::Insert { x, y, text: text@ })));
    }

    fn undo_delete(&mut self, x: usize, y: usize, text: &String)
        requires
            wf(old(self)@),
            y < old(self)@.lines.len(),
            x <= old(self)@.lines[y as int].len(),
            line_ok(without_newlines(text@)),
        ensures
            final(self)@ == applied(old(self)@, undo_effect(old(self)@.lines, UndoView::Delete { x, y, text: text@ })),
            wf(final(self)@),
    {
        let ghost e = self@;
        let t = crate::text::trim_end_char_str(text.as_str(), '\n');
        self.put_text(y, x, t.as_str());
        if ends_with_newline_exec(text) {
            self.insert_line(y, t);
        }
        self.cursor_x = x;
        self.cursor_y = y;
        assert(self@ =~= applied(e, undo_effect(e.lines, UndoView::Delete { x, y, text: text@ })));
    }

    fn undo_join(&mut self, y: usize, col: usize)
        requires
            wf(old(self)@),
            y < old(self)@.lines.len(),
            col <= old(self)@.lines[y as int].len(),
        ensures
            final(self)@ == applied(old(self)@, undo_effect(old(self)@.lines, UndoView::JoinLines { y, col })),
            wf(final(self)@),
    {
        let ghost e = self@;
        let n = self.lines.len();
        assert(n == e.lines.len());
        self.split_line_at(y, col);
        self.cursor_x = 0;
        self.cursor_y = y + 1;
        assert(self@ =~= applied(e, undo_effect(e.lines, UndoView::JoinLines { y, col })));
    }

    fn undo_split(&mut self, y: usize, col: usize)
        requires
            wf(old(self)@),
            y < old(self)@.lines.len(),
        ensures
            final(self)@ == applied(old(self)@, undo_effect(old(self)@.lines, UndoView::SplitLine { y, col })),
            wf(final(self)@),
    {
        let ghost e = self@;
        let n = self.lines.len();
        assert(n == e.lines.len());
        if y < n - 1 {
            self.join_next(y, true);
        }
        self.cursor_x = col;
        self.cursor_y = y;
        assert(self@ =~= applied(e, undo_effect(e.lines, UndoView::SplitLine { y, col })));
    }

    fn undo_step(&mut self, action: UndoAction) -> (back: UndoAction)
        requires
            wf(old(self)@),
            undo_fits(old(self)@.lines, action@),
        ensures
            final(self)@ == applied(old(self)@, undo_effect(old(self)@.lines, action@)),
            back@ == undo_effect(old(self)@.lines, action@).3,
            wf(final(self)@),
    {
        let ghost e = self@;
        proof {
            assert(seq![action@].last() == action@);
        }
        match action {
            UndoAction::Insert { x, y, text } => {
                self.undo_insert(x, y, &text);
                UndoAction::Insert { x, y, text }
            },
            UndoAction::Delete { x, y, text } => {
                self.undo_delete(x, y, &text);
                UndoAction::Delete { x, y, text }
            },
            UndoAction::JoinLines { y, col } => {
                self.undo_join(y, col);
                UndoAction::JoinLines { y, col }
            },
            UndoAction::SplitLine { y, col } => {
                self.undo_split(y, col);
                UndoAction::SplitLine { y, col }
            },
            UndoAction::ReplaceAll { old_lines } => {
                let ghost ov = old_lines.deep_view();
                let current = self.swap_lines(old_lines);
                self.cursor_x = 0;
                self.cursor_y = 0;
                assert(self@ =~= applied(e, undo_effect(e.lines, UndoView::ReplaceAll { old_lines: ov })));
                UndoAction::ReplaceAll { old_lines: current }
            },
        }
    }

    fn redo_insert(&mut self, x: usize, y: usize, text: &String)
        requires
            wf(old(self)@),
            y < old(self)@.lines.len(),
            x <= old(self)@.lines[y as int].len(),
            line_ok(text@),
            x + text@.len() <= usize::MAX,
        ensures
            final(self)@ == applied(old(self)@, redo_effect(old(self)@.lines, UndoView::Insert { x, y, text: text@ }, old(self).cursor_x as int, old(self).cursor_y as int)),
            wf(final(self)@),
    {
        let ghost e = self@;
        let tl = line_len(text);
        self.put_text(y, x, text.as_str());
        self.cursor_x = x + tl;
        self.cursor_y = y;
        assert(self@ =~= applied(e, redo_effect(e.lines, UndoView::Insert { x, y, text: text@ }, e.cursor_x as int, e.cursor_y as int)));
    }

    fn redo_delete(&mut self, x: usize, y: usize, text: &String)
        requires
            wf(old(self)@),
            y < old(self)@.lines.len(),
            ends_with_newline(text@) ==> y + 1 < old(self)@.lines.len(),
            !ends_with_newline(text@) ==> x <= old(self)@.lines[y as int].len() && x + text@.len() <= usize::MAX,
        ensures
            final(self)@ == applied(old(self)@, redo_effect(old(self)@.lines, UndoView::Delete { x, y, text: text@ }, old(self).cursor_x as int, old(self).cursor_y as int)),
            wf(final(self)@),
    {
        let ghost e = self@;
        let n = self.lines.len();
        assert(n == e.lines.len());
        if ends_with_newline_exec(text) && y < n {
            self.remove_line(y);
        } else {
            let ll = line_len(&self.lines[y]);
            let tl = line_len(text);
            let end = if x + tl < ll { x + tl } else { ll };
            self.cut_line(y, x, end);
        }
        self.cursor_x = x;
        self.cursor_y = y;
        assert(self@ =~= applied(e, redo_effect(e.lines, UndoView::Delete { x, y, text: text@ }, e.cursor_x as int, e.cursor_y as int)));
    }

    fn redo_join(&mut self, y: usize, col: usize)
        requires
            wf(old(self)@),
            y < old(self)@.lines.len(),
        ensures
            final(self)@ == applied(old(self)@, redo_effect(old(self)@.lines, UndoView::JoinLines { y, col }, old(self).cursor_x as int, old(self).cursor_y as int)),
            wf(final(self)@),
    {
        let ghost e = self@;
        let n = self.lines.len();
        assert(n == e.lines.len());
        if y < n - 1 {
            self.join_next(y, false);
        }
        self.cursor_x = col;
        self.cursor_y = y;
        assert(self@ =~= applied(e, redo_effect(e.lines, UndoView::JoinLines { y, col }, e.cursor_x as int, e.cursor_y as int)));
    }

    fn redo_split(&mut self, y: usize, col: usize)
        requires
            wf(old(self)@),
            y < old(self)@.lines.len(),
            col <= old(self)@.lines[y as int].len(),
        ensures
            final(self)@ == applied(old(self)@, redo_effect(old(self)@.lines, UndoView::SplitLine { y, col }, old(self).cursor_x as int, old(self).cursor_y as int)),
            wf(final(self)@),
    {
        let ghost e = self@;
        let n = self.lines.len();
        assert(n == e.lines.len());
        self.split_line_at(y, col);
        self.cursor_x = 0;
        self.cursor_y = y + 1;
        assert(self@ =~= applied(e, redo_effect(e.lines, UndoView::SplitLine { y, col }, e.cursor_x as int, e.cursor_y as int)));
    }

    fn redo_step(&mut self, action: UndoAction) -> (back: UndoAction)
        requires
            wf(old(self)@),
            redo_fits(old(self)@.lines, action@, old(self).cursor_y),
        ensures
            final(self)@ == applied(old(self)@, redo_effect(old(self)@.lines, action@, old(self).cursor_x as int, old(self).cursor_y as int)),
            back@ == redo_effect(old(self)@.lines, action@, old(self).cursor_x as int, old(self).cursor_y as int).3,
            wf(final(self)@),
    {
        let ghost e = self@;
        proof {
            assert(seq![action@].last() == action@);
        }
        match action {
            UndoAction::Insert { x, y, text } => {
                self.redo_insert(x, y, &text);
                UndoAction::Insert { x, y, text }
            },
            UndoAction::Delete { x, y, text } => {
                self.redo_delete(x, y, &text);
                UndoAction::Delete { x, y, text }
            },
            UndoAction::JoinLines { y, col } => {
                self.redo_join(y, col);
                UndoAction::JoinLines { y, col }
            },
            UndoAction::SplitLine { y, col } => {
                self.redo_split(y, col);
                UndoAction::SplitLine { y, col }
            },
            UndoAction::ReplaceAll { old_lines } => {
                let ghost ov = old_lines.deep_view();
                let current = self.swap_lines(old_lines);
                assert(self@ =~= applied(e, redo_effect(e.lines, UndoView::ReplaceAll { old_lines: ov }, e.cursor_x as int, e.cursor_y as int)));
                UndoAction::ReplaceAll { old_lines: current }
            },
        }
    }

    /// Undoes the newest edit (see `undone`).
    pub fn undo(&mut self)
        requires
            wf(old(self)@),
            undo_ok(old(self)@),
        ensures
            final(self)@ == undone(old(self)@),
            wf(final(self)@),
    {
        let ghost e = self@;
        let ghost stack = self.undo_stack@;
        match self.undo_stack.pop() {
            None => {
                assert(e.undo.len() == 0);
            },
            Some(action) => {
                proof {
                    assert(action@ == e.undo.last());
                    assert(actions_view(self.undo_stack@) =~= e.undo.drop_last());
                    assert(seq![action@].last() == action@);
                }
                let back = self.undo_step(action);
                self.redo_stack.push(back);
                assert(actions_view(self.redo_stack@) =~= e.redo.push(back@));
                self.modified = true;
                self.ensure_visible();
                assert(self@ =~= undone(e));
            },
        }
    }

    /// Redoes the newest undone edit (see `redone`).
    pub fn redo(&mut self)
        requires
            wf(old(self)@),
            redo_ok(old(self)@),
        ensures
            final(self)@ == redone(old(self)@),
            wf(final(self)@),
    {
        let ghost e = self@;
        match self.redo_stack.pop() {
            None => {
                assert(e.redo.len() == 0);
            },
            Some(action) => {
                proof {
                    assert(action@ == e.redo.last());
                    assert(actions_view(self.redo_stack@) =~= e.redo.drop_last());
                    assert(seq![action@].last() == action@);
                }
                let back = self.redo_step(action);
                self.undo_stack.push(back);
                assert(actions_view(self.undo_stack@) =~= e.undo.push(back@));
                self.modified = true;
                self.ensure_visible();
                assert(self@ =~= redone(e));
            },
        }
    }
}

/// The status after switching macro recording: started, or stopped with
/// `keys` keys recorded.
pub open spec fn macro_message(was_recording: bool, keys: nat) -> Seq<char> {
    if was_recording {
        "Macro recorded ("@ + crate::numfmt::decimal(keys) + " keys)"@
    } else {
        "Recording macro..."@
    }
}

/// Whether a key is the one that switches recording (Ctrl+M), which is
/// never recorded.
pub open spec fn is_macro_toggle(key: Key, mods: Mods) -> bool {
    mods.ctrl && key == Key::Char('m')
}

/// Whether the editor can do what a replayed key does: typing needs a
/// character that is not a newline, a tab size for a tab and room for the
/// longer line; Enter and Backspace need the cursor within its line.
pub open spec fn replay_ok(e: EditorView, k: (Key, Mods)) -> bool {
    let typing_ok = |c: char| c != '\n' && (c == '\t' ==> e.tab_size > 0) && cur_len(e) + e.tab_size + 1 <= usize::MAX;
    match k.0 {
        Key::Char(c) => k.1.ctrl || typing_ok(c),
        Key::Tab => typing_ok('\t'),
        Key::Enter | Key::Backspace => e.cursor_x <= cur_len(e),
        _ => true,
    }
}

/// What a replayed key does: a character typed without Ctrl, Tab, Enter,
/// Backspace, Delete, the arrows, Home and End act as when pressed; other
/// keys do nothing.
#[verifier::opaque]
pub open spec fn replay_step(e: EditorView, k: (Key, Mods)) -> EditorView {
    match k.0 {
        Key::Char(c) => if k.1.ctrl { e } else { typed(e, c) },
        Key::Tab => typed(e, '\t'),
        Key::Enter => split_at_cursor(e),
        Key::Backspace => backspaced(e),
        Key::Delete => deleted_char(e),
        Key::Up => if e.cursor_y > 0 {
            moved_to_line(e, (e.cursor_y - 1) as usize)
        } else {
            moved_to(e, e.cursor_x, e.cursor_y)
        },
        Key::Down => if e.cursor_y + 1 < e.lines.len() {
            moved_to_line(e, (e.cursor_y + 1) as usize)
        } else {
            moved_to(e, e.cursor_x, e.cursor_y)
        },
        Key::Left => after_left(e),
        Key::Right => after_right(e),
        Key::Home => moved_to(e, 0, e.cursor_y),
        Key::End => moved_to(e, cur_len(e) as usize, e.cursor_y),
        _ => e,
    }
}

/// The editor after replaying `keys` in order, and whether all of them were
/// replayed: the replay stops before the first key whose action the editor
/// cannot do.
#[verifier::opaque]
pub open spec fn replay_keys(e: EditorView, keys: Seq<(Key, Mods)>) -> (EditorView, bool)
    decreases keys.len(),
{
    if keys.len() == 0 {
        (e, true)
    } else if replay_ok(e, keys[0]) {
        replay_keys(replay_step(e, keys[0]), keys.drop_first())
    } else {
        (e, false)
    }
}

/// The editor after playing the recorded macro, with its status: "No macro
/// recorded" when there is none, "Macro played" when every key was
/// replayed, "Macro stopped" when the replay stopped early.
pub open spec fn replayed(e: EditorView, keys: Seq<(Key, Mods)>) -> (EditorView, bool) {
    if keys.len() == 0 {
        (EditorView { status_msg: Some("No macro recorded"@), ..e }, true)
    } else {
        let (f, all) = replay_keys(e, keys);
        (EditorView { status_msg: Some(if all { "Macro played"@ } else { "Macro stopped"@ }), ..f }, all)
    }
}

/// Replaying a key leaves the recorded macros as they were.
pub proof fn lemma_replay_step_keeps_macros(e: EditorView, k: (Key, Mods))
    ensures
        replay_step(e, k).macro_saved == e.macro_saved,
        replay_step(e, k).macro_buffer == e.macro_buffer,
{
    reveal(replay_step);
}

/// One step of a replay.
pub proof fn lemma_replay_keys_step(e: EditorView, keys: Seq<(Key, Mods)>)
    ensures
        keys.len() == 0 ==> replay_keys(e, keys) == (e, true),
        keys.len() > 0 ==> replay_keys(e, keys) == if replay_ok(e, keys[0]) {
            replay_keys(replay_step(e, keys[0]), keys.drop_first())
        } else {
            (e, false)
        },
{
    reveal(replay_keys);
}

impl Editor {
    /// Switches macro recording on or off. Stopping keeps the keys recorded
    /// as the macro; starting clears the keys being recorded.
    pub fn toggle_macro_recording(&mut self)
        ensures
            old(self).macro_recording ==> final(self)@ == (EditorView {
                macro_recording: false,
                macro_saved: old(self)@.macro_buffer,
                macro_buffer: Seq::empty(),
                status_msg: Some(macro_message(true, old(self)@.macro_buffer.len())),
                ..old(self)@
            }),
            !old(self).macro_recording ==> final(self)@ == (EditorView {
                macro_recording: true,
                macro_buffer: Seq::empty(),
                status_msg: Some(macro_message(false, 0)),
                ..old(self)@
            }),
    {
        if self.macro_recording {
            let n = self.macro_buffer.len();
            let mut m = owned("Macro recorded (");
            let d = crate::numfmt::u64_to_decimal(n as u64);
            append_str(&mut m, d.as_str());
            append_str(&mut m, " keys)");
            let mut recorded: Vec<(Key, Mods)> = Vec::new();
            std::mem::swap(&mut recorded, &mut self.macro_buffer);
            self.macro_saved = recorded;
            self.macro_recording = false;
            self.status_msg = Some(m);
        } else {
            self.macro_buffer = Vec::new();
            self.macro_recording = true;
            self.status_msg = Some(owned("Recording macro..."));
        }
        proof {
            reveal_strlit("Recording macro...");
        }
        assert(self@.status_msg == Some(macro_message(old(self).macro_recording, old(self)@.macro_buffer.len())));
    }

    /// Records a key pressed in the editor while a macro is being recorded,
    /// except the key that switches recording.
    pub fn record_key(&mut self, key: Key, mods: Mods)
        ensures
            final(self)@ == (EditorView {
                macro_buffer: if old(self).macro_recording && !is_macro_toggle(key, mods) {
                    old(self)@.macro_buffer.push((key, mods))
                } else {
                    old(self)@.macro_buffer
                },
                ..old(self)@
            }),
    {
        let toggle = mods.ctrl && match key {
            Key::Char(c) => c == 'm',
            _ => false,
        };
        if self.macro_recording && !toggle {
            self.macro_buffer.push((key, mods));
        }
        assert(self@ =~= (EditorView {
            macro_buffer: if old(self).macro_recording && !is_macro_toggle(key, mods) {
                old(self)@.macro_buffer.push((key, mods))
            } else {
                old(self)@.macro_buffer
            },
            ..old(self)@
        }));
    }

    /// The keys of the last macro recorded.
    pub fn get_macro_keys(&self) -> (keys: Vec<(Key, Mods)>)
        ensures
            keys@ == self@.macro_saved,
    {
        let mut keys: Vec<(Key, Mods)> = Vec::new();
        let mut i: usize = 0;
        while i < self.macro_saved.len()
            invariant
                i <= self.macro_saved@.len(),
                keys@ == self.macro_saved@.take(i as int),
            decreases self.macro_saved@.len() - i,
        {
            keys.push(self.macro_saved[i]);
            i += 1;
            assert(keys@ =~= self.macro_saved@.take(i as int));
        }
        assert(self.macro_saved@.take(i as int) =~= self.macro_saved@);
        keys
    }

    /// Whether the editor can do what replaying `k` does.
    fn can_replay(&self, k: (Key, Mods)) -> (r: bool)
        requires
            wf(self@),
        ensures
            r == replay_ok(self@, k),
    {
        let len = line_len(&self.lines[self.cursor_y]);
        let room = self.tab_size < usize::MAX && len <= usize::MAX - 1 - self.tab_size;
        match k.0 {
            Key::Char(c) => k.1.ctrl || (c != '\n' && (c != '\t' || self.tab_size > 0) && room),
            Key::Tab => self.tab_size > 0 && room,
            Key::Enter | Key::Backspace => self.cursor_x <= len,
            _ => true,
        }
    }

    /// Does what replaying `k` does.
    fn replay_one(&mut self, k: (Key, Mods))
        requires
            wf(old(self)@),
            replay_ok(old(self)@, k),
        ensures
            final(self)@ == replay_step(old(self)@, k),
            wf(final(self)@),
    {
        reveal(replay_step);
        match k.0 {
            Key::Char(c) => {
                if !k.1.ctrl {
                    self.insert_char(c);
                }
            },
            Key::Tab => self.insert_char('\t'),
            Key::Enter => self.enter_key(),
            Key::Backspace => self.backspace(),
            Key::Delete => self.delete_char(),
            Key::Up => self.cursor_up(),
            Key::Down => self.cursor_down(),
            Key::Left => self.cursor_left(),
            Key::Right => self.cursor_right(),
            Key::Home => self.cursor_home(),
            Key::End => self.cursor_end(),
            _ => {},
        }
    }

    /// Ctrl+P: replays the recorded macro, key by key, without recording
    /// it; says whether every key was replayed.
    pub fn play_macro(&mut self) -> (all: bool)
        requires
            wf(old(self)@),
        ensures
            (final(self)@, all) == replayed(old(self)@, old(self)@.macro_saved),
            wf(final(self)@),
    {
        let n = self.macro_saved.len();
        if n == 0 {
            self.status_msg = Some(owned("No macro recorded"));
            proof {
                reveal_strlit("No macro recorded");
            }
            assert(self@ =~= replayed(old(self)@, old(self)@.macro_saved).0);
            return true;
        }
        let ghost keys = old(self)@.macro_saved;
        let ghost target = replay_keys(old(self)@, keys);
        let mut i: usize = 0;
        let mut all = true;
        assert(keys.skip(0) =~= keys);
        while i < n
            invariant_except_break
                i <= n,
                n == keys.len(),
                self@.macro_saved == keys,
                wf(self@),
                replay_keys(self@, keys.skip(i as int)) == target,
                all,
            ensures
                wf(self@),
                self@.macro_saved == keys,
                all ==> i == n && replay_keys(self@, keys.skip(i as int)) == target,
                !all ==> (self@, false) == target,
            decreases n - i,
        {
            let k = self.macro_saved[i];
            proof {
                assert(k == keys[i as int]);
                assert(keys.skip(i as int).drop_first() =~= keys.skip(i + 1));
                assert(keys.skip(i as int)[0] == k);
                lemma_replay_keys_step(self@, keys.skip(i as int));
                lemma_replay_step_keeps_macros(self@, k);
            }
            if !self.can_replay(k) {
                all = false;
                break;
            }
            self.replay_one(k);
            i += 1;
        }
        proof {
            if all {
                lemma_replay_keys_step(self@, keys.skip(n as int));
            }
        }
        let msg = if all { owned("Macro played") } else { owned("Macro stopped") };
        self.status_msg = Some(msg);
        proof {
            reveal_strlit("Macro played");
            reveal_strlit("Macro stopped");
        }
        assert(self@ =~= replayed(old(self)@, old(self)@.macro_saved).0);
        all
    }
}

/// Undoing a typed character (not a tab, inside the line) gives back the
/// lines from before it, with the cursor where it was typed; redoing it
/// gives back the lines with the character.
pub proof fn lemma_undo_redo_typing(e: EditorView, c: char)
    requires
        wf(e),
        c != '\n',
        c != '\t',
        e.insert_mode,
        e.cursor_x <= cur_len(e) < usize::MAX,
    ensures
        undo_ok(typed(e, c)),
        undone(typed(e, c)).lines == e.lines,
        undone(typed(e, c)).cursor_x == e.cursor_x,
        undone(typed(e, c)).cursor_y == e.cursor_y,
        redo_ok(undone(typed(e, c))),
        redone(undone(typed(e, c))).lines == typed(e, c).lines,
{
    let t = typed(e, c);
    let x = e.cursor_x as int;
    let y = e.cursor_y as int;
    let l = e.lines[y];
    let nl = l.take(x) + seq![c] + l.skip(x);
    assert(t.lines == e.lines.update(y, nl));
    assert(t.undo.last() == UndoView::Insert { x: e.cursor_x, y: e.cursor_y, text: seq![c] });
    assert(nl.take(x) + nl.skip(x + 1) =~= l);
    assert(e.lines.update(y, nl).update(y, l) =~= e.lines);
    let u = undone(t);
    assert(u.lines == e.lines);
    assert(u.redo.last() == UndoView::Insert { x: e.cursor_x, y: e.cursor_y, text: seq![c] });
    assert(line_ok(seq![c])) by {
        assert forall|i: int| 0 <= i < seq![c].len() implies #[trigger] seq![c][i] != '\n' by {
            assert(seq![c][i] == c);
        }
    }
    assert(l.take(x) + seq![c] + l.skip(x) == nl);
}

/// What the caller has to do after a key in an editor prompt.
#[derive(Clone, Copy, Debug, PartialEq, Eq, Structural)]
pub enum PromptAction {
    /// Nothing.
    Done,
    /// Save As was confirmed: write the text to the editor's new path.
    Save,
    /// The key asked for a search or a replacement the editor cannot do
    /// here (the cursor at the end of its line for a search, a newline or
    /// a too long line for a replacement); it was not done.
    Refused,
}

/// The prompt closed, all else kept.
pub open spec fn prompt_closed(e: EditorView) -> EditorView {
    EditorView { input_mode: EditorInputMode::Normal, ..e }
}

/// Whether the search for the next match can run: there is nothing to
/// look for, or the text is one line and the cursor is before the end of
/// its line.
pub open spec fn search_ok(e: EditorView) -> bool {
    e.search_query.len() == 0 || (line_ok(e.search_query) && e.cursor_x < cur_len(e))
}

/// The search for the next match, where it can run.
pub open spec fn searched(e: EditorView) -> (EditorView, PromptAction) {
    if search_ok(e) {
        (searched_next(e).0, PromptAction::Done)
    } else {
        (e, PromptAction::Refused)
    }
}

/// Whether the block can be replaced by the replacement text.
pub open spec fn replace_one_ok(e: EditorView) -> bool {
    &&& line_ok(e.replace_query)
    &&& (e.selection matches Some(s) ==> ordered(s).1 < e.lines.len()
        && e.lines[ordered(s).1 as int].len() + e.replace_query.len() <= usize::MAX)
}

/// Whether every match can be replaced.
pub open spec fn replace_all_ok(e: EditorView) -> bool {
    line_ok(e.replace_query) && (e.search_query.len() == 0 || total_matches(e.lines, e.search_query) <= usize::MAX)
}

/// What a key does while a prompt is open at the bottom of the editor:
/// - Search: Enter takes the text as the search and finds the next match;
/// - Replace: Enter takes the text as the replacement and asks, match by
///   match, y (replace and find the next), n (find the next) or a (replace
///   all and close);
/// - Save As: Enter takes the text as the path and asks the caller to save;
/// - Go to line: only digits are typed; Enter goes to the line when the
///   text is a number.
/// Esc closes the prompt; Backspace and characters edit its text.
pub open spec fn prompted(e: EditorView, key: Key) -> (EditorView, PromptAction) {
    let edited = EditorView { input_buffer: crate::dialog::input_edited(e.input_buffer, key), ..e };
    match e.input_mode {
        EditorInputMode::Normal => (e, PromptAction::Done),
        EditorInputMode::Search => match key {
            Key::Esc => (prompt_closed(e), PromptAction::Done),
            Key::Enter => searched(EditorView { search_query: e.input_buffer, input_mode: EditorInputMode::Normal, ..e }),
            _ => (edited, PromptAction::Done),
        },
        EditorInputMode::Replace => match key {
            Key::Esc => (prompt_closed(e), PromptAction::Done),
            Key::Enter => (EditorView {
                replace_query: e.input_buffer,
                input_mode: EditorInputMode::ReplaceConfirm,
                input_buffer: Seq::empty(),
                ..e
            }, PromptAction::Done),
            _ => (edited, PromptAction::Done),
        },
        EditorInputMode::ReplaceConfirm => match key {
            Key::Esc => (prompt_closed(e), PromptAction::Done),
            Key::Char(c) => if c == 'y' || c == 'Y' {
                if replace_one_ok(e) { searched(replaced_current(e)) } else { (e, PromptAction::Refused) }
            } else if c == 'n' || c == 'N' {
                searched(e)
            } else if c == 'a' || c == 'A' {
                if replace_all_ok(e) {
                    let (f, n) = replaced_all(e);
                    (EditorView { status_msg: Some(replaced_message(n)), input_mode: EditorInputMode::Normal, ..f },
                        PromptAction::Done)
                } else {
                    (e, PromptAction::Refused)
                }
            } else {
                (e, PromptAction::Done)
            },
            _ => (e, PromptAction::Done),
        },
        EditorInputMode::SaveAs => match key {
            Key::Esc => (prompt_closed(e), PromptAction::Done),
            Key::Enter => (EditorView { path: Some(e.input_buffer), input_mode: EditorInputMode::Normal, ..e },
                PromptAction::Save),
            _ => (edited, PromptAction::Done),
        },
        EditorInputMode::GotoLine => match key {
            Key::Esc => (prompt_closed(e), PromptAction::Done),
            Key::Enter => match crate::numfmt::parse_unsigned(e.input_buffer) {
                Some(v) => if v <= usize::MAX {
                    (prompt_closed(moved_to(e, 0, line_target(e, v as usize))), PromptAction::Done)
                } else {
                    (prompt_closed(e), PromptAction::Done)
                },
                None => (prompt_closed(e), PromptAction::Done),
            },
            _ => (EditorView { input_buffer: crate::dialog::number_edited(e.input_buffer, key), ..e },
                PromptAction::Done),
        },
    }
}

impl Editor {
    /// Opens a prompt: Search starts from the search text, Replace from the
    /// replacement, the others empty.
    pub fn open_prompt(&mut self, mode: EditorInputMode)
        ensures
            final(self)@ == (EditorView {
                input_mode: mode,
                input_buffer: match mode {
                    EditorInputMode::Search => old(self)@.search_query,
                    EditorInputMode::Replace => old(self)@.replace_query,
                    _ => Seq::empty(),
                },
                ..old(self)@
            }),
    {
        let text = match mode {
            EditorInputMode::Search => owned(self.search_query.as_str()),
            EditorInputMode::Replace => owned(self.replace_query.as_str()),
            _ => String::new(),
        };
        self.input_mode = mode;
        self.input_buffer = text;
    }

    /// Ctrl+N: the search for the next match, where it can run.
    pub fn search_next(&mut self) -> (a: PromptAction)
        requires
            wf(old(self)@),
        ensures
            (final(self)@, a) == searched(old(self)@),
            wf(final(self)@),
    {
        let ql = line_len(&self.search_query);
        if ql == 0 {
            return PromptAction::Done;
        }
        let len = line_len(&self.lines[self.cursor_y]);
        if line_ok_exec(&self.search_query) && self.cursor_x < len {
            self.find_next();
            PromptAction::Done
        } else {
            PromptAction::Refused
        }
    }

    /// Whether the block can be replaced by the replacement text.
    fn replace_one_possible(&self) -> (r: bool)
        requires
            wf(self@),
        ensures
            r == replace_one_ok(self@),
    {
        if !line_ok_exec(&self.replace_query) {
            return false;
        }
        match self.normalized_selection() {
            Some((_sx, sy, _ex, _ey)) => {
                if sy >= self.lines.len() {
                    return false;
                }
                let rl = line_len(&self.replace_query);
                let l = line_len(&self.lines[sy]);
                l <= usize::MAX - rl
            },
            None => true,
        }
    }

    /// A key while a prompt is open (see `prompted`).
    pub fn prompt_step(&mut self, key: Key) -> (a: PromptAction)
        requires
            wf(old(self)@),
        ensures
            (final(self)@, a) == prompted(old(self)@, key),
            wf(final(self)@),
    {
        let ghost e = self@;
        match self.input_mode {
            EditorInputMode::Normal => PromptAction::Done,
            EditorInputMode::Search => match key {
                Key::Esc => {
                    self.input_mode = EditorInputMode::Normal;
                    PromptAction::Done
                },
                Key::Enter => {
                    self.search_query = owned(self.input_buffer.as_str());
                    self.input_mode = EditorInputMode::Normal;
                    self.search_next()
                },
                _ => {
                    crate::dialog::input_key(&mut self.input_buffer, key);
                    PromptAction::Done
                },
            },
            EditorInputMode::Replace => match key {
                Key::Esc => {
                    self.input_mode = EditorInputMode::Normal;
                    PromptAction::Done
                },
                Key::Enter => {
                    self.replace_query = owned(self.input_buffer.as_str());
                    self.input_mode = EditorInputMode::ReplaceConfirm;
                    self.input_buffer = String::new();
                    PromptAction::Done
                },
                _ => {
                    crate::dialog::input_key(&mut self.input_buffer, key);
                    PromptAction::Done
                },
            },
            EditorInputMode::ReplaceConfirm => match key {
                Key::Esc => {
                    self.input_mode = EditorInputMode::Normal;
                    PromptAction::Done
                },
                Key::Char(c) => {
                    if c == 'y' || c == 'Y' {
                        if self.replace_one_possible() {
                            self.replace_current();
                            self.search_next()
                        } else {
                            PromptAction::Refused
                        }
                    } else if c == 'n' || c == 'N' {
                        self.search_next()
                    } else if c == 'a' || c == 'A' {
                        if line_ok_exec(&self.replace_query) && self.replace_count_fits() {
                            let n = self.replace_all();
                            self.status_msg = Some(replaced_text(n));
                            self.input_mode = EditorInputMode::Normal;
                            PromptAction::Done
                        } else {
                            PromptAction::Refused
                        }
                    } else {
                        PromptAction::Done
                    }
                },
                _ => PromptAction::Done,
            },
            EditorInputMode::SaveAs => match key {
                Key::Esc => {
                    self.input_mode = EditorInputMode::Normal;
                    PromptAction::Done
                },
                Key::Enter => {
                    self.path = Some(owned(self.input_buffer.as_str()));
                    self.input_mode = EditorInputMode::Normal;
                    PromptAction::Save
                },
                _ => {
                    crate::dialog::input_key(&mut self.input_buffer, key);
                    PromptAction::Done
                },
            },
            EditorInputMode::GotoLine => match key {
                Key::Esc => {
                    self.input_mode = EditorInputMode::Normal;
                    PromptAction::Done
                },
                Key::Enter => {
                    match crate::numfmt::parse_usize(self.input_buffer.as_str()) {
                        Some(n) => self.goto_line(n),
                        None => {},
                    }
                    self.input_mode = EditorInputMode::Normal;
                    PromptAction::Done
                },
                _ => {
                    crate::dialog::number_key(&mut self.input_buffer, key);
                    PromptAction::Done
                },
            },
        }
    }
}

} // verus!
