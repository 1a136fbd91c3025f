//! Help viewer: a set of topics with scrolling and topic history.

use vstd::prelude::*;

verus! {

/// Number of built-in help topics.
pub const HELP_TOPICS: usize = 12;

/// Help viewer state: the topics, the topic shown, its scroll offset, the
/// page height and the topics visited before, for going back.
#[derive(Debug)]
pub struct HelpViewer {
    pub topics: Vec<HelpTopic>,
    pub current_topic: usize,
    pub scroll: usize,
    pub visible_height: usize,
    pub history: Vec<usize>,
}

/// A help topic: a title, its lines of text and its cross-references.
#[derive(Debug, Clone)]
pub struct HelpTopic {
    pub title: String,
    pub content: Vec<String>,
    pub links: Vec<HelpLink>,
}

/// A cross-reference from a line of a topic to another topic.
#[derive(Debug, Clone)]
pub struct HelpLink {
    pub label: String,
    pub target_topic: usize,
    pub line: usize,
}

/// The first line shown of `len` lines at scroll offset `scroll`.
pub open spec fn first_shown(len: int, scroll: int) -> int {
    let last = if len > 0 { len - 1 } else { 0 };
    if scroll < last { scroll } else { last }
}

/// One past the last line shown of `len` lines on a page of `height`.
pub open spec fn end_shown(len: int, scroll: int, height: int) -> int {
    let e = first_shown(len, scroll) + height;
    if e < len { e } else { len }
}

/// The largest scroll offset: the line count less the page height, or 0.
pub open spec fn scroll_limit(len: int, height: int) -> int {
    if len > height { len - height } else { 0 }
}

/// Topic and history after asking for topic `index` of `n`: the current
/// topic is remembered and `index` shown, when there is such a topic.
pub open spec fn after_goto(cur: usize, hist: Seq<usize>, n: int, index: usize) -> (usize, Seq<usize>) {
    if index < n { (index, hist.push(cur)) } else { (cur, hist) }
}

/// Topic and history after going back: the last remembered topic is shown
/// again and forgotten, when there is one.
pub open spec fn after_back(cur: usize, hist: Seq<usize>) -> (usize, Seq<usize>) {
    if hist.len() > 0 { (hist.last(), hist.drop_last()) } else { (cur, hist) }
}

/// Going back after moving to another topic returns to the topic and
/// history from before the move.
pub proof fn lemma_back_undoes_goto(cur: usize, hist: Seq<usize>, n: int, index: usize)
    requires
        index < n,
    ensures
        after_back(after_goto(cur, hist, n, index).0, after_goto(cur, hist, n, index).1) == (cur, hist),
{
    assert(hist.push(cur).drop_last() =~= hist);
}

impl HelpViewer {
    /// The shown topic exists, and so does every topic in the history.
    pub open spec fn wf(&self) -> bool {
        &&& self.current_topic < self.topics.len()
        &&& forall|i: int| 0 <= i < self.history.len() ==> #[trigger] self.history[i] < self.topics.len()
    }

    /// The topics and the page height are those of `other`.
    pub open spec fn same_topics(&self, other: &HelpViewer) -> bool {
        &&& self.topics@ == other.topics@
        &&& self.visible_height == other.visible_height
    }

    /// A viewer on the contents topic with a page of 20 lines.
    pub fn new() -> (h: HelpViewer)
        ensures
            h.topics.len() == HELP_TOPICS,
            forall|i: int| 0 <= i < HELP_TOPICS ==> #[trigger] is_help_topic(h.topics[i], i),
            h.current_topic == 0,
            h.scroll == 0,
            h.visible_height == 20,
            h.history@ == Seq::<usize>::empty(),
            h.wf(),
    {
        let topics = build_help_topics();
        HelpViewer { topics, current_topic: 0, scroll: 0, visible_height: 20, history: Vec::new() }
    }

    /// The topic shown.
    pub fn current(&self) -> (t: &HelpTopic)
        requires
            self.current_topic < self.topics.len(),
        ensures
            *t == self.topics[self.current_topic as int],
    {
        &self.topics[self.current_topic]
    }

    /// The lines on screen: a page from the scroll offset, the offset kept
    /// below the last line.
    pub fn visible_lines(&self) -> (lines: &[String])
        requires
            self.current_topic < self.topics.len(),
            first_shown(self.topics[self.current_topic as int].content.len() as int, self.scroll as int)
                + self.visible_height <= usize::MAX,
        ensures
            ({
                let content = self.topics[self.current_topic as int].content@;
                let len = content.len() as int;
                lines@ == content.subrange(
                    first_shown(len, self.scroll as int),
                    end_shown(len, self.scroll as int, self.visible_height as int),
                )
            }),
    {
        let content = &self.topics[self.current_topic].content;
        let last = if content.len() > 0 { content.len() - 1 } else { 0 };
        let start = if self.scroll < last { self.scroll } else { last };
        let e = start + self.visible_height;
        let end = if e < content.len() { e } else { content.len() };
        vstd::slice::slice_subrange(content.as_slice(), start, end)
    }

    /// Scrolls one line down, up to the last page.
    pub fn scroll_down(&mut self)
        requires
            old(self).current_topic < old(self).topics.len(),
        ensures
            final(self).scroll == if old(self).scroll < scroll_limit(
                old(self).topics[old(self).current_topic as int].content.len() as int,
                old(self).visible_height as int,
            ) {
                old(self).scroll + 1
            } else {
                old(self).scroll as int
            },
            final(self).same_topics(old(self)),
            final(self).current_topic == old(self).current_topic,
            final(self).history@ == old(self).history@,
    {
        let len = self.topics[self.current_topic].content.len();
        let max = if len > self.visible_height { len - self.visible_height } else { 0 };
        if self.scroll < max {
            self.scroll = self.scroll + 1;
        }
    }

    /// Scrolls one line up.
    pub fn scroll_up(&mut self)
        ensures
            final(self).scroll == if old(self).scroll > 0 { old(self).scroll - 1 } else { 0 },
            final(self).same_topics(old(self)),
            final(self).current_topic == old(self).current_topic,
            final(self).history@ == old(self).history@,
    {
        if self.scroll > 0 {
            self.scroll = self.scroll - 1;
        }
    }

    /// Scrolls a page down, up to the last page.
    pub fn page_down(&mut self)
        requires
            old(self).current_topic < old(self).topics.len(),
            old(self).scroll + old(self).visible_height <= usize::MAX,
        ensures
            ({
                let max = scroll_limit(
                    old(self).topics[old(self).current_topic as int].content.len() as int,
                    old(self).visible_height as int,
                );
                let want = old(self).scroll + old(self).visible_height;
                final(self).scroll == if want < max { want } else { max }
            }),
            final(self).same_topics(old(self)),
            final(self).current_topic == old(self).current_topic,
            final(self).history@ == old(self).history@,
    {
        let len = self.topics[self.current_topic].content.len();
        let max = if len > self.visible_height { len - self.visible_height } else { 0 };
        let want = self.scroll + self.visible_height;
        self.scroll = if want < max { want } else { max };
    }

    /// Scrolls a page up.
    pub fn page_up(&mut self)
        ensures
            final(self).scroll == if old(self).scroll > old(self).visible_height {
                old(self).scroll - old(self).visible_height
            } else {
                0
            },
            final(self).same_topics(old(self)),
            final(self).current_topic == old(self).current_topic,
            final(self).history@ == old(self).history@,
    {
        self.scroll = if self.scroll > self.visible_height { self.scroll - self.visible_height } else { 0 };
    }

    /// Shows topic `index`, remembering the current one, when it exists.
    pub fn goto_topic(&mut self, index: usize)
        ensures
            (final(self).current_topic, final(self).history@) == after_goto(
                old(self).current_topic,
                old(self).history@,
                old(self).topics.len() as int,
                index,
            ),
            final(self).scroll == if index < old(self).topics.len() { 0 } else { old(self).scroll },
            final(self).same_topics(old(self)),
            old(self).wf() ==> final(self).wf(),
    {
        if index < self.topics.len() {
            self.history.push(self.current_topic);
            self.current_topic = index;
            self.scroll = 0;
        }
    }

    /// Shows the last remembered topic again, when there is one.
    pub fn go_back(&mut self)
        ensures
            (final(self).current_topic, final(self).history@) == after_back(old(self).current_topic, old(self).history@),
            final(self).scroll == if old(self).history.len() > 0 { 0 } else { old(self).scroll },
            final(self).same_topics(old(self)),
            old(self).wf() ==> final(self).wf(),
    {
        if let Some(prev) = self.history.pop() {
            self.current_topic = prev;
            self.scroll = 0;
        }
    }

    /// Shows the following topic, remembering the current one, when there
    /// is one.
    pub fn next_topic(&mut self)
        requires
            old(self).current_topic < usize::MAX,
        ensures
            (final(self).current_topic, final(self).history@) == after_goto(
                old(self).current_topic,
                old(self).history@,
                old(self).topics.len() as int,
                (old(self).current_topic + 1) as usize,
            ),
            final(self).scroll == if old(self).current_topic + 1 < old(self).topics.len() { 0 } else { old(self).scroll },
            final(self).same_topics(old(self)),
            old(self).wf() ==> final(self).wf(),
    {
        if self.current_topic + 1 < self.topics.len() {
            self.history.push(self.current_topic);
            self.current_topic = self.current_topic + 1;
            self.scroll = 0;
        }
    }

    /// Shows the preceding topic, remembering the current one, when there
    /// is one.
    pub fn prev_topic(&mut self)
        ensures
            old(self).current_topic > 0 ==> final(self).current_topic == old(self).current_topic - 1
                && final(self).history@ == old(self).history@.push(old(self).current_topic),
            old(self).current_topic == 0 ==> final(self).current_topic == 0 && final(self).history@ == old(self).history@,
            final(self).scroll == if old(self).current_topic > 0 { 0 } else { old(self).scroll },
            final(self).same_topics(old(self)),
            old(self).wf() ==> final(self).wf(),
    {
        if self.current_topic > 0 {
            self.history.push(self.current_topic);
            self.current_topic = self.current_topic - 1;
            self.scroll = 0;
        }
    }
}

/// The title of help topic `i`.
pub open spec fn help_title(i: int) -> Seq<char> {
    if i == 0 {
        "RDN Help — Table of Contents"@
    } else if i == 1 {
        "General Keys"@
    } else if i == 2 {
        "Panel Navigation"@
    } else if i == 3 {
        "File Operations"@
    } else if i == 4 {
        "Built-in Viewer"@
    } else if i == 5 {
        "Built-in Editor"@
    } else if i == 6 {
        "Menu System"@
    } else if i == 7 {
        "Archive Browser"@
    } else if i == 8 {
        "Utilities"@
    } else if i == 9 {
        "Command Line"@
    } else if i == 10 {
        "Configuration"@
    } else {
        "Quick Reference"@
    }
}

/// The lines of help topic `i`.
pub open spec fn help_text(i: int) -> Seq<Seq<char>> {
    if i == 0 {
        seq![
            "═══════════════════════════════════════════════════"@,
            "          RDN — Rust Dos Navigator                "@,
            "     A modern file manager inspired by DN 1.51    "@,
            "═══════════════════════════════════════════════════"@,
            ""@,
            " Use ← → to switch topics, ↑ ↓ PgUp PgDn to scroll."@,
            " Press Backspace to go back, Esc to close help."@,
            ""@,
            " Topics:"@,
            "  1. General Keys .......................... →"@,
            "  2. Panel Navigation ...................... →"@,
            "  3. File Operations ....................... →"@,
            "  4. Built-in Viewer ....................... →"@,
            "  5. Built-in Editor ....................... →"@,
            "  6. Menu System ........................... →"@,
            "  7. Archive Browser ....................... →"@,
            "  8. Utilities ............................. →"@,
            "  9. Command Line .......................... →"@,
            " 10. Configuration ......................... →"@,
            " 11. Quick Reference ....................... →"@,
            ""@,
        ]
    } else if i == 1 {
        seq![
            " ┌────────────────────────────────────────────────┐"@,
            " │              GENERAL KEYS                      │"@,
            " └────────────────────────────────────────────────┘"@,
            ""@,
            " F1          — This help screen"@,
            " F2          — User menu"@,
            " F3          — View file"@,
            " F4          — Edit file"@,
            " F5          — Copy file(s)"@,
            " F6          — Move/Rename file(s)"@,
            " F7          — Make directory"@,
            " F8          — Delete file(s)"@,
            " F9          — Open dropdown menu"@,
            " F10         — Quit (with confirmation)"@,
            " F11         — Panel filter (left)"@,
            " F12         — Panel filter (right)"@,
            ""@,
            " Tab         — Switch active panel"@,
            " Enter       — Enter dir / Open file"@,
            " Alt+X       — Quit immediately"@,
            " Ctrl+O      — Show user screen"@,
            " Ctrl+L      — Refresh display"@,
            " Ctrl+R      — Re-read panels"@,
            ""@,
            " Alt+F1      — Change drive (left panel)"@,
            " Alt+F2      — Change drive (right panel)"@,
            " Shift+F4    — Edit new file"@,
            " Shift+F6    — Quick rename"@,
            ""@,
        ]
    } else if i == 2 {
        seq![
            " ┌────────────────────────────────────────────────┐"@,
            " │            PANEL NAVIGATION                    │"@,
            " └────────────────────────────────────────────────┘"@,
            ""@,
            " ↑ / ↓       — Move cursor up/down"@,
            " PgUp / PgDn — Page up/down"@,
            " Home        — Jump to first file"@,
            " End         — Jump to last file"@,
            " Enter       — Enter directory / Open file"@,
            " Backspace   — Go to parent directory"@,
            ""@,
            " Alt+F7      — Find file"@,
            " Alt+F10     — Directory tree"@,
            " Alt+F12     — Directory history"@,
            ""@,
            " Ctrl+\\      — Go to root directory (/)"@,
            " Ctrl+F5     — Count directory sizes"@,
            " Ctrl+B      — Directory branch (flat listing)"@,
            " Ctrl+P      — Quick view toggle"@,
            " Ctrl+H      — Toggle hidden files"@,
            ""@,
            " Alt+1..9    — Quick directory bookmarks"@,
            " Ctrl+1..9   — Set directory bookmark"@,
            ""@,
            " Selection:"@,
            " Insert      — Toggle selection on current file"@,
            " Gray +      — Select files by pattern"@,
            " Gray -      — Unselect files by pattern"@,
            " Gray *      — Invert selection"@,
            ""@,
            " Quick Search:"@,
            " Alt+letter  — Quick search for file name"@,
            ""@,
            " Panel Mode:"@,
            " Ctrl+1      — Brief panel mode"@,
            " Ctrl+2      — Full panel mode"@,
            ""@,
        ]
    } else if i == 3 {
        seq![
            " ┌────────────────────────────────────────────────┐"@,
            " │            FILE OPERATIONS                     │"@,
            " └────────────────────────────────────────────────┘"@,
            ""@,
            " F5          — Copy selected files to other panel"@,
            " F6          — Move/Rename selected files"@,
            " F7          — Create new directory"@,
            " F8          — Delete selected files"@,
            " Shift+F6    — Quick rename (in-place)"@,
            " Ctrl+T      — Touch file (set current time)"@,
            " Ctrl+F      — Make file list"@,
            ""@,
            " File Attributes:"@,
            "  Available via menu: Files → Attributes"@,
            "  Toggle permission bits with Space"@,
            "  Navigate bits with ↑  ↓"@,
            "  Apply with Enter, cancel with Esc"@,
            ""@,
            " Split File:"@,
            "  Ctrl+F3    — Split file into chunks"@,
            "  Ctrl+F4    — Combine file chunks"@,
            ""@,
            " Compare Directories:"@,
            "  Alt+C      — Compare left and right panels"@,
            "  Files unique to one side are selected"@,
            "  Files with different sizes are selected"@,
            ""@,
        ]
    } else if i == 4 {
        seq![
            " ┌────────────────────────────────────────────────┐"@,
            " │             BUILT-IN VIEWER                    │"@,
            " └────────────────────────────────────────────────┘"@,
            ""@,
            " F3          — Open viewer for current file"@,
            " Esc / F10   — Close viewer"@,
            ""@,
            " Navigation:"@,
            " ↑ / ↓       — Scroll up/down one line"@,
            " PgUp / PgDn — Scroll one page"@,
            " Home        — Jump to beginning of file"@,
            " End         — Jump to end of file"@,
            ""@,
            " Modes:"@,
            " F4          — Toggle hex/text mode"@,
            " F2          — Toggle word wrap"@,
            ""@,
            " Search:"@,
            " F7 / Ctrl+F — Search for text"@,
            " Ctrl+N      — Find next match"@,
            ""@,
        ]
    } else if i == 5 {
        seq![
            " ┌────────────────────────────────────────────────┐"@,
            " │             BUILT-IN EDITOR                    │"@,
            " └────────────────────────────────────────────────┘"@,
            ""@,
            " F4          — Open editor for current file"@,
            " Shift+F4    — Open editor with new empty file"@,
            " Esc / F10   — Close editor (prompt save if modified)"@,
            " F2          — Save file"@,
            " Shift+F2    — Save as..."@,
            ""@,
            " Navigation:"@,
            " ↑ ↓ ← →     — Cursor movement"@,
            " Home / End  — Start/end of line"@,
            " PgUp / PgDn — Page up/down"@,
            " Ctrl+Home   — Start of file"@,
            " Ctrl+End    — End of file"@,
            " Ctrl+G      — Go to line number"@,
            ""@,
            " Editing:"@,
            " Insert      — Toggle insert/overwrite mode"@,
            " Delete      — Delete character under cursor"@,
            " Backspace   — Delete character before cursor"@,
            " Enter       — Insert new line (auto-indent)"@,
            " Tab         — Insert tab/spaces"@,
            ""@,
            " Selection & Clipboard:"@,
            " Shift+arrows — Select text"@,
            " Ctrl+C      — Copy selection"@,
            " Ctrl+X      — Cut selection"@,
            " Ctrl+V      — Paste from clipboard"@,
            " Ctrl+A      — Select all"@,
            ""@,
            " Search & Replace:"@,
            " Ctrl+F / F7 — Search"@,
            " Ctrl+H      — Search and replace"@,
            " Ctrl+N / F3 — Find next"@,
            ""@,
            " Undo/Redo:"@,
            " Ctrl+Z      — Undo"@,
            " Ctrl+Y      — Redo"@,
            ""@,
            " Macros:"@,
            " Ctrl+M      — Start/stop macro recording"@,
            " Ctrl+P      — Play recorded macro"@,
            ""@,
        ]
    } else if i == 6 {
        seq![
            " ┌────────────────────────────────────────────────┐"@,
            " │              MENU SYSTEM                       │"@,
            " └────────────────────────────────────────────────┘"@,
            ""@,
            " F9          — Open/activate dropdown menu"@,
            " ← / →       — Switch between menus"@,
            " ↑ / ↓       — Navigate menu items"@,
            " Enter       — Execute selected item"@,
            " Esc / F10   — Close menu"@,
            " First letter — Jump to menu item by hotkey"@,
            ""@,
            " Menu structure:"@,
            "  Left    — Left panel mode and sorting"@,
            "  Files   — File operations"@,
            "  Commands — Directory/navigation commands"@,
            "  Options — Settings, utilities, help"@,
            "  Right   — Right panel mode and sorting"@,
            ""@,
        ]
    } else if i == 7 {
        seq![
            " ┌────────────────────────────────────────────────┐"@,
            " │            ARCHIVE BROWSER                     │"@,
            " └────────────────────────────────────────────────┘"@,
            ""@,
            " Supported formats: ZIP, TAR, TAR.GZ"@,
            ""@,
            " Enter an archive file (press Enter on it) to"@,
            " browse its contents."@,
            ""@,
            " Navigation:"@,
            " ↑ / ↓       — Move cursor"@,
            " PgUp / PgDn — Page up/down"@,
            " Enter       — Enter sub-directory / View file"@,
            " Backspace   — Go up one directory level"@,
            " Esc         — Close archive browser"@,
            " F3          — View selected file"@,
            " F5          — Extract to disk"@,
            ""@,
        ]
    } else if i == 8 {
        seq![
            " ┌────────────────────────────────────────────────┐"@,
            " │              UTILITIES                         │"@,
            " └────────────────────────────────────────────────┘"@,
            ""@,
            " Calculator (Ctrl+K):"@,
            "  Type expression and press Enter to evaluate."@,
            "  Supports: + - * / ^ ( ) sqrt sin cos"@,
            "  M+ to store result, MR to recall."@,
            ""@,
            " ASCII Table (Alt+F9):"@,
            "  Browse all 256 ASCII characters."@,
            "  Navigate with arrow keys."@,
            ""@,
            " Disk Info (Alt+I):"@,
            "  Shows disk usage for current directory."@,
            "  Total, used, and available space."@,
            ""@,
            " Tetris (Ctrl+G):"@,
            "  Classic Tetris game built-in."@,
            "  Use arrow keys to move, Up to rotate."@,
            "  Space to drop immediately."@,
            ""@,
            " System Info (Ctrl+I):"@,
            "  Shows system information: OS, CPU, memory."@,
            ""@,
            " Environment Variables (Ctrl+E):"@,
            "  Browse all environment variables."@,
            "  Navigate with arrow keys."@,
            ""@,
            " Screen Saver:"@,
            "  Activates after inactivity. Press any key."@,
            ""@,
        ]
    } else if i == 9 {
        seq![
            " ┌────────────────────────────────────────────────┐"@,
            " │            COMMAND LINE                        │"@,
            " └────────────────────────────────────────────────┘"@,
            ""@,
            " The command line is at the bottom of the screen."@,
            " Start typing to enter command line mode."@,
            ""@,
            " Enter       — Execute the command"@,
            " Esc         — Cancel and return to panels"@,
            ""@,
            " Commands are executed in the current panel's"@,
            " directory using the system shell (sh -c)."@,
            ""@,
            " After execution, the output is displayed and"@,
            " you're prompted to press any key to return."@,
            ""@,
            " Ctrl+O      — Toggle user screen (show last"@,
            "                command output without leaving)"@,
            ""@,
        ]
    } else if i == 10 {
        seq![
            " ┌────────────────────────────────────────────────┐"@,
            " │            CONFIGURATION                       │"@,
            " └────────────────────────────────────────────────┘"@,
            ""@,
            " Desktop Save/Load:"@,
            "  Options → Save desktop   — saves panel state"@,
            "  Options → Load desktop   — restores panel state"@,
            "  Config file: ~/.config/rdn/config.toml"@,
            ""@,
            " Saved settings:"@,
            "  - Left and right panel paths"@,
            "  - Sort modes for each panel"@,
            "  - Panel display modes (Brief/Full)"@,
            "  - Show hidden files"@,
            "  - Editor settings (tab size, etc.)"@,
            ""@,
            " User Menu:"@,
            "  Create ~/.config/rdn/menu.txt with entries:"@,
            "  Format: label=command"@,
            "  Example:"@,
            "    Git Status=git status"@,
            "    Git Log=git log --oneline -20"@,
            "    Disk Usage=du -sh *"@,
            ""@,
            " File Associations (~/.config/rdn/assoc.txt):"@,
            "  Format: .ext=command %f"@,
            "  %f = current file, %d = current directory"@,
            "  %n = filename without extension"@,
            "  Example:"@,
            "    .pdf=open %f"@,
            "    .jpg=open %f"@,
            "    .py=python3 %f"@,
            ""@,
            " Directory Bookmarks:"@,
            "  Ctrl+1..9  — Set bookmark to current dir"@,
            "  Alt+1..9   — Jump to bookmarked directory"@,
            ""@,
        ]
    } else {
        seq![
            " ┌────────────────────────────────────────────────┐"@,
            " │            QUICK REFERENCE                     │"@,
            " └────────────────────────────────────────────────┘"@,
            ""@,
            " ─── Function Keys ────────────────────────────── "@,
            " F1  Help        F2  UserMenu   F3  View"@,
            " F4  Edit        F5  Copy       F6  Move"@,
            " F7  MkDir       F8  Delete     F9  Menu"@,
            " F10 Quit"@,
            ""@,
            " ─── Shift+Function Keys ──────────────────────── "@,
            " Shift+F4 Edit new    Shift+F6 Quick rename"@,
            ""@,
            " ─── Alt+Function Keys ────────────────────────── "@,
            " Alt+F1  Change drive left"@,
            " Alt+F2  Change drive right"@,
            " Alt+F7  Find file       Alt+F9  ASCII table"@,
            " Alt+F10 Directory tree  Alt+F12 Dir history"@,
            ""@,
            " ─── Ctrl Keys ────────────────────────────────── "@,
            " Ctrl+B  Branch     Ctrl+C  Copy (editor)"@,
            " Ctrl+E  Env vars   Ctrl+F  File list / Search"@,
            " Ctrl+G  Tetris     Ctrl+H  Hidden files"@,
            " Ctrl+I  Sys info   Ctrl+K  Calculator"@,
            " Ctrl+L  Refresh    Ctrl+O  User screen"@,
            " Ctrl+P  Quick view Ctrl+R  Re-read panels"@,
            " Ctrl+S  Sync panels Ctrl+T Touch file"@,
            " Ctrl+U  Swap panels"@,
            ""@,
            " ─── Alt Keys ─────────────────────────────────── "@,
            " Alt+C   Compare dirs   Alt+I  Disk info"@,
            " Alt+X   Quit           Alt+1..9 Bookmarks"@,
            ""@,
            " ─── Selection ────────────────────────────────── "@,
            " Insert  Toggle select"@,
            " +       Select pattern   -  Unselect pattern"@,
            " *       Invert selection"@,
            ""@,
            " ─── Split/Combine ────────────────────────────── "@,
            " Ctrl+F3 Split file   Ctrl+F4 Combine parts"@,
            ""@,
        ]
    }
}

/// The lines of a topic as texts.
pub open spec fn topic_lines(t: HelpTopic) -> Seq<Seq<char>> {
    t.content@.map_values(|s: String| s@)
}

/// Topic `i` is the built-in one: its title and lines, and no links.
pub open spec fn is_help_topic(t: HelpTopic, i: int) -> bool {
    &&& t.title@ == help_title(i)
    &&& topic_lines(t) == help_text(i)
    &&& t.links@.len() == 0
}

/// Built-in help topic 0.
fn help_topic_0() -> (t: HelpTopic)
    ensures
        is_help_topic(t, 0),
{
    let content = vec![
        "═══════════════════════════════════════════════════".to_string(),
        "          RDN — Rust Dos Navigator                ".to_string(),
        "     A modern file manager inspired by DN 1.51    ".to_string(),
        "═══════════════════════════════════════════════════".to_string(),
        "".to_string(),
        " Use ← → to switch topics, ↑ ↓ PgUp PgDn to scroll.".to_string(),
        " Press Backspace to go back, Esc to close help.".to_string(),
        "".to_string(),
        " Topics:".to_string(),
        "  1. General Keys .......................... →".to_string(),
        "  2. Panel Navigation ...................... →".to_string(),
        "  3. File Operations ....................... →".to_string(),
        "  4. Built-in Viewer ....................... →".to_string(),
        "  5. Built-in Editor ....................... →".to_string(),
        "  6. Menu System ........................... →".to_string(),
        "  7. Archive Browser ....................... →".to_string(),
        "  8. Utilities ............................. →".to_string(),
        "  9. Command Line .......................... →".to_string(),
        " 10. Configuration ......................... →".to_string(),
        " 11. Quick Reference ....................... →".to_string(),
        "".to_string(),
    ];
    let t = HelpTopic { title: "RDN Help — Table of Contents".to_string(), content, links: vec![] };
    assert(topic_lines(t) =~= help_text(0));
    t
}

/// Built-in help topic 1.
fn help_topic_1() -> (t: HelpTopic)
    ensures
        is_help_topic(t, 1),
{
    let content = vec![
        " ┌────────────────────────────────────────────────┐".to_string(),
        " │              GENERAL KEYS                      │".to_string(),
        " └────────────────────────────────────────────────┘".to_string(),
        "".to_string(),
        " F1          — This help screen".to_string(),
        " F2          — User menu".to_string(),
        " F3          — View file".to_string(),
        " F4          — Edit file".to_string(),
        " F5          — Copy file(s)".to_string(),
        " F6          — Move/Rename file(s)".to_string(),
        " F7          — Make directory".to_string(),
        " F8          — Delete file(s)".to_string(),
        " F9          — Open dropdown menu".to_string(),
        " F10         — Quit (with confirmation)".to_string(),
        " F11         — Panel filter (left)".to_string(),
        " F12         — Panel filter (right)".to_string(),
        "".to_string(),
        " Tab         — Switch active panel".to_string(),
        " Enter       — Enter dir / Open file".to_string(),
        " Alt+X       — Quit immediately".to_string(),
        " Ctrl+O      — Show user screen".to_string(),
        " Ctrl+L      — Refresh display".to_string(),
        " Ctrl+R      — Re-read panels".to_string(),
        "".to_string(),
        " Alt+F1      — Change drive (left panel)".to_string(),
        " Alt+F2      — Change drive (right panel)".to_string(),
        " Shift+F4    — Edit new file".to_string(),
        " Shift+F6    — Quick rename".to_string(),
        "".to_string(),
    ];
    let t = HelpTopic { title: "General Keys".to_string(), content, links: vec![] };
    assert(topic_lines(t) =~= help_text(1));
    t
}

/// Built-in help topic 2.
fn help_topic_2() -> (t: HelpTopic)
    ensures
        is_help_topic(t, 2),
{
    let content = vec![
        " ┌────────────────────────────────────────────────┐".to_string(),
        " │            PANEL NAVIGATION                    │".to_string(),
        " └────────────────────────────────────────────────┘".to_string(),
        "".to_string(),
        " ↑ / ↓       — Move cursor up/down".to_string(),
        " PgUp / PgDn — Page up/down".to_string(),
        " Home        — Jump to first file".to_string(),
        " End         — Jump to last file".to_string(),
        " Enter       — Enter directory / Open file".to_string(),
        " Backspace   — Go to parent directory".to_string(),
        "".to_string(),
        " Alt+F7      — Find file".to_string(),
        " Alt+F10     — Directory tree".to_string(),
        " Alt+F12     — Directory history".to_string(),
        "".to_string(),
        " Ctrl+\\      — Go to root directory (/)".to_string(),
        " Ctrl+F5     — Count directory sizes".to_string(),
        " Ctrl+B      — Directory branch (flat listing)".to_string(),
        " Ctrl+P      — Quick view toggle".to_string(),
        " Ctrl+H      — Toggle hidden files".to_string(),
        "".to_string(),
        " Alt+1..9    — Quick directory bookmarks".to_string(),
        " Ctrl+1..9   — Set directory bookmark".to_string(),
        "".to_string(),
        " Selection:".to_string(),
        " Insert      — Toggle selection on current file".to_string(),
        " Gray +      — Select files by pattern".to_string(),
        " Gray -      — Unselect files by pattern".to_string(),
        " Gray *      — Invert selection".to_string(),
        "".to_string(),
        " Quick Search:".to_string(),
        " Alt+letter  — Quick search for file name".to_string(),
        "".to_string(),
        " Panel Mode:".to_string(),
        " Ctrl+1      — Brief panel mode".to_string(),
        " Ctrl+2      — Full panel mode".to_string(),
        "".to_string(),
    ];
    let t = HelpTopic { title: "Panel Navigation".to_string(), content, links: vec![] };
    assert(topic_lines(t) =~= help_text(2));
    t
}

/// Built-in help topic 3.
fn help_topic_3() -> (t: HelpTopic)
    ensures
        is_help_topic(t, 3),
{
    let content = vec![
        " ┌────────────────────────────────────────────────┐".to_string(),
        " │            FILE OPERATIONS                     │".to_string(),
        " └────────────────────────────────────────────────┘".to_string(),
        "".to_string(),
        " F5          — Copy selected files to other panel".to_string(),
        " F6          — Move/Rename selected files".to_string(),
        " F7          — Create new directory".to_string(),
        " F8          — Delete selected files".to_string(),
        " Shift+F6    — Quick rename (in-place)".to_string(),
        " Ctrl+T      — Touch file (set current time)".to_string(),
        " Ctrl+F      — Make file list".to_string(),
        "".to_string(),
        " File Attributes:".to_string(),
        "  Available via menu: Files → Attributes".to_string(),
        "  Toggle permission bits with Space".to_string(),
        "  Navigate bits with ↑  ↓".to_string(),
        "  Apply with Enter, cancel with Esc".to_string(),
        "".to_string(),
        " Split File:".to_string(),
        "  Ctrl+F3    — Split file into chunks".to_string(),
        "  Ctrl+F4    — Combine file chunks".to_string(),
        "".to_string(),
        " Compare Directories:".to_string(),
        "  Alt+C      — Compare left and right panels".to_string(),
        "  Files unique to one side are selected".to_string(),
        "  Files with different sizes are selected".to_string(),
        "".to_string(),
    ];
    let t = HelpTopic { title: "File Operations".to_string(), content, links: vec![] };
    assert(topic_lines(t) =~= help_text(3));
    t
}

/// Built-in help topic 4.
fn help_topic_4() -> (t: HelpTopic)
    ensures
        is_help_topic(t, 4),
{
    let content = vec![
        " ┌────────────────────────────────────────────────┐".to_string(),
        " │             BUILT-IN VIEWER                    │".to_string(),
        " └────────────────────────────────────────────────┘".to_string(),
        "".to_string(),
        " F3          — Open viewer for current file".to_string(),
        " Esc / F10   — Close viewer".to_string(),
        "".to_string(),
        " Navigation:".to_string(),
        " ↑ / ↓       — Scroll up/down one line".to_string(),
        " PgUp / PgDn — Scroll one page".to_string(),
        " Home        — Jump to beginning of file".to_string(),
        " End         — Jump to end of file".to_string(),
        "".to_string(),
        " Modes:".to_string(),
        " F4          — Toggle hex/text mode".to_string(),
        " F2          — Toggle word wrap".to_string(),
        "".to_string(),
        " Search:".to_string(),
        " F7 / Ctrl+F — Search for text".to_string(),
        " Ctrl+N      — Find next match".to_string(),
        "".to_string(),
    ];
    let t = HelpTopic { title: "Built-in Viewer".to_string(), content, links: vec![] };
    assert(topic_lines(t) =~= help_text(4));
    t
}

/// Built-in help topic 5.
fn help_topic_5() -> (t: HelpTopic)
    ensures
        is_help_topic(t, 5),
{
    let content = vec![
        " ┌────────────────────────────────────────────────┐".to_string(),
        " │             BUILT-IN EDITOR                    │".to_string(),
        " └────────────────────────────────────────────────┘".to_string(),
        "".to_string(),
        " F4          — Open editor for current file".to_string(),
        " Shift+F4    — Open editor with new empty file".to_string(),
        " Esc / F10   — Close editor (prompt save if modified)".to_string(),
        " F2          — Save file".to_string(),
        " Shift+F2    — Save as...".to_string(),
        "".to_string(),
        " Navigation:".to_string(),
        " ↑ ↓ ← →     — Cursor movement".to_string(),
        " Home / End  — Start/end of line".to_string(),
        " PgUp / PgDn — Page up/down".to_string(),
        " Ctrl+Home   — Start of file".to_string(),
        " Ctrl+End    — End of file".to_string(),
        " Ctrl+G      — Go to line number".to_string(),
        "".to_string(),
        " Editing:".to_string(),
        " Insert      — Toggle insert/overwrite mode".to_string(),
        " Delete      — Delete character under cursor".to_string(),
        " Backspace   — Delete character before cursor".to_string(),
        " Enter       — Insert new line (auto-indent)".to_string(),
        " Tab         — Insert tab/spaces".to_string(),
        "".to_string(),
        " Selection & Clipboard:".to_string(),
        " Shift+arrows — Select text".to_string(),
        " Ctrl+C      — Copy selection".to_string(),
        " Ctrl+X      — Cut selection".to_string(),
        " Ctrl+V      — Paste from clipboard".to_string(),
        " Ctrl+A      — Select all".to_string(),
        "".to_string(),
        " Search & Replace:".to_string(),
        " Ctrl+F / F7 — Search".to_string(),
        " Ctrl+H      — Search and replace".to_string(),
        " Ctrl+N / F3 — Find next".to_string(),
        "".to_string(),
        " Undo/Redo:".to_string(),
        " Ctrl+Z      — Undo".to_string(),
        " Ctrl+Y      — Redo".to_string(),
        "".to_string(),
        " Macros:".to_string(),
        " Ctrl+M      — Start/stop macro recording".to_string(),
        " Ctrl+P      — Play recorded macro".to_string(),
        "".to_string(),
    ];
    let t = HelpTopic { title: "Built-in Editor".to_string(), content, links: vec![] };
    assert(topic_lines(t) =~= help_text(5));
    t
}

/// Built-in help topic 6.
fn help_topic_6() -> (t: HelpTopic)
    ensures
        is_help_topic(t, 6),
{
    let content = vec![
        " ┌────────────────────────────────────────────────┐".to_string(),
        " │              MENU SYSTEM                       │".to_string(),
        " └────────────────────────────────────────────────┘".to_string(),
        "".to_string(),
        " F9          — Open/activate dropdown menu".to_string(),
        " ← / →       — Switch between menus".to_string(),
        " ↑ / ↓       — Navigate menu items".to_string(),
        " Enter       — Execute selected item".to_string(),
        " Esc / F10   — Close menu".to_string(),
        " First letter — Jump to menu item by hotkey".to_string(),
        "".to_string(),
        " Menu structure:".to_string(),
        "  Left    — Left panel mode and sorting".to_string(),
        "  Files   — File operations".to_string(),
        "  Commands — Directory/navigation commands".to_string(),
        "  Options — Settings, utilities, help".to_string(),
        "  Right   — Right panel mode and sorting".to_string(),
        "".to_string(),
    ];
    let t = HelpTopic { title: "Menu System".to_string(), content, links: vec![] };
    assert(topic_lines(t) =~= help_text(6));
    t
}

/// Built-in help topic 7.
fn help_topic_7() -> (t: HelpTopic)
    ensures
        is_help_topic(t, 7),
{
    let content = vec![
        " ┌────────────────────────────────────────────────┐".to_string(),
        " │            ARCHIVE BROWSER                     │".to_string(),
        " └────────────────────────────────────────────────┘".to_string(),
        "".to_string(),
        " Supported formats: ZIP, TAR, TAR.GZ".to_string(),
        "".to_string(),
        " Enter an archive file (press Enter on it) to".to_string(),
        " browse its contents.".to_string(),
        "".to_string(),
        " Navigation:".to_string(),
        " ↑ / ↓       — Move cursor".to_string(),
        " PgUp / PgDn — Page up/down".to_string(),
        " Enter       — Enter sub-directory / View file".to_string(),
        " Backspace   — Go up one directory level".to_string(),
        " Esc         — Close archive browser".to_string(),
        " F3          — View selected file".to_string(),
        " F5          — Extract to disk".to_string(),
        "".to_string(),
    ];
    let t = HelpTopic { title: "Archive Browser".to_string(), content, links: vec![] };
    assert(topic_lines(t) =~= help_text(7));
    t
}

/// Built-in help topic 8.
fn help_topic_8() -> (t: HelpTopic)
    ensures
        is_help_topic(t, 8),
{
    let content = vec![
        " ┌────────────────────────────────────────────────┐".to_string(),
        " │              UTILITIES                         │".to_string(),
        " └────────────────────────────────────────────────┘".to_string(),
        "".to_string(),
        " Calculator (Ctrl+K):".to_string(),
        "  Type expression and press Enter to evaluate.".to_string(),
        "  Supports: + - * / ^ ( ) sqrt sin cos".to_string(),
        "  M+ to store result, MR to recall.".to_string(),
        "".to_string(),
        " ASCII Table (Alt+F9):".to_string(),
        "  Browse all 256 ASCII characters.".to_string(),
        "  Navigate with arrow keys.".to_string(),
        "".to_string(),
        " Disk Info (Alt+I):".to_string(),
        "  Shows disk usage for current directory.".to_string(),
        "  Total, used, and available space.".to_string(),
        "".to_string(),
        " Tetris (Ctrl+G):".to_string(),
        "  Classic Tetris game built-in.".to_string(),
        "  Use arrow keys to move, Up to rotate.".to_string(),
        "  Space to drop immediately.".to_string(),
        "".to_string(),
        " System Info (Ctrl+I):".to_string(),
        "  Shows system information: OS, CPU, memory.".to_string(),
        "".to_string(),
        " Environment Variables (Ctrl+E):".to_string(),
        "  Browse all environment variables.".to_string(),
        "  Navigate with arrow keys.".to_string(),
        "".to_string(),
        " Screen Saver:".to_string(),
        "  Activates after inactivity. Press any key.".to_string(),
        "".to_string(),
    ];
    let t = HelpTopic { title: "Utilities".to_string(), content, links: vec![] };
    assert(topic_lines(t) =~= help_text(8));
    t
}

/// Built-in help topic 9.
fn help_topic_9() -> (t: HelpTopic)
    ensures
        is_help_topic(t, 9),
{
    let content = vec![
        " ┌────────────────────────────────────────────────┐".to_string(),
        " │            COMMAND LINE                        │".to_string(),
        " └────────────────────────────────────────────────┘".to_string(),
        "".to_string(),
        " The command line is at the bottom of the screen.".to_string(),
        " Start typing to enter command line mode.".to_string(),
        "".to_string(),
        " Enter       — Execute the command".to_string(),
        " Esc         — Cancel and return to panels".to_string(),
        "".to_string(),
        " Commands are executed in the current panel's".to_string(),
        " directory using the system shell (sh -c).".to_string(),
        "".to_string(),
        " After execution, the output is displayed and".to_string(),
        " you're prompted to press any key to return.".to_string(),
        "".to_string(),
        " Ctrl+O      — Toggle user screen (show last".to_string(),
        "                command output without leaving)".to_string(),
        "".to_string(),
    ];
    let t = HelpTopic { title: "Command Line".to_string(), content, links: vec![] };
    assert(topic_lines(t) =~= help_text(9));
    t
}

/// Built-in help topic 10.
fn help_topic_10() -> (t: HelpTopic)
    ensures
        is_help_topic(t, 10),
{
    let content = vec![
        " ┌────────────────────────────────────────────────┐".to_string(),
        " │            CONFIGURATION                       │".to_string(),
        " └────────────────────────────────────────────────┘".to_string(),
        "".to_string(),
        " Desktop Save/Load:".to_string(),
        "  Options → Save desktop   — saves panel state".to_string(),
        "  Options → Load desktop   — restores panel state".to_string(),
        "  Config file: ~/.config/rdn/config.toml".to_string(),
        "".to_string(),
        " Saved settings:".to_string(),
        "  - Left and right panel paths".to_string(),
        "  - Sort modes for each panel".to_string(),
        "  - Panel display modes (Brief/Full)".to_string(),
        "  - Show hidden files".to_string(),
        "  - Editor settings (tab size, etc.)".to_string(),
        "".to_string(),
        " User Menu:".to_string(),
        "  Create ~/.config/rdn/menu.txt with entries:".to_string(),
        "  Format: label=command".to_string(),
        "  Example:".to_string(),
        "    Git Status=git status".to_string(),
        "    Git Log=git log --oneline -20".to_string(),
        "    Disk Usage=du -sh *".to_string(),
        "".to_string(),
        " File Associations (~/.config/rdn/assoc.txt):".to_string(),
        "  Format: .ext=command %f".to_string(),
        "  %f = current file, %d = current directory".to_string(),
        "  %n = filename without extension".to_string(),
        "  Example:".to_string(),
        "    .pdf=open %f".to_string(),
        "    .jpg=open %f".to_string(),
        "    .py=python3 %f".to_string(),
        "".to_string(),
        " Directory Bookmarks:".to_string(),
        "  Ctrl+1..9  — Set bookmark to current dir".to_string(),
        "  Alt+1..9   — Jump to bookmarked directory".to_string(),
        "".to_string(),
    ];
    let t = HelpTopic { title: "Configuration".to_string(), content, links: vec![] };
    assert(topic_lines(t) =~= help_text(10));
    t
}

/// Built-in help topic 11.
fn help_topic_11() -> (t: HelpTopic)
    ensures
        is_help_topic(t, 11),
{
    let content = vec![
        " ┌────────────────────────────────────────────────┐".to_string(),
        " │            QUICK REFERENCE                     │".to_string(),
        " └────────────────────────────────────────────────┘".to_string(),
        "".to_string(),
        " ─── Function Keys ────────────────────────────── ".to_string(),
        " F1  Help        F2  UserMenu   F3  View".to_string(),
        " F4  Edit        F5  Copy       F6  Move".to_string(),
        " F7  MkDir       F8  Delete     F9  Menu".to_string(),
        " F10 Quit".to_string(),
        "".to_string(),
        " ─── Shift+Function Keys ──────────────────────── ".to_string(),
        " Shift+F4 Edit new    Shift+F6 Quick rename".to_string(),
        "".to_string(),
        " ─── Alt+Function Keys ────────────────────────── ".to_string(),
        " Alt+F1  Change drive left".to_string(),
        " Alt+F2  Change drive right".to_string(),
        " Alt+F7  Find file       Alt+F9  ASCII table".to_string(),
        " Alt+F10 Directory tree  Alt+F12 Dir history".to_string(),
        "".to_string(),
        " ─── Ctrl Keys ────────────────────────────────── ".to_string(),
        " Ctrl+B  Branch     Ctrl+C  Copy (editor)".to_string(),
        " Ctrl+E  Env vars   Ctrl+F  File list / Search".to_string(),
        " Ctrl+G  Tetris     Ctrl+H  Hidden files".to_string(),
        " Ctrl+I  Sys info   Ctrl+K  Calculator".to_string(),
        " Ctrl+L  Refresh    Ctrl+O  User screen".to_string(),
        " Ctrl+P  Quick view Ctrl+R  Re-read panels".to_string(),
        " Ctrl+S  Sync panels Ctrl+T Touch file".to_string(),
        " Ctrl+U  Swap panels".to_string(),
        "".to_string(),
        " ─── Alt Keys ─────────────────────────────────── ".to_string(),
        " Alt+C   Compare dirs   Alt+I  Disk info".to_string(),
        " Alt+X   Quit           Alt+1..9 Bookmarks".to_string(),
        "".to_string(),
        " ─── Selection ────────────────────────────────── ".to_string(),
        " Insert  Toggle select".to_string(),
        " +       Select pattern   -  Unselect pattern".to_string(),
        " *       Invert selection".to_string(),
        "".to_string(),
        " ─── Split/Combine ────────────────────────────── ".to_string(),
        " Ctrl+F3 Split file   Ctrl+F4 Combine parts".to_string(),
        "".to_string(),
    ];
    let t = HelpTopic { title: "Quick Reference".to_string(), content, links: vec![] };
    assert(topic_lines(t) =~= help_text(11));
    t
}

/// The built-in help topics, in order: contents, general keys, panels,
/// file operations, viewer, editor, menus, archives, utilities, command
/// line, configuration and a quick reference; each with the title and
/// lines of `help_title` and `help_text` and no links.
fn build_help_topics() -> (topics: Vec<HelpTopic>)
    ensures
        topics.len() == HELP_TOPICS,
        forall|i: int| 0 <= i < topics.len() ==> #[trigger] is_help_topic(topics[i], i),
        forall|i: int| 0 <= i < topics.len() ==> #[trigger] topics[i].content.len() > 0,
{
    let topics = vec![
        help_topic_0(),
        help_topic_1(),
        help_topic_2(),
        help_topic_3(),
        help_topic_4(),
        help_topic_5(),
        help_topic_6(),
        help_topic_7(),
        help_topic_8(),
        help_topic_9(),
        help_topic_10(),
        help_topic_11(),
    ];
    assert(forall|i: int| 0 <= i < 12 ==> #[trigger] topics[i].content.len() == help_text(i).len());
    topics
}

} // verus!
