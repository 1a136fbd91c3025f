//! File viewer: text lines or a hex dump of a file's bytes, with scrolling
//! and a case-insensitive search.

use vstd::prelude::*;
use crate::numfmt::{hex_upper, pad_left, push_padded};
use crate::text::{chars_of, lines_of, lossy_text, lowercase, push_char, split_lines, to_lower, utf8_lossy};

verus! {

/// Viewer display mode.
#[derive(Debug, Clone, Copy, PartialEq, Eq, Structural)]
pub enum ViewerMode {
    Text,
    Hex,
}

/// File viewer state.
pub struct Viewer {
    pub path: String,
    pub mode: ViewerMode,
    pub lines: Vec<String>,
    pub raw_data: Vec<u8>,
    pub scroll_offset: usize,
    pub horizontal_offset: usize,
    pub wrap: bool,
    pub file_size: u64,
    pub visible_height: usize,
    pub visible_width: usize,
    pub search_query: Option<String>,
    /// Matches as (line, byte column in the lower-cased line).
    pub search_matches: Vec<(usize, usize)>,
    pub current_match: usize,
}

/// A zero byte among the first 8192 bytes marks a file as binary.
pub open spec fn looks_binary(data: Seq<u8>) -> bool {
    exists|i: int| 0 <= i < data.len() && i < 8192 && data[i] == 0
}

/// How a file is told to be binary: a zero byte anywhere among its first
/// 8192 bytes makes it binary (the viewer opens it as a hex dump); a file
/// without zero bytes is text; and what comes after the first 8192 bytes
/// never matters.
pub proof fn lemma_binary_detection(data: Seq<u8>)
    ensures
        forall|k: int| 0 <= k < data.len() && k < 8192 && #[trigger] data[k] == 0 ==> looks_binary(data),
        (forall|k: int| 0 <= k < data.len() ==> #[trigger] data[k] != 0) ==> !looks_binary(data),
        forall|more: Seq<u8>| data.len() >= 8192 ==> looks_binary(#[trigger] (data + more)) == looks_binary(data),
{
    assert forall|more: Seq<u8>| data.len() >= 8192 implies looks_binary(#[trigger] (data + more)) == looks_binary(data) by {
        if looks_binary(data + more) {
            let k = choose|k: int| 0 <= k < (data + more).len() && k < 8192 && (data + more)[k] == 0;
            assert(data[k] == 0);
        }
        if looks_binary(data) {
            let k = choose|k: int| 0 <= k < data.len() && k < 8192 && data[k] == 0;
            assert((data + more)[k] == 0);
        }
    }
}

/// The lines of a file's text: its lossy UTF-8 decoding split as
/// `str::lines` splits, or one empty line when that gives none.
pub open spec fn text_lines(data: Seq<u8>) -> Seq<Seq<char>> {
    let ls = split_lines(lossy_text(data));
    if ls.len() == 0 { seq![Seq::<char>::empty()] } else { ls }
}

/// `a - b`, or 0 when `b` is larger.
pub open spec fn sat_sub(a: int, b: int) -> int {
    if a > b { a - b } else { 0 }
}

/// The smaller of two integers.
pub open spec fn min_int(a: int, b: int) -> int {
    if a < b { a } else { b }
}

/// A byte in two upper-case hex digits (`{:02X}`).
pub open spec fn hex2(b: u8) -> Seq<char> {
    pad_left(hex_upper(b as nat), 2, '0')
}

/// Column `j` (0-15) of the hex part of a dump row: a byte and a space, or
/// three spaces past the chunk's end, with one more space before column 8.
pub open spec fn hex_cell(chunk: Seq<u8>, j: int) -> Seq<char> {
    let gap: Seq<char> = if j == 8 { seq![' '] } else { Seq::empty() };
    if j < chunk.len() {
        gap + hex2(chunk[j]) + seq![' ']
    } else {
        gap + seq![' ', ' ', ' ']
    }
}

/// The hex part of a dump row from column `j` on.
pub open spec fn hex_cells(chunk: Seq<u8>, j: int) -> Seq<char>
    decreases 16 - j,
{
    if j >= 16 || j < 0 {
        Seq::empty()
    } else {
        hex_cell(chunk, j) + hex_cells(chunk, j + 1)
    }
}

/// A byte in the text part of a dump: printable ASCII as itself, else `.`.
pub open spec fn ascii_char(b: u8) -> char {
    if 0x20 <= b <= 0x7E { b as char } else { '.' }
}

/// The bytes of the dump row at byte `offset`: 16 bytes, fewer at the end.
pub open spec fn row_chunk(data: Seq<u8>, offset: int) -> Seq<u8> {
    data.subrange(offset, min_int(offset + 16, data.len() as int))
}

/// A dump row at byte `offset`: the offset in eight hex digits, the hex
/// part and the text part.
pub open spec fn hex_row(data: Seq<u8>, offset: int) -> (Seq<char>, Seq<char>, Seq<char>) {
    let chunk = row_chunk(data, offset);
    (pad_left(hex_upper(offset as nat), 8, '0'), hex_cells(chunk, 0), chunk.map_values(|b: u8| ascii_char(b)))
}

/// How many dump rows there are from row `start` on, at most `count`.
pub open spec fn hex_row_count(len: int, start: int, count: int) -> int {
    min_int(count, sat_sub((len + 15) / 16, start))
}

/// Where a byte string occurs in another, from position `i` on, in order;
/// an empty one occurs at every position up to the end.
pub open spec fn occurrences_from(h: Seq<u8>, n: Seq<u8>, i: int) -> Seq<int>
    decreases h.len() + 1 - i,
{
    if i < 0 || i + n.len() > h.len() {
        Seq::empty()
    } else if h.subrange(i, i + n.len()) == n {
        seq![i] + occurrences_from(h, n, i + 1)
    } else {
        occurrences_from(h, n, i + 1)
    }
}

/// The UTF-8 bytes of the lower-case form of a text.
pub open spec fn lower_bytes(s: Seq<char>) -> Seq<u8> {
    vstd::utf8::encode_utf8(lowercase(s))
}

/// The matches of `q` in lines `from` on: (line, byte column) for every
/// place the lower-cased query occurs in a lower-cased line, line by line.
pub open spec fn matches_from(lines: Seq<Seq<char>>, q: Seq<char>, from: int) -> Seq<(usize, usize)>
    decreases lines.len() - from,
{
    if from < 0 || from >= lines.len() {
        Seq::empty()
    } else {
        occurrences_from(lower_bytes(lines[from]), lower_bytes(q), 0).map_values(
            |p: int| (from as usize, p as usize),
        ) + matches_from(lines, q, from + 1)
    }
}

/// The text of an optional string.
pub open spec fn opt_text(o: Option<String>) -> Option<Seq<char>> {
    match o {
        Some(q) => Some(q@),
        None => None,
    }
}

/// Whether `n` occurs in `h` at position `p`.
fn bytes_at(h: &[u8], n: &[u8], p: usize) -> (r: bool)
    requires
        p + n.len() <= h.len(),
    ensures
        r == (h@.subrange(p as int, p + n.len()) == n@),
{
    let mut k: usize = 0;
    while k < n.len()
        invariant
            k <= n.len(),
            p + n.len() <= h.len(),
            forall|j: int| 0 <= j < k ==> h@[p + j] == n@[j],
        decreases n.len() - k,
    {
        if h[p + k] != n[k] {
            assert(h@.subrange(p as int, p + n.len())[k as int] != n@[k as int]);
            return false;
        }
        k += 1;
    }
    assert(h@.subrange(p as int, p + n.len()) =~= n@);
    true
}

/// Where `n` occurs in `h` from position `i` on, left to right without
/// overlap (`str::match_indices`); nowhere for an empty `n`.
pub open spec fn match_starts(h: Seq<u8>, n: Seq<u8>, i: int) -> Seq<int>
    decreases h.len() + 1 - i,
{
    if n.len() == 0 || i < 0 || i + n.len() > h.len() {
        Seq::empty()
    } else if h.subrange(i, i + n.len()) == n {
        seq![i] + match_starts(h, n, i + n.len())
    } else {
        match_starts(h, n, i + 1)
    }
}

/// The byte ranges of the lower-cased `text` to highlight for a search
/// for `query`: each place the lower-cased query occurs, left to right
/// without overlap.
pub fn highlight_ranges(text: &str, query: &str) -> (r: Vec<(usize, usize)>)
    ensures
        r@ == match_starts(lower_bytes(text@), lower_bytes(query@), 0).map_values(
            |p: int| (p as usize, (p + lower_bytes(query@).len()) as usize),
        ),
{
    let tl = to_lower(text);
    let ql = to_lower(query);
    let h = tl.as_str().as_bytes();
    let n = ql.as_str().as_bytes();
    let ghost f = |p: int| (p as usize, (p + n@.len()) as usize);
    let mut r: Vec<(usize, usize)> = Vec::new();
    if n.len() == 0 || n.len() > h.len() {
        assert(match_starts(h@, n@, 0) =~= Seq::<int>::empty());
        assert(r@ =~= match_starts(h@, n@, 0).map_values(f));
        return r;
    }
    let last = h.len() - n.len();
    let mut p: usize = 0;
    while p <= last
        invariant
            last + n@.len() == h@.len(),
            h@.len() <= usize::MAX,
            n@.len() > 0,
            h@ == lower_bytes(text@),
            n@ == lower_bytes(query@),
            f == (|p: int| (p as usize, (p + n@.len()) as usize)),
            r@ + match_starts(h@, n@, p as int).map_values(f) == match_starts(h@, n@, 0).map_values(f),
        decreases h@.len() + 1 - p,
    {
        let ghost before = r@;
        if bytes_at(h, n, p) {
            r.push((p, p + n.len()));
            assert(match_starts(h@, n@, p as int) == seq![p as int] + match_starts(h@, n@, p + n@.len()));
            assert(r@ + match_starts(h@, n@, p + n@.len()).map_values(f)
                =~= before + match_starts(h@, n@, p as int).map_values(f));
            p = p + n.len();
        } else {
            assert(match_starts(h@, n@, p as int) == match_starts(h@, n@, p + 1));
            p = p + 1;
        }
    }
    assert(match_starts(h@, n@, p as int) =~= Seq::<int>::empty());
    assert(r@ =~= r@ + match_starts(h@, n@, p as int).map_values(f));
    r
}

impl Viewer {
    /// Everything but the position (scroll offset and current match) is as
    /// in `o`: file, mode, lines, data, column, wrapping, page size, query
    /// and matches.
    pub open spec fn keeps_content(&self, o: &Viewer) -> bool {
        &&& self.path == o.path
        &&& self.mode == o.mode
        &&& self.lines@ == o.lines@
        &&& self.raw_data@ == o.raw_data@
        &&& self.horizontal_offset == o.horizontal_offset
        &&& self.wrap == o.wrap
        &&& self.file_size == o.file_size
        &&& self.visible_height == o.visible_height
        &&& self.visible_width == o.visible_width
        &&& self.search_query == o.search_query
        &&& self.search_matches@ == o.search_matches@
    }

    /// The number of lines of the current mode: text lines, or 16-byte
    /// dump rows.
    pub open spec fn line_count(&self) -> int {
        match self.mode {
            ViewerMode::Text => self.lines.len() as int,
            ViewerMode::Hex => (self.raw_data.len() + 15) / 16,
        }
    }

    /// The count of lines of the current mode can be computed.
    pub open spec fn countable(&self) -> bool {
        self.mode == ViewerMode::Hex ==> self.raw_data.len() + 15 <= usize::MAX
    }

    /// The viewer of a file at `path` with contents `data` and size
    /// `file_size`: text mode unless a zero byte shows within the first
    /// 8192 bytes, at the top, 24 lines by 80 columns, nothing searched.
    pub fn from_bytes(path: String, data: Vec<u8>, file_size: u64) -> (v: Viewer)
        ensures
            v.path@ == path@,
            v.mode == if looks_binary(data@) { ViewerMode::Hex } else { ViewerMode::Text },
            v.lines.deep_view() == text_lines(data@),
            v.raw_data@ == data@,
            v.scroll_offset == 0,
            v.horizontal_offset == 0,
            !v.wrap,
            v.file_size == file_size,
            v.visible_height == 24,
            v.visible_width == 80,
            v.search_query is None,
            v.search_matches@ == Seq::<(usize, usize)>::empty(),
            v.current_match == 0,
    {
        let mut binary = false;
        let mut i: usize = 0;
        while i < data.len() && i < 8192
            invariant
                i <= data.len(),
                i <= 8192,
                binary == exists|j: int| 0 <= j < i && data@[j] == 0,
            decreases data.len() - i,
        {
            if data[i] == 0 {
                binary = true;
            }
            i += 1;
        }
        let text = utf8_lossy(data.as_slice());
        let chars = chars_of(text.as_str());
        let mut lines = lines_of(chars.as_slice());
        if lines.len() == 0 {
            lines.push(String::new());
            assert(lines.deep_view() =~= seq![Seq::<char>::empty()]);
        }
        Viewer {
            path,
            mode: if binary { ViewerMode::Hex } else { ViewerMode::Text },
            lines,
            raw_data: data,
            scroll_offset: 0,
            horizontal_offset: 0,
            wrap: false,
            file_size,
            visible_height: 24,
            visible_width: 80,
            search_query: None,
            search_matches: Vec::new(),
            current_match: 0,
        }
    }

    /// Switches between text and hex, back at the top left.
    pub fn toggle_mode(&mut self)
        ensures
            final(self).mode == match old(self).mode {
                ViewerMode::Text => ViewerMode::Hex,
                ViewerMode::Hex => ViewerMode::Text,
            },
            final(self).scroll_offset == 0,
            final(self).horizontal_offset == 0,
            final(self).wrap == old(self).wrap,
            final(self).lines@ == old(self).lines@,
            final(self).raw_data@ == old(self).raw_data@,
            final(self).visible_height == old(self).visible_height,
    {
        self.mode = match self.mode {
            ViewerMode::Text => ViewerMode::Hex,
            ViewerMode::Hex => ViewerMode::Text,
        };
        self.scroll_offset = 0;
        self.horizontal_offset = 0;
    }

    /// Turns line wrapping on or off.
    pub fn toggle_wrap(&mut self)
        ensures
            final(self).wrap == !old(self).wrap,
            final(self).mode == old(self).mode,
            final(self).scroll_offset == old(self).scroll_offset,
            final(self).horizontal_offset == old(self).horizontal_offset,
    {
        self.wrap = !self.wrap;
    }

    /// The number of lines of the current mode.
    pub fn total_lines(&self) -> (n: usize)
        requires
            self.countable(),
        ensures
            n == self.line_count(),
    {
        match self.mode {
            ViewerMode::Text => self.lines.len(),
            ViewerMode::Hex => (self.raw_data.len() + 15) / 16,
        }
    }

    /// Scrolls one line down, up to the last page.
    pub fn scroll_down(&mut self)
        requires
            old(self).countable(),
        ensures
            final(self).scroll_offset == if old(self).scroll_offset < sat_sub(
                old(self).line_count(),
                old(self).visible_height as int,
            ) {
                old(self).scroll_offset + 1
            } else {
                old(self).scroll_offset as int
            },
            final(self).mode == old(self).mode,
            final(self).horizontal_offset == old(self).horizontal_offset,
            final(self).keeps_content(&*old(self)),
            final(self).current_match == old(self).current_match,
    {
        let total = self.total_lines();
        let max = if total > self.visible_height { total - self.visible_height } else { 0 };
        if self.scroll_offset < max {
            self.scroll_offset = self.scroll_offset + 1;
        }
    }

    /// Scrolls one line up.
    pub fn scroll_up(&mut self)
        ensures
            final(self).scroll_offset == sat_sub(old(self).scroll_offset as int, 1),
            final(self).mode == old(self).mode,
            final(self).horizontal_offset == old(self).horizontal_offset,
            final(self).keeps_content(&*old(self)),
            final(self).current_match == old(self).current_match,
    {
        if self.scroll_offset > 0 {
            self.scroll_offset = self.scroll_offset - 1;
        }
    }

    /// Scrolls a page (one line less than the screen) down, up to the last
    /// page.
    pub fn page_down(&mut self)
        requires
            old(self).countable(),
            old(self).scroll_offset + old(self).visible_height <= usize::MAX,
        ensures
            final(self).scroll_offset == min_int(
                old(self).scroll_offset + sat_sub(old(self).visible_height as int, 1),
                sat_sub(old(self).line_count(), old(self).visible_height as int),
            ),
            final(self).mode == old(self).mode,
            final(self).horizontal_offset == old(self).horizontal_offset,
            final(self).keeps_content(&*old(self)),
            final(self).current_match == old(self).current_match,
    {
        let page = if self.visible_height > 1 { self.visible_height - 1 } else { 0 };
        let total = self.total_lines();
        let max = if total > self.visible_height { total - self.visible_height } else { 0 };
        let want = self.scroll_offset + page;
        self.scroll_offset = if want < max { want } else { max };
    }

    /// Scrolls a page up.
    pub fn page_up(&mut self)
        ensures
            final(self).scroll_offset == sat_sub(
                old(self).scroll_offset as int,
                sat_sub(old(self).visible_height as int, 1),
            ),
            final(self).mode == old(self).mode,
            final(self).horizontal_offset == old(self).horizontal_offset,
            final(self).keeps_content(&*old(self)),
            final(self).current_match == old(self).current_match,
    {
        let page = if self.visible_height > 1 { self.visible_height - 1 } else { 0 };
        self.scroll_offset = if self.scroll_offset > page { self.scroll_offset - page } else { 0 };
    }

    /// Back to the top left.
    pub fn scroll_home(&mut self)
        ensures
            final(self).scroll_offset == 0,
            final(self).horizontal_offset == 0,
            final(self).mode == old(self).mode,
    {
        self.scroll_offset = 0;
        self.horizontal_offset = 0;
    }

    /// To the last page.
    pub fn scroll_end(&mut self)
        requires
            old(self).countable(),
        ensures
            final(self).scroll_offset == sat_sub(old(self).line_count(), old(self).visible_height as int),
            final(self).horizontal_offset == old(self).horizontal_offset,
            final(self).mode == old(self).mode,
            final(self).keeps_content(&*old(self)),
            final(self).current_match == old(self).current_match,
    {
        let total = self.total_lines();
        self.scroll_offset = if total > self.visible_height { total - self.visible_height } else { 0 };
    }

    /// One column left.
    pub fn scroll_left(&mut self)
        ensures
            final(self).horizontal_offset == sat_sub(old(self).horizontal_offset as int, 1),
            final(self).scroll_offset == old(self).scroll_offset,
            final(self).mode == old(self).mode,
    {
        if self.horizontal_offset > 0 {
            self.horizontal_offset = self.horizontal_offset - 1;
        }
    }

    /// One column right.
    pub fn scroll_right(&mut self)
        requires
            old(self).horizontal_offset < usize::MAX,
        ensures
            final(self).horizontal_offset == old(self).horizontal_offset + 1,
            final(self).scroll_offset == old(self).scroll_offset,
            final(self).mode == old(self).mode,
    {
        self.horizontal_offset = self.horizontal_offset + 1;
    }

    /// The dump rows from row `start` on, at most `count` of them.
    pub fn hex_lines(&self, start: usize, count: usize) -> (rows: Vec<(String, String, String)>)
        requires
            count > 0 ==> start * 16 <= usize::MAX,
            self.raw_data.len() + 16 <= usize::MAX,
        ensures
            rows.len() == hex_row_count(self.raw_data.len() as int, start as int, count as int),
            forall|i: int| 0 <= i < rows.len() ==> {
                let row = #[trigger] rows@[i];
                (row.0@, row.1@, row.2@) == hex_row(self.raw_data@, (start + i) * 16)
            },
    {
        let data = &self.raw_data;
        let mut result: Vec<(String, String, String)> = Vec::new();
        let mut i: usize = 0;
        while i < count
            invariant_except_break
                i <= count,
                i > 0 ==> (start + i) * 16 < data.len() + 16,
                result.len() == i,
            invariant
                count > 0 ==> start * 16 <= usize::MAX,
                data.len() + 16 <= usize::MAX,
                result.len() <= i,
                forall|k: int| 0 <= k < result.len() ==> {
                    let row = #[trigger] result@[k];
                    (row.0@, row.1@, row.2@) == hex_row(data@, (start + k) * 16)
                },
                result.len() == min_int(i as int, sat_sub((data.len() + 15) / 16, start as int)),
            ensures
                result.len() == hex_row_count(data.len() as int, start as int, count as int),
            decreases count - i,
        {
            assert((start + i) * 16 <= usize::MAX) by (nonlinear_arith)
                requires
                    i == 0 ==> start * 16 <= usize::MAX,
                    i > 0 ==> (start + i) * 16 < data.len() + 16,
                    data.len() + 16 <= usize::MAX,
            ;
            let offset = (start + i) * 16;
            if offset >= data.len() {
                assert(sat_sub((data.len() + 15) / 16, start as int) <= i) by (nonlinear_arith)
                    requires
                        offset == (start + i) * 16,
                        offset >= data.len(),
                ;
                break;
            }
            assert(start + i < (data.len() + 15) / 16) by (nonlinear_arith)
                requires
                    offset == (start + i) * 16,
                    offset < data.len(),
            ;
            let end = if offset + 16 < data.len() { offset + 16 } else { data.len() };
            let ghost chunk = row_chunk(data@, offset as int);
            let mut offset_str = String::new();
            push_padded(&mut offset_str, offset as u64, 16, 8);
            let mut hex_str = String::new();
            let mut j: usize = 0;
            assert(hex_cells(chunk, 0) == hex_cells(chunk, 0));
            while j < 16
                invariant
                    j <= 16,
                    data.len() + 16 <= usize::MAX,
                    offset < end <= data.len(),
                    end == min_int(offset + 16, data.len() as int),
                    chunk == data@.subrange(offset as int, end as int),
                    hex_str@ + hex_cells(chunk, j as int) == hex_cells(chunk, 0),
                decreases 16 - j,
            {
                let ghost before = hex_str@;
                if j == 8 {
                    push_char(&mut hex_str, ' ');
                }
                if offset + j < end {
                    push_padded(&mut hex_str, data[offset + j] as u64, 16, 2);
                    push_char(&mut hex_str, ' ');
                } else {
                    push_char(&mut hex_str, ' ');
                    push_char(&mut hex_str, ' ');
                    push_char(&mut hex_str, ' ');
                }
                assert(hex_str@ =~= before + hex_cell(chunk, j as int));
                j += 1;
            }
            assert(hex_cells(chunk, 16) =~= Seq::<char>::empty());
            assert(hex_str@ =~= hex_cells(chunk, 0));
            let mut ascii_str = String::new();
            let mut k: usize = offset;
            while k < end
                invariant
                    offset <= k <= end,
                    end <= data.len(),
                    chunk == data@.subrange(offset as int, end as int),
                    ascii_str@ == chunk.take(k - offset).map_values(|b: u8| ascii_char(b)),
                decreases end - k,
            {
                let b = data[k];
                let c = if 0x20 <= b && b <= 0x7E { b as char } else { '.' };
                push_char(&mut ascii_str, c);
                k += 1;
                assert(ascii_str@ =~= chunk.take(k - offset).map_values(|b: u8| ascii_char(b)));
            }
            assert(chunk.take(end - offset) =~= chunk);
            proof {
                assert(pad_left(hex_upper(offset as u64 as nat), 8, '0') == pad_left(hex_upper(offset as nat), 8, '0'));
            }
            result.push((offset_str, hex_str, ascii_str));
            assert((start + i + 1) * 16 < data.len() + 16) by (nonlinear_arith)
                requires
                    offset == (start + i) * 16,
                    offset < data.len(),
            ;
            i += 1;
        }
        result
    }

    /// Searches every line for `query`, ignoring case: lines and query are
    /// lower-cased (`str::to_lowercase`) and each place, overlaps included,
    /// where the query's bytes occur in a line's bytes is a match; the view
    /// then moves to the first match.
    pub fn search(&mut self, query: &str)
        ensures
            opt_text(final(self).search_query) == Some(query@),
            final(self).search_matches@ == matches_from(old(self).lines.deep_view(), query@, 0),
            final(self).current_match == 0,
            final(self).scroll_offset == if final(self).search_matches.len() > 0 {
                sat_sub(final(self).search_matches@[0].0 as int, (old(self).visible_height / 2) as int)
            } else {
                old(self).scroll_offset as int
            },
            final(self).lines@ == old(self).lines@,
            final(self).raw_data@ == old(self).raw_data@,
            final(self).mode == old(self).mode,
            final(self).visible_height == old(self).visible_height,
            final(self).horizontal_offset == old(self).horizontal_offset,
    {
        self.search_query = Some(crate::text::owned(query));
        self.search_matches.clear();
        self.current_match = 0;
        let ghost lines = self.lines.deep_view();
        let query_lower = to_lower(query);
        let qb = query_lower.as_str().as_bytes();
        let mut idx: usize = 0;
        assert(self.search_matches@ + matches_from(lines, query@, 0) =~= matches_from(lines, query@, 0));
        while idx < self.lines.len()
            invariant
                idx <= self.lines.len(),
                lines == self.lines.deep_view(),
                lines == old(self).lines.deep_view(),
                self.lines@ == old(self).lines@,
                self.raw_data@ == old(self).raw_data@,
                self.mode == old(self).mode,
                self.visible_height == old(self).visible_height,
                self.horizontal_offset == old(self).horizontal_offset,
                self.scroll_offset == old(self).scroll_offset,
                self.current_match == 0,
                opt_text(self.search_query) == Some(query@),
                qb@ == lower_bytes(query@),
                self.search_matches@ + matches_from(lines, query@, idx as int) == matches_from(lines, query@, 0),
            decreases self.lines.len() - idx,
        {
            let line_lower = to_lower(self.lines[idx].as_str());
            let lb = line_lower.as_str().as_bytes();
            let ghost pair = |p: int| (idx as usize, p as usize);
            assert(lb@ == lower_bytes(lines[idx as int]));
            let ghost rest = matches_from(lines, query@, idx + 1);
            assert(matches_from(lines, query@, idx as int)
                == occurrences_from(lb@, qb@, 0).map_values(pair) + rest);
            if qb.len() <= lb.len() {
                let last = lb.len() - qb.len();
                let mut p: usize = 0;
                loop
                    invariant_except_break
                        self.search_matches@ + occurrences_from(lb@, qb@, p as int).map_values(pair) + rest
                            == matches_from(lines, query@, 0),
                    invariant
                        p <= last,
                        last + qb.len() == lb.len(),
                        idx < self.lines.len(),
                        lines == self.lines.deep_view(),
                        self.lines@ == old(self).lines@,
                        self.raw_data@ == old(self).raw_data@,
                        self.mode == old(self).mode,
                        self.visible_height == old(self).visible_height,
                        self.horizontal_offset == old(self).horizontal_offset,
                        self.scroll_offset == old(self).scroll_offset,
                        self.current_match == 0,
                        opt_text(self.search_query) == Some(query@),
                        qb@ == lower_bytes(query@),
                        rest == matches_from(lines, query@, idx + 1),
                        pair == (|p: int| (idx as usize, p as usize)),
                    ensures
                        self.search_matches@ + rest == matches_from(lines, query@, 0),
                    decreases last - p,
                {
                    let ghost before = self.search_matches@;
                    if bytes_at(lb, qb, p) {
                        self.search_matches.push((idx, p));
                        assert(self.search_matches@ + occurrences_from(lb@, qb@, p + 1).map_values(pair)
                            =~= before + occurrences_from(lb@, qb@, p as int).map_values(pair));
                    } else {
                        assert(occurrences_from(lb@, qb@, p + 1).map_values(pair)
                            =~= occurrences_from(lb@, qb@, p as int).map_values(pair));
                    }
                    if p == last {
                        assert(occurrences_from(lb@, qb@, p + 1) =~= Seq::<int>::empty());
                        assert(self.search_matches@ + rest =~= matches_from(lines, query@, 0));
                        break;
                    }
                    p += 1;
                }
            } else {
                assert(occurrences_from(lb@, qb@, 0) =~= Seq::<int>::empty());
                assert(self.search_matches@ + rest =~= matches_from(lines, query@, 0));
            }
            idx += 1;
        }
        assert(matches_from(lines, query@, idx as int) =~= Seq::<(usize, usize)>::empty());
        assert(self.search_matches@ =~= matches_from(lines, query@, 0));
        if self.search_matches.len() > 0 {
            self.go_to_match(0);
        }
    }

    /// Moves the view so that match `idx`, when there is one, shows half a
    /// page from the top.
    fn go_to_match(&mut self, idx: usize)
        ensures
            final(self).scroll_offset == if idx < old(self).search_matches.len() {
                sat_sub(old(self).search_matches@[idx as int].0 as int, (old(self).visible_height / 2) as int)
            } else {
                old(self).scroll_offset as int
            },
            final(self).search_matches@ == old(self).search_matches@,
            final(self).current_match == old(self).current_match,
            final(self).search_query == old(self).search_query,
            final(self).lines@ == old(self).lines@,
            final(self).raw_data@ == old(self).raw_data@,
            final(self).mode == old(self).mode,
            final(self).visible_height == old(self).visible_height,
            final(self).horizontal_offset == old(self).horizontal_offset,
            final(self).keeps_content(&*old(self)),
    {
        if idx < self.search_matches.len() {
            let line = self.search_matches[idx].0;
            let half = self.visible_height / 2;
            self.scroll_offset = if line > half { line - half } else { 0 };
        }
    }

    /// Goes to the next match, after the last one back to the first.
    pub fn next_match(&mut self)
        requires
            old(self).current_match < usize::MAX,
        ensures
            old(self).search_matches.len() > 0 ==> {
                let n = old(self).search_matches.len() as int;
                let m = (old(self).current_match + 1) % n;
                &&& final(self).current_match == m
                &&& final(self).scroll_offset == sat_sub(
                    old(self).search_matches@[m].0 as int,
                    (old(self).visible_height / 2) as int,
                )
            },
            old(self).search_matches.len() == 0 ==> final(self).current_match == old(self).current_match
                && final(self).scroll_offset == old(self).scroll_offset,
            final(self).search_matches@ == old(self).search_matches@,
            final(self).lines@ == old(self).lines@,
            final(self).mode == old(self).mode,
            final(self).keeps_content(&*old(self)),
            old(self).search_matches.len() == 0 ==> *final(self) == *old(self),
    {
        if self.search_matches.len() > 0 {
            self.current_match = (self.current_match + 1) % self.search_matches.len();
            self.go_to_match(self.current_match);
        }
    }

    /// Goes to the previous match, before the first one to the last.
    pub fn prev_match(&mut self)
        ensures
            old(self).search_matches.len() > 0 ==> {
                let n = old(self).search_matches.len() as int;
                let m = if old(self).current_match == 0 { n - 1 } else { old(self).current_match - 1 };
                &&& final(self).current_match == m
                &&& (m < n ==> final(self).scroll_offset == sat_sub(
                    old(self).search_matches@[m].0 as int,
                    (old(self).visible_height / 2) as int,
                ))
                &&& (m >= n ==> final(self).scroll_offset == old(self).scroll_offset)
            },
            old(self).search_matches.len() == 0 ==> final(self).current_match == old(self).current_match
                && final(self).scroll_offset == old(self).scroll_offset,
            final(self).search_matches@ == old(self).search_matches@,
            final(self).lines@ == old(self).lines@,
            final(self).mode == old(self).mode,
            final(self).keeps_content(&*old(self)),
            old(self).search_matches.len() == 0 ==> *final(self) == *old(self),
    {
        if self.search_matches.len() > 0 {
            if self.current_match == 0 {
                self.current_match = self.search_matches.len() - 1;
            } else {
                self.current_match = self.current_match - 1;
            }
            self.go_to_match(self.current_match);
        }
    }
}

} // verus!