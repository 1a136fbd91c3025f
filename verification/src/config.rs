//! Settings: panel paths, sort and display modes, editor and confirmation
//! options, colour overrides and bookmarks, written to and read from a
//! small `key = value` text file.

use vstd::prelude::*;
use crate::numfmt::{decimal, parse_unsigned};
use crate::paths::join;
use crate::text::{
    append_str, chars_of, index_of_or_len, owned, push_char, replace_all, split_lines, trim, trim_char,
};
use crate::types::{PanelMode, SortMode};
use crate::uucode::lines_text;

verus! {

/// Application settings.
#[derive(Debug, Clone)]
pub struct Config {
    pub left_path: String,
    pub right_path: String,
    pub left_sort: SortMode,
    pub right_sort: SortMode,
    pub left_mode: PanelMode,
    pub right_mode: PanelMode,
    pub show_hidden: bool,
    pub editor_tab_size: usize,
    pub editor_auto_indent: bool,
    pub editor_word_wrap: bool,
    pub confirm_delete: bool,
    pub confirm_overwrite: bool,
    pub confirm_exit: bool,
    /// Colour overrides, each `slot:fg:bg`.
    pub theme_overrides: Vec<String>,
    /// Bookmarked directories (empty text for an unset one).
    pub bookmarks: Vec<String>,
}

/// The settings as plain values.
#[verifier::ext_equal]
pub struct ConfigView {
    pub left_path: Seq<char>,
    pub right_path: Seq<char>,
    pub left_sort: SortMode,
    pub right_sort: SortMode,
    pub left_mode: PanelMode,
    pub right_mode: PanelMode,
    pub show_hidden: bool,
    pub editor_tab_size: usize,
    pub editor_auto_indent: bool,
    pub editor_word_wrap: bool,
    pub confirm_delete: bool,
    pub confirm_overwrite: bool,
    pub confirm_exit: bool,
    pub theme_overrides: Seq<Seq<char>>,
    pub bookmarks: Seq<Seq<char>>,
}

impl View for Config {
    type V = ConfigView;

    open spec fn view(&self) -> ConfigView {
        ConfigView {
            left_path: self.left_path@,
            right_path: self.right_path@,
            left_sort: self.left_sort,
            right_sort: self.right_sort,
            left_mode: self.left_mode,
            right_mode: self.right_mode,
            show_hidden: self.show_hidden,
            editor_tab_size: self.editor_tab_size,
            editor_auto_indent: self.editor_auto_indent,
            editor_word_wrap: self.editor_word_wrap,
            confirm_delete: self.confirm_delete,
            confirm_overwrite: self.confirm_overwrite,
            confirm_exit: self.confirm_exit,
            theme_overrides: self.theme_overrides.deep_view(),
            bookmarks: self.bookmarks.deep_view(),
        }
    }
}

/// The settings used when none are saved: both panels at `dir`, sorted by
/// name, full mode, hidden files not shown, tab size 4 with auto-indent,
/// no word wrap, confirming deletes and overwrites but not exit, no colour
/// overrides or bookmarks.
pub open spec fn default_view(dir: Seq<char>) -> ConfigView {
    ConfigView {
        left_path: dir,
        right_path: dir,
        left_sort: SortMode::Name,
        right_sort: SortMode::Name,
        left_mode: PanelMode::Full,
        right_mode: PanelMode::Full,
        show_hidden: false,
        editor_tab_size: 4,
        editor_auto_indent: true,
        editor_word_wrap: false,
        confirm_delete: true,
        confirm_overwrite: true,
        confirm_exit: false,
        theme_overrides: Seq::empty(),
        bookmarks: Seq::empty(),
    }
}

/// The name a sort mode is saved as.
pub open spec fn sort_name(m: SortMode) -> Seq<char> {
    match m {
        SortMode::Name => "name"@,
        SortMode::Extension => "extension"@,
        SortMode::Size => "size"@,
        SortMode::Date => "date"@,
        SortMode::Unsorted => "unsorted"@,
    }
}

/// The sort mode a saved name stands for; anything else is by name.
pub open spec fn sort_named(s: Seq<char>) -> SortMode {
    if s == "extension"@ {
        SortMode::Extension
    } else if s == "size"@ {
        SortMode::Size
    } else if s == "date"@ {
        SortMode::Date
    } else if s == "unsorted"@ {
        SortMode::Unsorted
    } else {
        SortMode::Name
    }
}

/// The name a panel mode is saved as.
pub open spec fn mode_name(m: PanelMode) -> Seq<char> {
    match m {
        PanelMode::Brief => "brief"@,
        PanelMode::Full => "full"@,
    }
}

/// The panel mode a saved name stands for; anything but `brief` is full.
pub open spec fn mode_named(s: Seq<char>) -> PanelMode {
    if s == "brief"@ { PanelMode::Brief } else { PanelMode::Full }
}

/// `true` or `false`.
pub open spec fn bool_text(b: bool) -> Seq<char> {
    if b { "true"@ } else { "false"@ }
}

/// A path as written between double quotes: backslashes doubled, then
/// double quotes preceded by a backslash.
pub open spec fn escape(p: Seq<char>) -> Seq<char> {
    replace_all(replace_all(p, "\\"@, "\\\\"@), "\""@, "\\\""@)
}

/// Texts joined with a separator between them.
pub open spec fn joined(items: Seq<Seq<char>>, sep: char) -> Seq<char>
    decreases items.len(),
{
    if items.len() == 0 {
        Seq::empty()
    } else if items.len() == 1 {
        items[0]
    } else {
        items[0] + seq![sep] + joined(items.drop_first(), sep)
    }
}

/// A `key = "value"` line.
pub open spec fn quoted_line(key: Seq<char>, value: Seq<char>) -> Seq<char> {
    key + " = \""@ + value + "\""@
}

/// A `key = value` line.
pub open spec fn plain_setting(key: Seq<char>, value: Seq<char>) -> Seq<char> {
    key + " = "@ + value
}

/// The lines of the settings file.
pub open spec fn config_lines(c: ConfigView) -> Seq<Seq<char>> {
    seq![
        "# RDN - Rust Dos Navigator configuration"@,
        "# Auto-generated. Edit carefully."@,
        Seq::empty(),
        "[panels]"@,
        quoted_line("left_path"@, escape(c.left_path)),
        quoted_line("right_path"@, escape(c.right_path)),
        quoted_line("left_sort"@, sort_name(c.left_sort)),
        quoted_line("right_sort"@, sort_name(c.right_sort)),
        quoted_line("left_mode"@, mode_name(c.left_mode)),
        quoted_line("right_mode"@, mode_name(c.right_mode)),
        plain_setting("show_hidden"@, bool_text(c.show_hidden)),
        Seq::empty(),
        "[editor]"@,
        plain_setting("tab_size"@, decimal(c.editor_tab_size as nat)),
        plain_setting("auto_indent"@, bool_text(c.editor_auto_indent)),
        plain_setting("word_wrap"@, bool_text(c.editor_word_wrap)),
        Seq::empty(),
        "[confirmations]"@,
        plain_setting("delete"@, bool_text(c.confirm_delete)),
        plain_setting("overwrite"@, bool_text(c.confirm_overwrite)),
        plain_setting("exit"@, bool_text(c.confirm_exit)),
        Seq::empty(),
        "[theme]"@,
        quoted_line("overrides"@, joined(c.theme_overrides, ',')),
        Seq::empty(),
        "[bookmarks]"@,
        quoted_line("paths"@, joined(c.bookmarks, '|'))
    ]
}

/// The text of the settings file: its lines, each ended by a newline.
pub open spec fn config_text(c: ConfigView) -> Seq<char> {
    lines_text(config_lines(c))
}

/// `str::split(c)`: the pieces between the separators, always at least one.
pub open spec fn split_on(s: Seq<char>, c: char) -> Seq<Seq<char>>
    decreases s.len(),
{
    let k = index_of_or_len(s, c);
    if k >= s.len() {
        seq![s]
    } else {
        proof {
            crate::text::lemma_index_of_or_len(s, c);
        }
        seq![s.take(k)] + split_on(s.skip(k + 1), c)
    }
}

/// The texts trimmed, the empty ones left out.
pub open spec fn trimmed_nonempty(items: Seq<Seq<char>>) -> Seq<Seq<char>>
    decreases items.len(),
{
    if items.len() == 0 {
        Seq::empty()
    } else {
        let t = trim(items[0]);
        let rest = trimmed_nonempty(items.drop_first());
        if t.len() == 0 { rest } else { seq![t] + rest }
    }
}

/// The keys of the settings file, in order.
pub open spec fn setting_keys() -> Seq<Seq<char>> {
    seq![
        "left_path"@,
        "right_path"@,
        "left_sort"@,
        "right_sort"@,
        "left_mode"@,
        "right_mode"@,
        "show_hidden"@,
        "tab_size"@,
        "auto_indent"@,
        "word_wrap"@,
        "delete"@,
        "overwrite"@,
        "exit"@,
        "overrides"@,
        "paths"@
    ]
}

/// The position of `key` among the setting keys, or 15 for an unknown key.
pub open spec fn key_index(key: Seq<char>) -> int {
    if key == "left_path"@ {
        0
    } else if key == "right_path"@ {
        1
    } else if key == "left_sort"@ {
        2
    } else if key == "right_sort"@ {
        3
    } else if key == "left_mode"@ {
        4
    } else if key == "right_mode"@ {
        5
    } else if key == "show_hidden"@ {
        6
    } else if key == "tab_size"@ {
        7
    } else if key == "auto_indent"@ {
        8
    } else if key == "word_wrap"@ {
        9
    } else if key == "delete"@ {
        10
    } else if key == "overwrite"@ {
        11
    } else if key == "exit"@ {
        12
    } else if key == "overrides"@ {
        13
    } else if key == "paths"@ {
        14
    } else {
        15
    }
}

/// The setting number `i` (see `key_index`) given `value`: paths as they
/// are, sort and panel modes by name, switches on for `true` only, the
/// tab size when it is a number, colour overrides split at commas, trimmed
/// and without empty ones (unless the value is empty), bookmarks split at
/// `|`.
pub open spec fn set_index(c: ConfigView, i: int, value: Seq<char>) -> ConfigView {
    if i == 0 {
        ConfigView { left_path: value, ..c }
    } else if i == 1 {
        ConfigView { right_path: value, ..c }
    } else if i == 2 {
        ConfigView { left_sort: sort_named(value), ..c }
    } else if i == 3 {
        ConfigView { right_sort: sort_named(value), ..c }
    } else if i == 4 {
        ConfigView { left_mode: mode_named(value), ..c }
    } else if i == 5 {
        ConfigView { right_mode: mode_named(value), ..c }
    } else if i == 6 {
        ConfigView { show_hidden: value == "true"@, ..c }
    } else if i == 7 {
        match parse_unsigned(value) {
            Some(n) => if n <= usize::MAX { ConfigView { editor_tab_size: n as usize, ..c } } else { c },
            None => c,
        }
    } else if i == 8 {
        ConfigView { editor_auto_indent: value == "true"@, ..c }
    } else if i == 9 {
        ConfigView { editor_word_wrap: value == "true"@, ..c }
    } else if i == 10 {
        ConfigView { confirm_delete: value == "true"@, ..c }
    } else if i == 11 {
        ConfigView { confirm_overwrite: value == "true"@, ..c }
    } else if i == 12 {
        ConfigView { confirm_exit: value == "true"@, ..c }
    } else if i == 13 {
        if value.len() > 0 { ConfigView { theme_overrides: trimmed_nonempty(split_on(value, ',')), ..c } } else { c }
    } else if i == 14 {
        ConfigView { bookmarks: split_on(value, '|'), ..c }
    } else {
        c
    }
}

/// The setting `key` given `value`.
pub open spec fn set_key(c: ConfigView, key: Seq<char>, value: Seq<char>) -> ConfigView {
    set_index(c, key_index(key), value)
}

/// The settings after reading one line: blank lines, comments (`#`) and
/// section headers (`[`) change nothing; a line with `=` sets the key
/// before it (trimmed) to the value after it (trimmed, then without
/// surrounding double quotes).
pub open spec fn apply_line(c: ConfigView, line: Seq<char>) -> ConfigView {
    let t = trim(line);
    let k = index_of_or_len(t, '=');
    if t.len() == 0 || t[0] == '#' || t[0] == '[' || k >= t.len() {
        c
    } else {
        set_key(c, trim(t.take(k)), trim_char(trim(t.skip(k + 1)), '"'))
    }
}

/// The settings after reading lines in order.
pub open spec fn apply_lines(c: ConfigView, lines: Seq<Seq<char>>) -> ConfigView
    decreases lines.len(),
{
    if lines.len() == 0 {
        c
    } else {
        apply_lines(apply_line(c, lines[0]), lines.drop_first())
    }
}

/// The settings read from a settings file's text, starting from the
/// defaults for directory `dir`.
pub open spec fn read_config(text: Seq<char>, dir: Seq<char>) -> ConfigView {
    apply_lines(default_view(dir), split_lines(text))
}

/// The settings directory: `.config/rdn` in the home directory, else
/// `.rdn`.
pub open spec fn config_dir_for(home: Option<Seq<char>>) -> Seq<char> {
    match home {
        Some(h) => join(join(h, ".config"@), "rdn"@),
        None => ".rdn"@,
    }
}

/// The settings file: `config.toml` in the settings directory.
pub open spec fn config_file_for(home: Option<Seq<char>>) -> Seq<char> {
    join(config_dir_for(home), "config.toml"@)
}

/// The name a sort mode is saved as.
fn sort_to_str(sort: &SortMode) -> (s: &'static str)
    ensures
        s@ == sort_name(*sort),
{
    proof {
        reveal_strlit("name");
        reveal_strlit("extension");
        reveal_strlit("size");
        reveal_strlit("date");
        reveal_strlit("unsorted");
    }
    match sort {
        SortMode::Name => "name",
        SortMode::Extension => "extension",
        SortMode::Size => "size",
        SortMode::Date => "date",
        SortMode::Unsorted => "unsorted",
    }
}

/// The sort mode a saved name stands for.
fn str_to_sort(s: &str) -> (m: SortMode)
    ensures
        m == sort_named(s@),
{
    if crate::text::str_equal(s, "extension") {
        SortMode::Extension
    } else if crate::text::str_equal(s, "size") {
        SortMode::Size
    } else if crate::text::str_equal(s, "date") {
        SortMode::Date
    } else if crate::text::str_equal(s, "unsorted") {
        SortMode::Unsorted
    } else {
        SortMode::Name
    }
}

/// The name a panel mode is saved as.
fn mode_to_str(mode: &PanelMode) -> (s: &'static str)
    ensures
        s@ == mode_name(*mode),
{
    match mode {
        PanelMode::Brief => "brief",
        PanelMode::Full => "full",
    }
}

/// The panel mode a saved name stands for.
fn str_to_mode(s: &str) -> (m: PanelMode)
    ensures
        m == mode_named(s@),
{
    if crate::text::str_equal(s, "brief") { PanelMode::Brief } else { PanelMode::Full }
}

/// `true` or `false`.
fn bool_str(b: bool) -> (s: &'static str)
    ensures
        s@ == bool_text(b),
{
    if b { "true" } else { "false" }
}

/// A path escaped for writing between double quotes.
fn escape_path(path: &str) -> (r: String)
    ensures
        r@ == escape(path@),
{
    proof {
        reveal_strlit("\\");
        reveal_strlit("\"");
    }
    let a = crate::text::replace_str(path, "\\", "\\\\");
    crate::text::replace_str(a.as_str(), "\"", "\\\"")
}

/// Texts joined with a separator.
pub(crate) fn join_with(items: &Vec<String>, sep: char) -> (r: String)
    ensures
        r@ == joined(items.deep_view(), sep),
{
    let ghost iv = items.deep_view();
    if items.len() == 0 {
        return String::new();
    }
    let mut out = String::new();
    let mut i: usize = items.len();
    i = i - 1;
    append_str(&mut out, items[i].as_str());
    assert(iv.skip(i as int) =~= seq![iv[i as int]]);
    assert(out@ == joined(iv.skip(i as int), sep));
    while i > 0
        invariant
            i < iv.len(),
            iv == items.deep_view(),
            out@ == joined(iv.skip(i as int), sep),
        decreases i,
    {
        i -= 1;
        let mut piece = crate::text::owned(items[i].as_str());
        push_char(&mut piece, sep);
        append_str(&mut piece, out.as_str());
        assert(iv.skip(i as int).drop_first() =~= iv.skip(i + 1));
        assert(iv.skip(i as int)[0] == iv[i as int]);
        out = piece;
    }
    assert(iv.skip(0) =~= iv);
    out
}

/// A `key = "value"` line.
fn quoted(key: &str, value: &str) -> (r: String)
    ensures
        r@ == quoted_line(key@, value@),
{
    proof {
        reveal_strlit(" = \"");
        reveal_strlit("\"");
    }
    let mut out = owned(key);
    append_str(&mut out, " = \"");
    append_str(&mut out, value);
    push_char(&mut out, '"');
    assert(out@ =~= quoted_line(key@, value@));
    out
}

/// A `key = value` line.
fn setting(key: &str, value: &str) -> (r: String)
    ensures
        r@ == plain_setting(key@, value@),
{
    proof {
        reveal_strlit(" = ");
    }
    let mut out = owned(key);
    append_str(&mut out, " = ");
    append_str(&mut out, value);
    assert(out@ =~= plain_setting(key@, value@));
    out
}

/// Lines joined, each ended by a newline.
fn concat_lines(v: &Vec<String>) -> (r: String)
    ensures
        r@ == lines_text(v.deep_view()),
{
    let mut out = String::new();
    let mut i: usize = 0;
    assert(v.deep_view().take(0) =~= Seq::<Seq<char>>::empty());
    while i < v.len()
        invariant
            i <= v.len(),
            out@ == lines_text(v.deep_view().take(i as int)),
        decreases v.len() - i,
    {
        append_str(&mut out, v[i].as_str());
        push_char(&mut out, '\n');
        proof {
            lemma_lines_text_push(v.deep_view().take(i as int), v.deep_view()[i as int]);
            assert(v.deep_view().take(i + 1) =~= v.deep_view().take(i as int).push(v.deep_view()[i as int]));
        }
        i += 1;
        assert(out@ =~= lines_text(v.deep_view().take(i as int)));
    }
    assert(v.deep_view().take(i as int) =~= v.deep_view());
    out
}

/// The text of lines, each ended by a newline, splits at a line.
pub proof fn lemma_lines_text_push(ls: Seq<Seq<char>>, l: Seq<char>)
    ensures
        lines_text(ls.push(l)) == lines_text(ls) + l.push('\n'),
    decreases ls.len(),
{
    if ls.len() == 0 {
        assert(ls.push(l).drop_first() =~= Seq::<Seq<char>>::empty());
        reveal_with_fuel(lines_text, 2);
        assert(lines_text(ls.push(l)) =~= l.push('\n'));
    } else {
        lemma_lines_text_push(ls.drop_first(), l);
        assert(ls.push(l).drop_first() =~= ls.drop_first().push(l));
        assert(lines_text(ls.push(l)) =~= lines_text(ls) + l.push('\n'));
    }
}

impl Config {
    /// The settings used when none are saved, with both panels at `dir`.
    pub fn default_in(dir: String) -> (c: Config)
        ensures
            c@ == default_view(dir@),
    {
        let c = Config {
            left_path: dir.clone(),
            right_path: dir,
            left_sort: SortMode::Name,
            right_sort: SortMode::Name,
            left_mode: PanelMode::Full,
            right_mode: PanelMode::Full,
            show_hidden: false,
            editor_tab_size: 4,
            editor_auto_indent: true,
            editor_word_wrap: false,
            confirm_delete: true,
            confirm_overwrite: true,
            confirm_exit: false,
            theme_overrides: Vec::new(),
            bookmarks: Vec::new(),
        };
        assert(c@.theme_overrides =~= Seq::<Seq<char>>::empty());
        assert(c@.bookmarks =~= Seq::<Seq<char>>::empty());
        c
    }

    /// The text of the settings file.
    pub fn to_text(&self) -> (t: String)
        ensures
            t@ == config_text(self@),
    {
        let mut v: Vec<String> = Vec::new();
        v.push(owned("# RDN - Rust Dos Navigator configuration"));
        v.push(owned("# Auto-generated. Edit carefully."));
        v.push(String::new());
        v.push(owned("[panels]"));
        let lp = escape_path(self.left_path.as_str());
        v.push(quoted("left_path", lp.as_str()));
        let rp = escape_path(self.right_path.as_str());
        v.push(quoted("right_path", rp.as_str()));
        v.push(quoted("left_sort", sort_to_str(&self.left_sort)));
        v.push(quoted("right_sort", sort_to_str(&self.right_sort)));
        v.push(quoted("left_mode", mode_to_str(&self.left_mode)));
        v.push(quoted("right_mode", mode_to_str(&self.right_mode)));
        v.push(setting("show_hidden", bool_str(self.show_hidden)));
        v.push(String::new());
        v.push(owned("[editor]"));
        let ts = crate::numfmt::u64_to_decimal(self.editor_tab_size as u64);
        v.push(setting("tab_size", ts.as_str()));
        v.push(setting("auto_indent", bool_str(self.editor_auto_indent)));
        v.push(setting("word_wrap", bool_str(self.editor_word_wrap)));
        v.push(String::new());
        v.push(owned("[confirmations]"));
        v.push(setting("delete", bool_str(self.confirm_delete)));
        v.push(setting("overwrite", bool_str(self.confirm_overwrite)));
        v.push(setting("exit", bool_str(self.confirm_exit)));
        v.push(String::new());
        v.push(owned("[theme]"));
        let ov = join_with(&self.theme_overrides, ',');
        v.push(quoted("overrides", ov.as_str()));
        v.push(String::new());
        v.push(owned("[bookmarks]"));
        let bm = join_with(&self.bookmarks, '|');
        v.push(quoted("paths", bm.as_str()));
        assert(v.deep_view() =~= config_lines(self@));
        concat_lines(&v)
    }

    /// The settings read from a settings file's text, starting from the
    /// defaults with both panels at `dir`.
    pub fn from_text(text: &str, dir: String) -> (c: Config)
        ensures
            c@ == read_config(text@, dir@),
    {
        let mut c = Config::default_in(dir);
        let ghost d = c@;
        let chars = chars_of(text);
        let lines = crate::text::lines_of(chars.as_slice());
        let ghost ls = lines.deep_view();
        let mut i: usize = 0;
        assert(ls.skip(0) =~= ls);
        while i < lines.len()
            invariant
                i <= lines.len(),
                ls == lines.deep_view(),
                ls == split_lines(text@),
                apply_lines(c@, ls.skip(i as int)) == apply_lines(d, ls),
            decreases lines.len() - i,
        {
            assert(ls.skip(i as int)[0] == lines@[i as int]@);
            assert(ls.skip(i as int).drop_first() =~= ls.skip(i + 1));
            apply_line_exec(&mut c, lines[i].as_str());
            i += 1;
        }
        assert(ls.skip(i as int) =~= Seq::<Seq<char>>::empty());
        c
    }
}

/// `s.split(c)`.
pub(crate) fn split_chars(s: &str, c: char) -> (r: Vec<String>)
    ensures
        r.deep_view() == split_on(s@, c),
{
    let v = chars_of(s);
    let mut r: Vec<String> = Vec::new();
    let mut start: usize = 0;
    assert(v@.skip(0) =~= v@);
    loop
        invariant
            start <= v@.len(),
            v@ == s@,
            r.deep_view() + split_on(v@.skip(start as int), c) == split_on(s@, c),
        decreases v@.len() - start,
    {
        let mut k = start;
        while k < v.len() && v[k] != c
            invariant
                start <= k <= v@.len(),
                forall|j: int| start <= j < k ==> v@[j] != c,
            decreases v@.len() - k,
        {
            k += 1;
        }
        let ghost rest = v@.skip(start as int);
        proof {
            crate::text::lemma_index_of_or_len_is(rest, c, k - start);
        }
        let piece = crate::text::string_of(v.as_slice(), start, k);
        let ghost before = r.deep_view();
        r.push(piece);
        assert(r.deep_view() =~= before.push(piece@));
        if k == v.len() {
            assert(piece@ =~= rest);
            assert(r.deep_view() =~= before + split_on(rest, c));
            return r;
        }
        assert(piece@ =~= rest.take(k - start));
        assert(rest.skip(k - start + 1) =~= v@.skip(k + 1));
        start = k + 1;
        assert(r.deep_view() + split_on(v@.skip(start as int), c) =~= before + split_on(rest, c));
    }
}

/// The texts trimmed, the empty ones left out.
fn trim_all_nonempty(items: Vec<String>) -> (r: Vec<String>)
    ensures
        r.deep_view() == trimmed_nonempty(items.deep_view()),
{
    let ghost iv = items.deep_view();
    let mut r: Vec<String> = Vec::new();
    let mut i: usize = 0;
    assert(iv.skip(0) =~= iv);
    while i < items.len()
        invariant
            i <= items.len(),
            iv == items.deep_view(),
            r.deep_view() + trimmed_nonempty(iv.skip(i as int)) == trimmed_nonempty(iv),
        decreases items.len() - i,
    {
        assert(iv.skip(i as int)[0] == items@[i as int]@);
        assert(iv.skip(i as int).drop_first() =~= iv.skip(i + 1));
        let t = crate::text::trim_str(items[i].as_str());
        let ghost before = r.deep_view();
        if !t.as_str().is_empty() {
            r.push(t);
            assert(r.deep_view() =~= before.push(t@));
        }
        i += 1;
        assert(r.deep_view() + trimmed_nonempty(iv.skip(i as int)) =~= before + trimmed_nonempty(iv.skip(i - 1)));
    }
    assert(iv.skip(i as int) =~= Seq::<Seq<char>>::empty());
    r
}

/// The position of `key` among the setting keys.
fn key_index_exec(key: &str) -> (i: u8)
    ensures
        i == key_index(key@),
{
    if crate::text::str_equal(key, "left_path") {
        0
    } else if crate::text::str_equal(key, "right_path") {
        1
    } else if crate::text::str_equal(key, "left_sort") {
        2
    } else if crate::text::str_equal(key, "right_sort") {
        3
    } else if crate::text::str_equal(key, "left_mode") {
        4
    } else if crate::text::str_equal(key, "right_mode") {
        5
    } else if crate::text::str_equal(key, "show_hidden") {
        6
    } else if crate::text::str_equal(key, "tab_size") {
        7
    } else if crate::text::str_equal(key, "auto_indent") {
        8
    } else if crate::text::str_equal(key, "word_wrap") {
        9
    } else if crate::text::str_equal(key, "delete") {
        10
    } else if crate::text::str_equal(key, "overwrite") {
        11
    } else if crate::text::str_equal(key, "exit") {
        12
    } else if crate::text::str_equal(key, "overrides") {
        13
    } else if crate::text::str_equal(key, "paths") {
        14
    } else {
        15
    }
}

/// Sets one of the first seven settings (`id` below 7) to `value`.
fn set_panel_key(c: &mut Config, id: u8, value: String)
    requires
        id < 7,
    ensures
        final(c)@ == set_index(old(c)@, id as int, value@),
{
    let v = value.as_str();
    proof {
        reveal_strlit("true");
    }
    if id == 0 {
        c.left_path = value;
    } else if id == 1 {
        c.right_path = value;
    } else if id == 2 {
        c.left_sort = str_to_sort(v);
    } else if id == 3 {
        c.right_sort = str_to_sort(v);
    } else if id == 4 {
        c.left_mode = str_to_mode(v);
    } else if id == 5 {
        c.right_mode = str_to_mode(v);
    } else {
        c.show_hidden = crate::text::str_equal(v, "true");
    }
}

/// Sets one of the switch settings (`id` 8 to 12) to `value`.
fn set_switch_key(c: &mut Config, id: u8, value: &str)
    requires
        8 <= id <= 12,
    ensures
        final(c)@ == set_index(old(c)@, id as int, value@),
{
    proof {
        reveal_strlit("true");
    }
    let on = crate::text::str_equal(value, "true");
    if id == 8 {
        c.editor_auto_indent = on;
    } else if id == 9 {
        c.editor_word_wrap = on;
    } else if id == 10 {
        c.confirm_delete = on;
    } else if id == 11 {
        c.confirm_overwrite = on;
    } else {
        c.confirm_exit = on;
    }
}

/// Sets the setting `key` to `value`.
fn set_key_exec(c: &mut Config, key: &str, value: String)
    ensures
        final(c)@ == set_key(old(c)@, key@, value@),
{
    let id = key_index_exec(key);
    if id < 7 {
        set_panel_key(c, id, value);
    } else if id == 7 {
        match crate::numfmt::parse_usize(value.as_str()) {
            Some(n) => {
                c.editor_tab_size = n;
            },
            None => {},
        }
    } else if id <= 12 {
        set_switch_key(c, id, value.as_str());
    } else if id == 13 {
        if !value.as_str().is_empty() {
            let parts = split_chars(value.as_str(), ',');
            c.theme_overrides = trim_all_nonempty(parts);
        }
    } else if id == 14 {
        c.bookmarks = split_chars(value.as_str(), '|');
    }
}

/// Reads one line of a settings file into `c`.
fn apply_line_exec(c: &mut Config, line: &str)
    ensures
        final(c)@ == apply_line(old(c)@, line@),
{
    let t = crate::text::trim_str(line);
    let tv = chars_of(t.as_str());
    if tv.len() == 0 || tv[0] == '#' || tv[0] == '[' {
        return;
    }
    let mut k: usize = 0;
    while k < tv.len() && tv[k] != '='
        invariant
            k <= tv@.len(),
            forall|j: int| 0 <= j < k ==> tv@[j] != '=',
        decreases tv@.len() - k,
    {
        k += 1;
    }
    proof {
        crate::text::lemma_index_of_or_len_is(tv@, '=', k as int);
    }
    if k >= tv.len() {
        return;
    }
    let key_raw = crate::text::string_of(tv.as_slice(), 0, k);
    let key = crate::text::trim_str(key_raw.as_str());
    let value_raw = crate::text::string_of(tv.as_slice(), k + 1, tv.len());
    let value_trimmed = crate::text::trim_str(value_raw.as_str());
    let value = crate::text::trim_char_str(value_trimmed.as_str(), '"');
    assert(key_raw@ =~= tv@.take(k as int));
    assert(value_raw@ =~= tv@.skip(k + 1));
    set_key_exec(c, key.as_str(), value);
}

/// The user's home directory (`dirs::home_dir`), as text; it depends on the
/// platform and the environment.
#[verifier::external_body]
fn user_home_dir() -> Option<String> {
    dirs::home_dir().map(|p| p.to_string_lossy().into_owned())
}

/// The settings directory given the home directory: `.config/rdn` in
/// it, or `.rdn` when there is no home directory.
pub fn config_dir_in(home: Option<&str>) -> (d: String)
    ensures
        d@ == config_dir_for(match home { Some(h) => Some(h@), None => None }),
{
    match home {
        Some(h) => {
            let a = crate::paths::join_path(h, ".config");
            crate::paths::join_path(a.as_str(), "rdn")
        },
        None => owned(".rdn"),
    }
}

/// The settings file given the home directory.
pub fn config_path_in(home: Option<&str>) -> (p: String)
    ensures
        p@ == config_file_for(match home { Some(h) => Some(h@), None => None }),
{
    let d = config_dir_in(home);
    crate::paths::join_path(d.as_str(), "config.toml")
}

impl Config {
    /// The settings directory of this user: `~/.config/rdn`.
    pub fn config_dir() -> (d: String)
        ensures
            exists|h: Option<Seq<char>>| d@ == config_dir_for(h),
    {
        let h = user_home_dir();
        let d = config_dir_in(match &h { Some(x) => Some(x.as_str()), None => None });
        let ghost hv = match h { Some(x) => Some(x@), None => None::<Seq<char>> };
        assert(d@ == config_dir_for(hv));
        d
    }

    /// The settings file of this user: `~/.config/rdn/config.toml`.
    pub fn config_path() -> (p: String)
        ensures
            exists|h: Option<Seq<char>>| p@ == config_file_for(h),
    {
        let h = user_home_dir();
        let p = config_path_in(match &h { Some(x) => Some(x.as_str()), None => None });
        let ghost hv = match h { Some(x) => Some(x@), None => None::<Seq<char>> };
        assert(p@ == config_file_for(hv));
        p
    }
}

/// `c` does not occur in `s`.
pub open spec fn lacks(s: Seq<char>, c: char) -> bool {
    forall|i: int| 0 <= i < s.len() ==> s[i] != c
}

/// A text with something other than white space at both ends.
pub open spec fn solid(s: Seq<char>) -> bool {
    s.len() > 0 && !crate::text::is_white(s[0]) && !crate::text::is_white(s.last())
}

/// Trimming a text with no white space at its ends leaves it unchanged.
pub proof fn lemma_trim_solid(s: Seq<char>)
    requires
        solid(s),
    ensures
        trim(s) == s,
{
    crate::text::lemma_strip_both(s, |c: char| crate::text::is_white(c), 0, s.len() as int);
    assert(s.subrange(0, s.len() as int) =~= s);
}

/// Trimming a key followed by a space gives the key.
pub proof fn lemma_trim_key_space(key: Seq<char>)
    requires
        solid(key),
    ensures
        trim(key + seq![' ']) == key,
{
    let s = key + seq![' '];
    assert(s[0] == key[0]);
    assert(s[key.len() - 1] == key.last());
    crate::text::lemma_strip_both(s, |c: char| crate::text::is_white(c), 0, key.len() as int);
    assert(s.subrange(0, key.len() as int) =~= key);
}

/// Trimming a space followed by a value gives the value.
pub proof fn lemma_trim_space_value(v: Seq<char>)
    requires
        solid(v),
    ensures
        trim(seq![' '] + v) == v,
{
    let s = seq![' '] + v;
    assert(s[1] == v[0]);
    assert(s.last() == v.last());
    crate::text::lemma_strip_both(s, |c: char| crate::text::is_white(c), 1, s.len() as int);
    assert(s.subrange(1, s.len() as int) =~= v);
}

/// Removing the double quotes around a text without double quotes gives
/// the text.
pub proof fn lemma_unquote(p: Seq<char>)
    requires
        lacks(p, '"'),
    ensures
        trim_char(seq!['"'] + p + seq!['"'], '"') == p,
{
    let s = seq!['"'] + p + seq!['"'];
    assert(s[0] == '"');
    if p.len() > 0 {
        assert(s[1] == p[0]);
        assert(s[s.len() - 2] == p.last());
    }
    assert(s.last() == '"');
    if p.len() == 0 {
        crate::text::lemma_strip_both(s, crate::text::equals('"'), 2, 2);
        assert(s.subrange(2, 2) =~= p);
    } else {
        crate::text::lemma_strip_both(s, crate::text::equals('"'), 1, s.len() - 1);
        assert(s.subrange(1, s.len() - 1) =~= p);
    }
}

/// Replacing a one-character pattern that does not occur changes nothing.
pub proof fn lemma_replace_absent(s: Seq<char>, c: char, t: Seq<char>)
    requires
        lacks(s, c),
    ensures
        replace_all(s, seq![c], t) == s,
    decreases s.len(),
{
    if s.len() > 0 {
        assert(s.take(1) =~= seq![s[0]]);
        lemma_replace_absent(s.drop_first(), c, t);
        assert(seq![s[0]] + s.drop_first() =~= s);
    }
}

/// Escaping a path without backslashes or double quotes changes nothing.
pub proof fn lemma_escape_plain(p: Seq<char>)
    requires
        lacks(p, '\\'),
        lacks(p, '"'),
    ensures
        escape(p) == p,
{
    reveal_strlit("\\");
    reveal_strlit("\"");
    assert("\\"@ =~= seq!['\\']);
    assert("\""@ =~= seq!['"']);
    lemma_replace_absent(p, '\\', "\\\\"@);
    lemma_replace_absent(p, '"', "\\\""@);
}

/// Splitting texts joined with a separator that none of them holds gives
/// them back.
pub proof fn lemma_split_joined(items: Seq<Seq<char>>, sep: char)
    requires
        items.len() > 0,
        forall|i: int| 0 <= i < items.len() ==> lacks(#[trigger] items[i], sep),
    ensures
        split_on(joined(items, sep), sep) == items,
    decreases items.len(),
{
    let first = items[0];
    if items.len() == 1 {
        crate::text::lemma_index_of_or_len_is(first, sep, first.len() as int);
        assert(split_on(first, sep) =~= items);
    } else {
        let rest = items.drop_first();
        assert forall|i: int| 0 <= i < rest.len() implies lacks(#[trigger] rest[i], sep) by {
            assert(rest[i] == items[i + 1]);
        }
        lemma_split_joined(rest, sep);
        let s = joined(items, sep);
        assert(s == first + seq![sep] + joined(rest, sep));
        crate::text::lemma_index_of_or_len_is(s, sep, first.len() as int);
        assert(s.take(first.len() as int) =~= first);
        assert(s.skip(first.len() as int + 1) =~= joined(rest, sep));
        assert(split_on(s, sep) =~= seq![first] + rest);
    }
}

/// Texts that are trimmed already and not empty pass through unchanged.
pub proof fn lemma_trimmed_nonempty_id(items: Seq<Seq<char>>)
    requires
        forall|i: int| 0 <= i < items.len() ==> solid(#[trigger] items[i]),
    ensures
        trimmed_nonempty(items) == items,
    decreases items.len(),
{
    if items.len() > 0 {
        let rest = items.drop_first();
        assert forall|i: int| 0 <= i < rest.len() implies solid(#[trigger] rest[i]) by {
            assert(rest[i] == items[i + 1]);
        }
        lemma_trimmed_nonempty_id(rest);
        lemma_trim_solid(items[0]);
        assert(seq![items[0]] + rest =~= items);
    }
}

/// Decimal digits of a number read back give the number.
pub proof fn lemma_decimal_parse(n: nat)
    ensures
        parse_unsigned(decimal(n)) == Some(n),
        decimal(n).len() > 0,
        crate::numfmt::all_digits(decimal(n)),
    decreases n,
{
    let s = decimal(n);
    if n < 10 {
        assert(s == seq![crate::numfmt::digit_char(n)]);
        assert((crate::numfmt::digit_char(n) as u32) == 48 + n);
        assert(s.drop_last() =~= Seq::<char>::empty());
        assert(crate::numfmt::digits_value(s.drop_last()) == 0);
        assert(s.last() == crate::numfmt::digit_char(n));
        assert(crate::numfmt::digits_value(s) == n);
        assert(s[0] != '+');
    } else {
        crate::numfmt::lemma_div_smaller(n, 10);
        lemma_decimal_parse(n / 10);
        let d = (n % 10) as nat;
        assert(s == decimal(n / 10).push(crate::numfmt::digit_char(d)));
        assert((crate::numfmt::digit_char(d) as u32) == 48 + d);
        assert(s.drop_last() =~= decimal(n / 10));
        assert forall|i: int| 0 <= i < s.len() implies '0' <= #[trigger] s[i] && s[i] <= '9' by {
            if i < s.len() - 1 {
                assert(s[i] == decimal(n / 10)[i]);
            }
        }
        assert((n / 10) * 10 + n % 10 == n) by (nonlinear_arith);
        assert(crate::numfmt::digits_value(s) == n);
        assert(s[0] != '+');
    }
}

/// The setting keys as they stand in the file.
pub proof fn lemma_key_indices()
    ensures
        key_index("left_path"@) == 0,
        key_index("right_path"@) == 1,
        key_index("left_sort"@) == 2,
        key_index("right_sort"@) == 3,
        key_index("left_mode"@) == 4,
        key_index("right_mode"@) == 5,
        key_index("show_hidden"@) == 6,
        key_index("tab_size"@) == 7,
        key_index("auto_indent"@) == 8,
        key_index("word_wrap"@) == 9,
        key_index("delete"@) == 10,
        key_index("overwrite"@) == 11,
        key_index("exit"@) == 12,
        key_index("overrides"@) == 13,
        key_index("paths"@) == 14,
{
    reveal_strlit("left_path");
    reveal_strlit("right_path");
    reveal_strlit("left_sort");
    reveal_strlit("right_sort");
    reveal_strlit("left_mode");
    reveal_strlit("right_mode");
    reveal_strlit("show_hidden");
    reveal_strlit("tab_size");
    reveal_strlit("auto_indent");
    reveal_strlit("word_wrap");
    reveal_strlit("delete");
    reveal_strlit("overwrite");
    reveal_strlit("exit");
    reveal_strlit("overrides");
    reveal_strlit("paths");
    assert("right_path"@.len() != "left_path"@.len());
    assert("left_sort"@[5] != "left_path"@[5]);
    assert("left_sort"@.len() != "right_path"@.len());
    assert("right_sort"@.len() != "left_path"@.len());
    assert("right_sort"@[6] != "right_path"@[6]);
    assert("right_sort"@.len() != "left_sort"@.len());
    assert("left_mode"@[5] != "left_path"@[5]);
    assert("left_mode"@.len() != "right_path"@.len());
    assert("left_mode"@[5] != "left_sort"@[5]);
    assert("left_mode"@.len() != "right_sort"@.len());
    assert("right_mode"@.len() != "left_path"@.len());
    assert("right_mode"@[6] != "right_path"@[6]);
    assert("right_mode"@.len() != "left_sort"@.len());
    assert("right_mode"@[6] != "right_sort"@[6]);
    assert("right_mode"@.len() != "left_mode"@.len());
    assert("show_hidden"@.len() != "left_path"@.len());
    assert("show_hidden"@.len() != "right_path"@.len());
    assert("show_hidden"@.len() != "left_sort"@.len());
    assert("show_hidden"@.len() != "right_sort"@.len());
    assert("show_hidden"@.len() != "left_mode"@.len());
    assert("show_hidden"@.len() != "right_mode"@.len());
    assert("tab_size"@.len() != "left_path"@.len());
    assert("tab_size"@.len() != "right_path"@.len());
    assert("tab_size"@.len() != "left_sort"@.len());
    assert("tab_size"@.len() != "right_sort"@.len());
    assert("tab_size"@.len() != "left_mode"@.len());
    assert("tab_size"@.len() != "right_mode"@.len());
    assert("tab_size"@.len() != "show_hidden"@.len());
    assert("auto_indent"@.len() != "left_path"@.len());
    assert("auto_indent"@.len() != "right_path"@.len());
    assert("auto_indent"@.len() != "left_sort"@.len());
    assert("auto_indent"@.len() != "right_sort"@.len());
    assert("auto_indent"@.len() != "left_mode"@.len());
    assert("auto_indent"@.len() != "right_mode"@.len());
    assert("auto_indent"@[0] != "show_hidden"@[0]);
    assert("auto_indent"@.len() != "tab_size"@.len());
    assert("word_wrap"@[0] != "left_path"@[0]);
    assert("word_wrap"@.len() != "right_path"@.len());
    assert("word_wrap"@[0] != "left_sort"@[0]);
    assert("word_wrap"@.len() != "right_sort"@.len());
    assert("word_wrap"@[0] != "left_mode"@[0]);
    assert("word_wrap"@.len() != "right_mode"@.len());
    assert("word_wrap"@.len() != "show_hidden"@.len());
    assert("word_wrap"@.len() != "tab_size"@.len());
    assert("word_wrap"@.len() != "auto_indent"@.len());
    assert("delete"@.len() != "left_path"@.len());
    assert("delete"@.len() != "right_path"@.len());
    assert("delete"@.len() != "left_sort"@.len());
    assert("delete"@.len() != "right_sort"@.len());
    assert("delete"@.len() != "left_mode"@.len());
    assert("delete"@.len() != "right_mode"@.len());
    assert("delete"@.len() != "show_hidden"@.len());
    assert("delete"@.len() != "tab_size"@.len());
    assert("delete"@.len() != "auto_indent"@.len());
    assert("delete"@.len() != "word_wrap"@.len());
    assert("overwrite"@[0] != "left_path"@[0]);
    assert("overwrite"@.len() != "right_path"@.len());
    assert("overwrite"@[0] != "left_sort"@[0]);
    assert("overwrite"@.len() != "right_sort"@.len());
    assert("overwrite"@[0] != "left_mode"@[0]);
    assert("overwrite"@.len() != "right_mode"@.len());
    assert("overwrite"@.len() != "show_hidden"@.len());
    assert("overwrite"@.len() != "tab_size"@.len());
    assert("overwrite"@.len() != "auto_indent"@.len());
    assert("overwrite"@[0] != "word_wrap"@[0]);
    assert("overwrite"@.len() != "delete"@.len());
    assert("exit"@.len() != "left_path"@.len());
    assert("exit"@.len() != "right_path"@.len());
    assert("exit"@.len() != "left_sort"@.len());
    assert("exit"@.len() != "right_sort"@.len());
    assert("exit"@.len() != "left_mode"@.len());
    assert("exit"@.len() != "right_mode"@.len());
    assert("exit"@.len() != "show_hidden"@.len());
    assert("exit"@.len() != "tab_size"@.len());
    assert("exit"@.len() != "auto_indent"@.len());
    assert("exit"@.len() != "word_wrap"@.len());
    assert("exit"@.len() != "delete"@.len());
    assert("exit"@.len() != "overwrite"@.len());
    assert("overrides"@[0] != "left_path"@[0]);
    assert("overrides"@.len() != "right_path"@.len());
    assert("overrides"@[0] != "left_sort"@[0]);
    assert("overrides"@.len() != "right_sort"@.len());
    assert("overrides"@[0] != "left_mode"@[0]);
    assert("overrides"@.len() != "right_mode"@.len());
    assert("overrides"@.len() != "show_hidden"@.len());
    assert("overrides"@.len() != "tab_size"@.len());
    assert("overrides"@.len() != "auto_indent"@.len());
    assert("overrides"@[0] != "word_wrap"@[0]);
    assert("overrides"@.len() != "delete"@.len());
    assert("overrides"@[4] != "overwrite"@[4]);
    assert("overrides"@.len() != "exit"@.len());
    assert("paths"@.len() != "left_path"@.len());
    assert("paths"@.len() != "right_path"@.len());
    assert("paths"@.len() != "left_sort"@.len());
    assert("paths"@.len() != "right_sort"@.len());
    assert("paths"@.len() != "left_mode"@.len());
    assert("paths"@.len() != "right_mode"@.len());
    assert("paths"@.len() != "show_hidden"@.len());
    assert("paths"@.len() != "tab_size"@.len());
    assert("paths"@.len() != "auto_indent"@.len());
    assert("paths"@.len() != "word_wrap"@.len());
    assert("paths"@.len() != "delete"@.len());
    assert("paths"@.len() != "overwrite"@.len());
    assert("paths"@.len() != "exit"@.len());
    assert("paths"@.len() != "overrides"@.len());
}

/// A usable key: something at both ends, no `=`, not starting like a
/// comment or a section header.
pub open spec fn key_like(key: Seq<char>) -> bool {
    solid(key) && lacks(key, '=') && key[0] != '#' && key[0] != '['
}

/// A `key = value` line sets the key to the value without its surrounding
/// double quotes.
pub proof fn lemma_kv_line(c: ConfigView, key: Seq<char>, v: Seq<char>)
    requires
        key_like(key),
        solid(v),
    ensures
        apply_line(c, key + " = "@ + v) == set_key(c, key, trim_char(v, '"')),
{
    reveal_strlit(" = ");
    let line = key + " = "@ + v;
    assert(line[0] == key[0]);
    assert(line.last() == v.last());
    lemma_trim_solid(line);
    let k: int = key.len() as int + 1;
    assert(line[key.len() as int] == ' ');
    assert(line[k] == '=');
    assert forall|j: int| 0 <= j < k implies line[j] != '=' by {
        if j < key.len() {
            assert(line[j] == key[j]);
        }
    }
    crate::text::lemma_index_of_or_len_is(line, '=', k);
    assert(line.take(k) =~= key + seq![' ']);
    assert(line.skip(k + 1) =~= seq![' '] + v);
    lemma_trim_key_space(key);
    lemma_trim_space_value(v);
}

/// Trimming double quotes off a text without them at its ends changes
/// nothing.
pub proof fn lemma_unquoted_id(v: Seq<char>)
    requires
        v.len() > 0,
        v[0] != '"',
        v.last() != '"',
    ensures
        trim_char(v, '"') == v,
{
    crate::text::lemma_strip_both(v, crate::text::equals('"'), 0, v.len() as int);
    assert(v.subrange(0, v.len() as int) =~= v);
}

/// A `key = value` line with a plain value sets the key to the value.
pub proof fn lemma_setting_line(c: ConfigView, key: Seq<char>, v: Seq<char>)
    requires
        key_like(key),
        solid(v),
        v[0] != '"',
        v.last() != '"',
    ensures
        apply_line(c, plain_setting(key, v)) == set_key(c, key, v),
{
    lemma_kv_line(c, key, v);
    lemma_unquoted_id(v);
}

/// A `key = "value"` line sets the key to the value, when the value holds
/// no double quote.
pub proof fn lemma_quoted_setting(c: ConfigView, key: Seq<char>, p: Seq<char>)
    requires
        key_like(key),
        lacks(p, '"'),
    ensures
        apply_line(c, quoted_line(key, p)) == set_key(c, key, p),
{
    reveal_strlit(" = ");
    reveal_strlit(" = \"");
    reveal_strlit("\"");
    let v = seq!['"'] + p + seq!['"'];
    assert(quoted_line(key, p) =~= key + " = "@ + v);
    assert(v[0] == '"' && v.last() == '"');
    lemma_kv_line(c, key, v);
    lemma_unquote(p);
}

/// Blank lines, comments and section headers change nothing.
pub proof fn lemma_skip_line(c: ConfigView, l: Seq<char>)
    requires
        l.len() == 0 || (solid(l) && (l[0] == '#' || l[0] == '[')),
    ensures
        apply_line(c, l) == c,
{
    if l.len() > 0 {
        lemma_trim_solid(l);
    } else {
        assert(trim(l).len() == 0) by {
            assert(crate::text::strip_start(l, |c: char| crate::text::is_white(c)) == l);
        }
    }
}

/// Reading one more line after some lines.
pub proof fn lemma_apply_push(c: ConfigView, ls: Seq<Seq<char>>, l: Seq<char>)
    ensures
        apply_lines(c, ls.push(l)) == apply_line(apply_lines(c, ls), l),
    decreases ls.len(),
{
    if ls.len() == 0 {
        assert(ls.push(l).drop_first() =~= Seq::<Seq<char>>::empty());
        reveal_with_fuel(apply_lines, 2);
    } else {
        lemma_apply_push(apply_line(c, ls[0]), ls.drop_first(), l);
        assert(ls.push(l).drop_first() =~= ls.drop_first().push(l));
    }
}

/// Texts joined without a character between them keep not holding it.
pub proof fn lemma_joined_lacks(items: Seq<Seq<char>>, sep: char, x: char)
    requires
        sep != x,
        forall|i: int| 0 <= i < items.len() ==> lacks(#[trigger] items[i], x),
    ensures
        lacks(joined(items, sep), x),
    decreases items.len(),
{
    if items.len() > 1 {
        let rest = items.drop_first();
        assert forall|i: int| 0 <= i < rest.len() implies lacks(#[trigger] rest[i], x) by {
            assert(rest[i] == items[i + 1]);
        }
        lemma_joined_lacks(rest, sep, x);
        let s = joined(items, sep);
        assert forall|i: int| 0 <= i < s.len() implies s[i] != x by {
            assert(lacks(items[0], x));
            if i < items[0].len() {
                assert(s[i] == items[0][i]);
            } else if i > items[0].len() {
                assert(s[i] == joined(rest, sep)[i - items[0].len() - 1]);
            }
        }
    } else if items.len() == 1 {
        assert(lacks(items[0], x));
    }
}

/// Settings that reading back their own file gives unchanged: panel
/// paths without double quotes, backslashes or newlines; colour overrides
/// trimmed and not empty, without commas, double quotes or newlines; at
/// least one bookmark, none with `|`, double quotes or newlines.
pub open spec fn savable(c: ConfigView) -> bool {
    &&& lacks(c.left_path, '"') && lacks(c.left_path, '\\') && lacks(c.left_path, '\n')
    &&& lacks(c.right_path, '"') && lacks(c.right_path, '\\') && lacks(c.right_path, '\n')
    &&& forall|i: int| 0 <= i < c.theme_overrides.len() ==> {
        let o = #[trigger] c.theme_overrides[i];
        solid(o) && lacks(o, ',') && lacks(o, '"') && lacks(o, '\n')
    }
    &&& c.bookmarks.len() > 0
    &&& forall|i: int| 0 <= i < c.bookmarks.len() ==> {
        let b = #[trigger] c.bookmarks[i];
        lacks(b, '|') && lacks(b, '"') && lacks(b, '\n')
    }
}

/// The keys are usable keys.
pub proof fn lemma_keys_like()
    ensures
        key_like("left_path"@) && lacks("left_path"@, '\n'),
        key_like("right_path"@) && lacks("right_path"@, '\n'),
        key_like("left_sort"@) && lacks("left_sort"@, '\n'),
        key_like("right_sort"@) && lacks("right_sort"@, '\n'),
        key_like("left_mode"@) && lacks("left_mode"@, '\n'),
        key_like("right_mode"@) && lacks("right_mode"@, '\n'),
        key_like("show_hidden"@) && lacks("show_hidden"@, '\n'),
        key_like("tab_size"@) && lacks("tab_size"@, '\n'),
        key_like("auto_indent"@) && lacks("auto_indent"@, '\n'),
        key_like("word_wrap"@) && lacks("word_wrap"@, '\n'),
        key_like("delete"@) && lacks("delete"@, '\n'),
        key_like("overwrite"@) && lacks("overwrite"@, '\n'),
        key_like("exit"@) && lacks("exit"@, '\n'),
        key_like("overrides"@) && lacks("overrides"@, '\n'),
        key_like("paths"@) && lacks("paths"@, '\n'),
{
    reveal_strlit("left_path");
    reveal_strlit("right_path");
    reveal_strlit("left_sort");
    reveal_strlit("right_sort");
    reveal_strlit("left_mode");
    reveal_strlit("right_mode");
    reveal_strlit("show_hidden");
    reveal_strlit("tab_size");
    reveal_strlit("auto_indent");
    reveal_strlit("word_wrap");
    reveal_strlit("delete");
    reveal_strlit("overwrite");
    reveal_strlit("exit");
    reveal_strlit("overrides");
    reveal_strlit("paths");
}

/// Mode, sort and switch names read back as what they name, and are plain
/// words.
pub proof fn lemma_names(m: SortMode, p: PanelMode, b: bool)
    ensures
        sort_named(sort_name(m)) == m,
        mode_named(mode_name(p)) == p,
        (bool_text(b) == "true"@) == b,
        lacks(sort_name(m), '"') && lacks(sort_name(m), '\n'),
        lacks(mode_name(p), '"') && lacks(mode_name(p), '\n'),
        solid(bool_text(b)) && bool_text(b)[0] != '"' && bool_text(b).last() != '"' && lacks(bool_text(b), '\n'),
{
    reveal_strlit("name");
    reveal_strlit("extension");
    reveal_strlit("size");
    reveal_strlit("date");
    reveal_strlit("unsorted");
    reveal_strlit("brief");
    reveal_strlit("full");
    reveal_strlit("true");
    reveal_strlit("false");
    assert("extension"@.len() != "name"@.len());
    assert("size"@[0] != "name"@[0]);
    assert("size"@.len() != "extension"@.len());
    assert("date"@[0] != "name"@[0]);
    assert("date"@.len() != "extension"@.len());
    assert("date"@[0] != "size"@[0]);
    assert("unsorted"@.len() != "name"@.len());
    assert("unsorted"@.len() != "extension"@.len());
    assert("unsorted"@.len() != "size"@.len());
    assert("unsorted"@.len() != "date"@.len());
    assert("full"@[0] != "brief"@[0]);
    assert("false"@[0] != "true"@[0]);
}

/// A line of the settings file is one that `str::lines` gives back.
pub proof fn lemma_line_plain(l: Seq<char>)
    requires
        lacks(l, '\n'),
        l.len() > 0 ==> !crate::text::is_white(l.last()),
    ensures
        crate::uucode::plain_line(l),
{
}

/// The settings after the first `n` lines of their own file are read over
/// the defaults for `dir`: the fields those lines set come from `c`.
pub open spec fn read_prefix(c: ConfigView, dir: Seq<char>, n: int) -> ConfigView {
    let d = default_view(dir);
    let a = if n >= 11 {
        ConfigView {
            left_path: c.left_path,
            right_path: c.right_path,
            left_sort: c.left_sort,
            right_sort: c.right_sort,
            left_mode: c.left_mode,
            right_mode: c.right_mode,
            show_hidden: c.show_hidden,
            ..d
        }
    } else {
        d
    };
    let b = if n >= 16 {
        ConfigView { editor_tab_size: c.editor_tab_size, editor_auto_indent: c.editor_auto_indent, editor_word_wrap: c.editor_word_wrap, ..a }
    } else {
        a
    };
    let e = if n >= 21 {
        ConfigView { confirm_delete: c.confirm_delete, confirm_overwrite: c.confirm_overwrite, confirm_exit: c.confirm_exit, ..b }
    } else {
        b
    };
    let f = if n >= 24 { ConfigView { theme_overrides: c.theme_overrides, ..e } } else { e };
    if n >= 27 { ConfigView { bookmarks: c.bookmarks, ..f } } else { f }
}

/// Reading lines 0 to 4 of the settings file.
proof fn lemma_read_lines_0(c: ConfigView, dir: Seq<char>)
    requires
        savable(c),
    ensures
        apply_lines(default_view(dir), config_lines(c).take(4)) == read_prefix(c, dir, 4),
{
    lemma_escape_plain(c.left_path);
    lemma_escape_plain(c.right_path);
    lemma_keys_like();
    lemma_key_indices();
    reveal_strlit("# RDN - Rust Dos Navigator configuration");
    reveal_strlit("# Auto-generated. Edit carefully.");
    reveal_strlit("[panels]");
    reveal_strlit("[editor]");
    reveal_strlit("[confirmations]");
    reveal_strlit("[theme]");
    reveal_strlit("[bookmarks]");

    let ls = config_lines(c);
    let c0 = default_view(dir);
    assert(ls.take(0) =~= Seq::<Seq<char>>::empty());
    let s0 = read_prefix(c, dir, 0);
    lemma_apply_push(c0, ls.take(0), ls[0]);
    assert(ls.take(1) =~= ls.take(0).push(ls[0]));
    lemma_skip_line(s0, ls[0]);
    let s1 = s0;
    lemma_apply_push(c0, ls.take(1), ls[1]);
    assert(ls.take(2) =~= ls.take(1).push(ls[1]));
    lemma_skip_line(s1, ls[1]);
    let s2 = s1;
    lemma_apply_push(c0, ls.take(2), ls[2]);
    assert(ls.take(3) =~= ls.take(2).push(ls[2]));
    lemma_skip_line(s2, ls[2]);
    let s3 = s2;
    lemma_apply_push(c0, ls.take(3), ls[3]);
    assert(ls.take(4) =~= ls.take(3).push(ls[3]));
    lemma_skip_line(s3, ls[3]);
    let s4 = s3;
    assert(s4 =~= read_prefix(c, dir, 4));
}
/// Reading lines 4 to 11 of the settings file.
#[verifier::rlimit(40)]
proof fn lemma_read_lines_4(c: ConfigView, dir: Seq<char>)
    requires
        savable(c),
        apply_lines(default_view(dir), config_lines(c).take(4)) == read_prefix(c, dir, 4),
    ensures
        apply_lines(default_view(dir), config_lines(c).take(11)) == read_prefix(c, dir, 11),
{
    lemma_escape_plain(c.left_path);
    lemma_escape_plain(c.right_path);
    lemma_keys_like();
    lemma_key_indices();
    reveal_strlit("# RDN - Rust Dos Navigator configuration");
    reveal_strlit("# Auto-generated. Edit carefully.");
    reveal_strlit("[panels]");
    reveal_strlit("[editor]");
    reveal_strlit("[confirmations]");
    reveal_strlit("[theme]");
    reveal_strlit("[bookmarks]");

    let ls = config_lines(c);
    let c0 = default_view(dir);
    let s4 = read_prefix(c, dir, 4);
    lemma_names(c.left_sort, c.left_mode, c.show_hidden);
    lemma_names(c.right_sort, c.right_mode, c.show_hidden);
    lemma_apply_push(c0, ls.take(4), ls[4]);
    assert(ls.take(5) =~= ls.take(4).push(ls[4]));
    lemma_quoted_setting(s4, "left_path"@, c.left_path);
    let s5 = set_key(s4, "left_path"@, c.left_path);
    lemma_apply_push(c0, ls.take(5), ls[5]);
    assert(ls.take(6) =~= ls.take(5).push(ls[5]));
    lemma_quoted_setting(s5, "right_path"@, c.right_path);
    let s6 = set_key(s5, "right_path"@, c.right_path);
    lemma_apply_push(c0, ls.take(6), ls[6]);
    assert(ls.take(7) =~= ls.take(6).push(ls[6]));
    lemma_quoted_setting(s6, "left_sort"@, sort_name(c.left_sort));
    let s7 = set_key(s6, "left_sort"@, sort_name(c.left_sort));
    lemma_apply_push(c0, ls.take(7), ls[7]);
    assert(ls.take(8) =~= ls.take(7).push(ls[7]));
    lemma_quoted_setting(s7, "right_sort"@, sort_name(c.right_sort));
    let s8 = set_key(s7, "right_sort"@, sort_name(c.right_sort));
    lemma_apply_push(c0, ls.take(8), ls[8]);
    assert(ls.take(9) =~= ls.take(8).push(ls[8]));
    lemma_quoted_setting(s8, "left_mode"@, mode_name(c.left_mode));
    let s9 = set_key(s8, "left_mode"@, mode_name(c.left_mode));
    lemma_apply_push(c0, ls.take(9), ls[9]);
    assert(ls.take(10) =~= ls.take(9).push(ls[9]));
    lemma_quoted_setting(s9, "right_mode"@, mode_name(c.right_mode));
    let s10 = set_key(s9, "right_mode"@, mode_name(c.right_mode));
    lemma_apply_push(c0, ls.take(10), ls[10]);
    assert(ls.take(11) =~= ls.take(10).push(ls[10]));
    lemma_setting_line(s10, "show_hidden"@, bool_text(c.show_hidden));
    let s11 = set_key(s10, "show_hidden"@, bool_text(c.show_hidden));
    assert(s11 =~= read_prefix(c, dir, 11));
}

/// Reading lines 11 to 16 of the settings file.
proof fn lemma_read_lines_11(c: ConfigView, dir: Seq<char>)
    requires
        savable(c),
        apply_lines(default_view(dir), config_lines(c).take(11)) == read_prefix(c, dir, 11),
    ensures
        apply_lines(default_view(dir), config_lines(c).take(16)) == read_prefix(c, dir, 16),
{
    lemma_escape_plain(c.left_path);
    lemma_escape_plain(c.right_path);
    lemma_keys_like();
    lemma_key_indices();
    reveal_strlit("# RDN - Rust Dos Navigator configuration");
    reveal_strlit("# Auto-generated. Edit carefully.");
    reveal_strlit("[panels]");
    reveal_strlit("[editor]");
    reveal_strlit("[confirmations]");
    reveal_strlit("[theme]");
    reveal_strlit("[bookmarks]");

    let ls = config_lines(c);
    let c0 = default_view(dir);
    let s11 = read_prefix(c, dir, 11);
    lemma_names(c.left_sort, c.left_mode, c.editor_auto_indent);
    lemma_names(c.left_sort, c.left_mode, c.editor_word_wrap);
    lemma_decimal_parse(c.editor_tab_size as nat);
    let ts = decimal(c.editor_tab_size as nat);
    assert(solid(ts) && ts[0] != '"' && ts.last() != '"') by {
        assert('0' <= ts[0] <= '9');
        assert('0' <= ts[ts.len() - 1] <= '9');
    }
    lemma_apply_push(c0, ls.take(11), ls[11]);
    assert(ls.take(12) =~= ls.take(11).push(ls[11]));
    lemma_skip_line(s11, ls[11]);
    let s12 = s11;
    lemma_apply_push(c0, ls.take(12), ls[12]);
    assert(ls.take(13) =~= ls.take(12).push(ls[12]));
    lemma_skip_line(s12, ls[12]);
    let s13 = s12;
    lemma_apply_push(c0, ls.take(13), ls[13]);
    assert(ls.take(14) =~= ls.take(13).push(ls[13]));
    lemma_setting_line(s13, "tab_size"@, decimal(c.editor_tab_size as nat));
    let s14 = set_key(s13, "tab_size"@, decimal(c.editor_tab_size as nat));
    lemma_apply_push(c0, ls.take(14), ls[14]);
    assert(ls.take(15) =~= ls.take(14).push(ls[14]));
    lemma_setting_line(s14, "auto_indent"@, bool_text(c.editor_auto_indent));
    let s15 = set_key(s14, "auto_indent"@, bool_text(c.editor_auto_indent));
    lemma_apply_push(c0, ls.take(15), ls[15]);
    assert(ls.take(16) =~= ls.take(15).push(ls[15]));
    lemma_setting_line(s15, "word_wrap"@, bool_text(c.editor_word_wrap));
    let s16 = set_key(s15, "word_wrap"@, bool_text(c.editor_word_wrap));
    assert(s16 =~= read_prefix(c, dir, 16));
}

/// Reading lines 16 to 21 of the settings file.
proof fn lemma_read_lines_16(c: ConfigView, dir: Seq<char>)
    requires
        savable(c),
        apply_lines(default_view(dir), config_lines(c).take(16)) == read_prefix(c, dir, 16),
    ensures
        apply_lines(default_view(dir), config_lines(c).take(21)) == read_prefix(c, dir, 21),
{
    lemma_escape_plain(c.left_path);
    lemma_escape_plain(c.right_path);
    lemma_keys_like();
    lemma_key_indices();
    reveal_strlit("# RDN - Rust Dos Navigator configuration");
    reveal_strlit("# Auto-generated. Edit carefully.");
    reveal_strlit("[panels]");
    reveal_strlit("[editor]");
    reveal_strlit("[confirmations]");
    reveal_strlit("[theme]");
    reveal_strlit("[bookmarks]");

    let ls = config_lines(c);
    let c0 = default_view(dir);
    let s16 = read_prefix(c, dir, 16);
    lemma_names(c.left_sort, c.left_mode, c.confirm_delete);
    lemma_names(c.left_sort, c.left_mode, c.confirm_overwrite);
    lemma_names(c.left_sort, c.left_mode, c.confirm_exit);
    lemma_apply_push(c0, ls.take(16), ls[16]);
    assert(ls.take(17) =~= ls.take(16).push(ls[16]));
    lemma_skip_line(s16, ls[16]);
    let s17 = s16;
    lemma_apply_push(c0, ls.take(17), ls[17]);
    assert(ls.take(18) =~= ls.take(17).push(ls[17]));
    lemma_skip_line(s17, ls[17]);
    let s18 = s17;
    lemma_apply_push(c0, ls.take(18), ls[18]);
    assert(ls.take(19) =~= ls.take(18).push(ls[18]));
    lemma_setting_line(s18, "delete"@, bool_text(c.confirm_delete));
    let s19 = set_key(s18, "delete"@, bool_text(c.confirm_delete));
    lemma_apply_push(c0, ls.take(19), ls[19]);
    assert(ls.take(20) =~= ls.take(19).push(ls[19]));
    lemma_setting_line(s19, "overwrite"@, bool_text(c.confirm_overwrite));
    let s20 = set_key(s19, "overwrite"@, bool_text(c.confirm_overwrite));
    lemma_apply_push(c0, ls.take(20), ls[20]);
    assert(ls.take(21) =~= ls.take(20).push(ls[20]));
    lemma_setting_line(s20, "exit"@, bool_text(c.confirm_exit));
    let s21 = set_key(s20, "exit"@, bool_text(c.confirm_exit));
    assert(s21 =~= read_prefix(c, dir, 21));
}

/// Reading lines 21 to 24 of the settings file.
proof fn lemma_read_lines_21(c: ConfigView, dir: Seq<char>)
    requires
        savable(c),
        apply_lines(default_view(dir), config_lines(c).take(21)) == read_prefix(c, dir, 21),
    ensures
        apply_lines(default_view(dir), config_lines(c).take(24)) == read_prefix(c, dir, 24),
{
    lemma_escape_plain(c.left_path);
    lemma_escape_plain(c.right_path);
    lemma_keys_like();
    lemma_key_indices();
    reveal_strlit("# RDN - Rust Dos Navigator configuration");
    reveal_strlit("# Auto-generated. Edit carefully.");
    reveal_strlit("[panels]");
    reveal_strlit("[editor]");
    reveal_strlit("[confirmations]");
    reveal_strlit("[theme]");
    reveal_strlit("[bookmarks]");

    let ls = config_lines(c);
    let c0 = default_view(dir);
    let s21 = read_prefix(c, dir, 21);
    assert forall|i: int| 0 <= i < c.theme_overrides.len() implies lacks(#[trigger] c.theme_overrides[i], '"') by {}
    lemma_joined_lacks(c.theme_overrides, ',', '"');
    proof_overrides_bookmarks(c);
    lemma_apply_push(c0, ls.take(21), ls[21]);
    assert(ls.take(22) =~= ls.take(21).push(ls[21]));
    lemma_skip_line(s21, ls[21]);
    let s22 = s21;
    lemma_apply_push(c0, ls.take(22), ls[22]);
    assert(ls.take(23) =~= ls.take(22).push(ls[22]));
    lemma_skip_line(s22, ls[22]);
    let s23 = s22;
    lemma_apply_push(c0, ls.take(23), ls[23]);
    assert(ls.take(24) =~= ls.take(23).push(ls[23]));
    lemma_quoted_setting(s23, "overrides"@, joined(c.theme_overrides, ','));
    let s24 = set_key(s23, "overrides"@, joined(c.theme_overrides, ','));
    assert(s24 =~= read_prefix(c, dir, 24));
}

/// Reading lines 24 to 27 of the settings file.
proof fn lemma_read_lines_24(c: ConfigView, dir: Seq<char>)
    requires
        savable(c),
        apply_lines(default_view(dir), config_lines(c).take(24)) == read_prefix(c, dir, 24),
    ensures
        apply_lines(default_view(dir), config_lines(c).take(27)) == read_prefix(c, dir, 27),
{
    lemma_escape_plain(c.left_path);
    lemma_escape_plain(c.right_path);
    lemma_keys_like();
    lemma_key_indices();
    reveal_strlit("# RDN - Rust Dos Navigator configuration");
    reveal_strlit("# Auto-generated. Edit carefully.");
    reveal_strlit("[panels]");
    reveal_strlit("[editor]");
    reveal_strlit("[confirmations]");
    reveal_strlit("[theme]");
    reveal_strlit("[bookmarks]");

    let ls = config_lines(c);
    let c0 = default_view(dir);
    let s24 = read_prefix(c, dir, 24);
    assert forall|i: int| 0 <= i < c.bookmarks.len() implies lacks(#[trigger] c.bookmarks[i], '"') by {}
    lemma_joined_lacks(c.bookmarks, '|', '"');
    proof_overrides_bookmarks(c);
    lemma_apply_push(c0, ls.take(24), ls[24]);
    assert(ls.take(25) =~= ls.take(24).push(ls[24]));
    lemma_skip_line(s24, ls[24]);
    let s25 = s24;
    lemma_apply_push(c0, ls.take(25), ls[25]);
    assert(ls.take(26) =~= ls.take(25).push(ls[25]));
    lemma_skip_line(s25, ls[25]);
    let s26 = s25;
    lemma_apply_push(c0, ls.take(26), ls[26]);
    assert(ls.take(27) =~= ls.take(26).push(ls[26]));
    lemma_quoted_setting(s26, "paths"@, joined(c.bookmarks, '|'));
    let s27 = set_key(s26, "paths"@, joined(c.bookmarks, '|'));
    assert(s27 =~= read_prefix(c, dir, 27));
}

/// The lines of the settings file come back from its text.
proof fn lemma_config_lines_plain(c: ConfigView)
    requires
        savable(c),
    ensures
        split_lines(config_text(c)) == config_lines(c),
{
    let ls = config_lines(c);
    lemma_escape_plain(c.left_path);
    lemma_escape_plain(c.right_path);
    lemma_keys_like();
    lemma_names(c.left_sort, c.left_mode, c.show_hidden);
    lemma_names(c.right_sort, c.right_mode, c.editor_auto_indent);
    lemma_names(c.left_sort, c.left_mode, c.editor_word_wrap);
    lemma_names(c.left_sort, c.left_mode, c.confirm_delete);
    lemma_names(c.left_sort, c.left_mode, c.confirm_overwrite);
    lemma_names(c.left_sort, c.left_mode, c.confirm_exit);
    lemma_decimal_parse(c.editor_tab_size as nat);
    let ts = decimal(c.editor_tab_size as nat);
    assert(solid(ts) && lacks(ts, '\n')) by {
        assert('0' <= ts[0] <= '9');
        assert('0' <= ts[ts.len() - 1] <= '9');
        assert forall|i: int| 0 <= i < ts.len() implies ts[i] != '\n' by {
            assert('0' <= ts[i] <= '9');
        }
    }
    assert forall|i: int| 0 <= i < c.theme_overrides.len() implies lacks(#[trigger] c.theme_overrides[i], '\n') by {}
    assert forall|i: int| 0 <= i < c.bookmarks.len() implies lacks(#[trigger] c.bookmarks[i], '\n') by {}
    lemma_joined_lacks(c.theme_overrides, ',', '\n');
    lemma_joined_lacks(c.bookmarks, '|', '\n');
    reveal_strlit("# RDN - Rust Dos Navigator configuration");
    reveal_strlit("# Auto-generated. Edit carefully.");
    reveal_strlit("[panels]");
    reveal_strlit("[editor]");
    reveal_strlit("[confirmations]");
    reveal_strlit("[theme]");
    reveal_strlit("[bookmarks]");
    assert forall|i: int| 0 <= i < ls.len() implies crate::uucode::plain_line(#[trigger] ls[i]) by {
        if i == 4 {
            lemma_quoted_plain("left_path"@, c.left_path);
        } else if i == 5 {
            lemma_quoted_plain("right_path"@, c.right_path);
        } else if i == 6 {
            lemma_quoted_plain("left_sort"@, sort_name(c.left_sort));
        } else if i == 7 {
            lemma_quoted_plain("right_sort"@, sort_name(c.right_sort));
        } else if i == 8 {
            lemma_quoted_plain("left_mode"@, mode_name(c.left_mode));
        } else if i == 9 {
            lemma_quoted_plain("right_mode"@, mode_name(c.right_mode));
        } else if i == 23 {
            lemma_quoted_plain("overrides"@, joined(c.theme_overrides, ','));
        } else if i == 26 {
            lemma_quoted_plain("paths"@, joined(c.bookmarks, '|'));
        } else if i == 10 {
            lemma_setting_plain("show_hidden"@, bool_text(c.show_hidden));
        } else if i == 13 {
            lemma_setting_plain("tab_size"@, ts);
        } else if i == 14 {
            lemma_setting_plain("auto_indent"@, bool_text(c.editor_auto_indent));
        } else if i == 15 {
            lemma_setting_plain("word_wrap"@, bool_text(c.editor_word_wrap));
        } else if i == 18 {
            lemma_setting_plain("delete"@, bool_text(c.confirm_delete));
        } else if i == 19 {
            lemma_setting_plain("overwrite"@, bool_text(c.confirm_overwrite));
        } else if i == 20 {
            lemma_setting_plain("exit"@, bool_text(c.confirm_exit));
        }
    }
    crate::uucode::lemma_split_lines_text(ls);
}

/// A `key = "value"` line is plain when key and value hold no newline.
proof fn lemma_quoted_plain(key: Seq<char>, v: Seq<char>)
    requires
        lacks(key, '\n'),
        lacks(v, '\n'),
    ensures
        crate::uucode::plain_line(quoted_line(key, v)),
{
    reveal_strlit(" = \"");
    reveal_strlit("\"");
    let l = quoted_line(key, v);
    assert forall|j: int| 0 <= j < l.len() implies l[j] != '\n' by {
        if j < key.len() {
            assert(l[j] == key[j]);
        } else if key.len() + 4 <= j < key.len() + 4 + v.len() {
            assert(l[j] == v[j - key.len() - 4]);
        }
    }
}

/// A `key = value` line is plain when key and value hold no newline and
/// the value does not end in white space.
proof fn lemma_setting_plain(key: Seq<char>, v: Seq<char>)
    requires
        lacks(key, '\n'),
        lacks(v, '\n'),
        solid(v),
    ensures
        crate::uucode::plain_line(plain_setting(key, v)),
{
    reveal_strlit(" = ");
    let l = plain_setting(key, v);
    assert(l.last() == v.last());
    assert forall|j: int| 0 <= j < l.len() implies l[j] != '\n' by {
        if j < key.len() {
            assert(l[j] == key[j]);
        } else if key.len() + 3 <= j {
            assert(l[j] == v[j - key.len() - 3]);
        }
    }
}

/// Saving settings and reading the file back gives the same settings, for
/// settings whose texts survive the file's quoting (see `savable`).
pub proof fn lemma_config_roundtrip(c: ConfigView, dir: Seq<char>)
    requires
        savable(c),
    ensures
        read_config(config_text(c), dir) == c,
{
    lemma_config_lines_plain(c);
    lemma_read_lines_0(c, dir);
    lemma_read_lines_4(c, dir);
    lemma_read_lines_11(c, dir);
    lemma_read_lines_16(c, dir);
    lemma_read_lines_21(c, dir);
    lemma_read_lines_24(c, dir);
    assert(config_lines(c).take(27) =~= config_lines(c));
    assert(read_prefix(c, dir, 27) =~= c);
}

/// The colour overrides and bookmarks read back from their joined text.
proof fn proof_overrides_bookmarks(c: ConfigView)
    requires
        savable(c),
    ensures
        c.theme_overrides.len() > 0 ==> trimmed_nonempty(split_on(joined(c.theme_overrides, ','), ',')) == c.theme_overrides
            && joined(c.theme_overrides, ',').len() > 0,
        c.theme_overrides.len() == 0 ==> joined(c.theme_overrides, ',').len() == 0,
        split_on(joined(c.bookmarks, '|'), '|') == c.bookmarks,
{
    if c.theme_overrides.len() > 0 {
        assert forall|i: int| 0 <= i < c.theme_overrides.len() implies lacks(#[trigger] c.theme_overrides[i], ',') by {}
        lemma_split_joined(c.theme_overrides, ',');
        lemma_trimmed_nonempty_id(c.theme_overrides);
        lemma_joined_nonempty(c.theme_overrides, ',');
    }
    assert forall|i: int| 0 <= i < c.bookmarks.len() implies lacks(#[trigger] c.bookmarks[i], '|') by {}
    lemma_split_joined(c.bookmarks, '|');
}

/// Joining texts whose first is not empty gives a text that is not empty.
proof fn lemma_joined_nonempty(items: Seq<Seq<char>>, sep: char)
    requires
        items.len() > 0,
        items[0].len() > 0,
    ensures
        joined(items, sep).len() > 0,
{
}

} // verus!
