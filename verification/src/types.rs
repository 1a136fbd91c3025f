//! Shared data types: panel entries, sort and display modes, dialogs.

use vstd::prelude::*;
use crate::numfmt::{decimal, digit_char, u64_to_decimal};
use crate::text::{append_str, push_char};

verus! {

/// Sorting mode for file panels.
#[derive(Debug, Clone, Copy, PartialEq, Eq, Structural)]
pub enum SortMode {
    Name,
    Extension,
    Size,
    Date,
    Unsorted,
}

/// The label shown for a sort mode.
pub open spec fn sort_label(m: SortMode) -> Seq<char> {
    match m {
        SortMode::Name => "Name"@,
        SortMode::Extension => "Ext"@,
        SortMode::Size => "Size"@,
        SortMode::Date => "Date"@,
        SortMode::Unsorted => "Unsorted"@,
    }
}

/// The mode that follows `m` when cycling: Name, Ext, Size, Date, Unsorted.
pub open spec fn sort_next(m: SortMode) -> SortMode {
    match m {
        SortMode::Name => SortMode::Extension,
        SortMode::Extension => SortMode::Size,
        SortMode::Size => SortMode::Date,
        SortMode::Date => SortMode::Unsorted,
        SortMode::Unsorted => SortMode::Name,
    }
}

impl SortMode {
    pub fn label(&self) -> (r: &'static str)
        ensures
            r@ == sort_label(*self),
    {
        match self {
            SortMode::Name => "Name",
            SortMode::Extension => "Ext",
            SortMode::Size => "Size",
            SortMode::Date => "Date",
            SortMode::Unsorted => "Unsorted",
        }
    }

    pub fn next(&self) -> (r: SortMode)
        ensures
            r == sort_next(*self),
    {
        match self {
            SortMode::Name => SortMode::Extension,
            SortMode::Extension => SortMode::Size,
            SortMode::Size => SortMode::Date,
            SortMode::Date => SortMode::Unsorted,
            SortMode::Unsorted => SortMode::Name,
        }
    }
}

/// Display mode for a file panel.
#[derive(Debug, Clone, Copy, PartialEq, Eq, Structural)]
pub enum PanelMode {
    Brief,
    Full,
}

/// One entry of a file panel. `path` is the text of the entry's path;
/// `modified` is the modification time in nanoseconds since the Unix epoch.
#[derive(Debug, Clone)]
pub struct FileEntry {
    pub name: String,
    pub path: String,
    pub is_dir: bool,
    pub is_symlink: bool,
    pub size: u64,
    pub modified: Option<u64>,
    pub is_readonly: bool,
    pub is_hidden: bool,
    pub is_executable: bool,
    pub selected: bool,
}

/// What an entry holds, with its texts as character sequences.
pub struct EntryView {
    pub name: Seq<char>,
    pub path: Seq<char>,
    pub is_dir: bool,
    pub is_symlink: bool,
    pub size: u64,
    pub modified: Option<u64>,
    pub is_readonly: bool,
    pub is_hidden: bool,
    pub is_executable: bool,
    pub selected: bool,
}

impl View for FileEntry {
    type V = EntryView;

    open spec fn view(&self) -> EntryView {
        EntryView {
            name: self.name@,
            path: self.path@,
            is_dir: self.is_dir,
            is_symlink: self.is_symlink,
            size: self.size,
            modified: self.modified,
            is_readonly: self.is_readonly,
            is_hidden: self.is_hidden,
            is_executable: self.is_executable,
            selected: self.selected,
        }
    }
}

impl DeepView for FileEntry {
    type V = EntryView;

    open spec fn deep_view(&self) -> EntryView {
        self@
    }
}

/// The extension of an entry's path, or the empty text.
pub open spec fn entry_extension(path: Seq<char>) -> Seq<char> {
    match crate::paths::extension(path) {
        Some(e) => e,
        None => Seq::empty(),
    }
}

/// Nearest `f64` to a natural number below 2^64 (ties to even), as an
/// integer: the value `n as f64` holds.
pub open spec fn f64_unit(n: nat) -> nat
    decreases n,
{
    if n < 0x20_0000_0000_0000 {
        1
    } else {
        2 * f64_unit(n / 2)
    }
}

pub open spec fn round_to_f64(n: nat) -> nat {
    let u = f64_unit(n);
    let r = n % u;
    let lo = (n - r) as nat;
    if 2 * r > u {
        lo + u
    } else if 2 * r < u {
        lo
    } else if (lo / u) % 2 == 0 {
        lo
    } else {
        lo + u
    }
}

/// `x / d` rounded to the nearest integer, ties to even.
pub open spec fn div_round_even(x: nat, d: nat) -> nat {
    let q = x / d;
    let r = x % d;
    if 2 * r > d {
        q + 1
    } else if 2 * r < d {
        q
    } else if q % 2 == 0 {
        q
    } else {
        q + 1
    }
}

/// `v / d` written with one decimal, as `format!("{:.1}", v as f64 / d as f64)`
/// writes it when `d` is a power of two.
pub open spec fn one_decimal(v: nat, d: nat) -> Seq<char> {
    let q = div_round_even(v * 10, d);
    decimal(q / 10).push('.').push(digit_char(q % 10))
}

pub const KIB: u64 = 1024;
pub const MIB: u64 = 1048576;
pub const GIB: u64 = 1073741824;

/// Size column text: `<DIR>`, bytes, whole KiB with `K`, or MiB / GiB with
/// one decimal and `M` / `G`.
pub open spec fn size_text(is_dir: bool, size: nat) -> Seq<char> {
    if is_dir {
        "<DIR>"@
    } else if size < 1024 {
        decimal(size)
    } else if size < 1048576 {
        decimal(size / 1024).push('K')
    } else if size < 1073741824 {
        one_decimal(size, 1048576).push('M')
    } else {
        one_decimal(round_to_f64(size), 1073741824).push('G')
    }
}

/// Appends `v / d` with one decimal.
fn push_one_decimal(out: &mut String, v: u128, d: u128)
    requires
        1024 <= d <= 0x1_0000_0000,
        v <= 0x2_0000_0000_0000_0000,
    ensures
        final(out)@ == old(out)@ + one_decimal(v as nat, d as nat),
{
    let x = v * 10;
    let q0 = x / d;
    let r = x % d;
    let q = if 2 * r > d {
        q0 + 1
    } else if 2 * r < d {
        q0
    } else if q0 % 2 == 0 {
        q0
    } else {
        q0 + 1
    };
    assert(q == div_round_even((v * 10) as nat, d as nat));
    assert(q0 <= x / 1024) by (nonlinear_arith)
        requires q0 == x / d, d >= 1024;
    let whole = (q / 10) as u64;
    let frac = (q % 10) as u64;
    assert(whole as nat == q as nat / 10);
    assert(frac < 10);
    let w = u64_to_decimal(whole);
    append_str(out, w.as_str());
    push_char(out, '.');
    let b: u8 = 48 + frac as u8;
    let c = b as char;
    assert(c == digit_char((q % 10) as nat));
    push_char(out, c);
    assert(final(out)@ =~= old(out)@ + one_decimal(v as nat, d as nat));
}

/// `size as f64` as an integer value.
fn round_to_f64_exec(n: u64) -> (r: u128)
    ensures
        r == round_to_f64(n as nat),
        r <= 0x1_0000_0000_0000_1000,
{
    let mut u: u128 = 1;
    let mut m: u128 = n as u128;
    while m >= 0x20_0000_0000_0000
        invariant
            u >= 1,
            u <= 4096,
            m as int == (n as int) / (u as int),
            f64_unit(n as nat) == u * f64_unit(m as nat),
        decreases m,
    {
        assert(f64_unit(m as nat) == 2 * f64_unit((m / 2) as nat));
        proof {
            vstd::arithmetic::div_mod::lemma_div_denominator(n as int, u as int, 2);
        }
        assert(u * 2 <= 4096) by (nonlinear_arith)
            requires
                m as int == (n as int) / (u as int),
                u >= 1,
                m >= 0x20_0000_0000_0000,
                n <= u64::MAX,
        ;
        let ghost old_u = u;
        u = u * 2;
        m = m / 2;
        assert(f64_unit(n as nat) == u * f64_unit(m as nat)) by (nonlinear_arith)
            requires
                f64_unit(n as nat) == old_u * (2 * f64_unit(m as nat)),
                u == old_u * 2,
        ;
    }
    assert(f64_unit(m as nat) == 1);
    assert(u * f64_unit(m as nat) == u * 1);
    assert(f64_unit(n as nat) == u);
    let nn = n as u128;
    let r = nn % u;
    assert(r <= nn) by (nonlinear_arith)
        requires r == nn % u, u >= 1;
    let lo = nn - r;
    if 2 * r > u {
        lo + u
    } else if 2 * r < u {
        lo
    } else if (lo / u) % 2 == 0 {
        lo
    } else {
        lo + u
    }
}

impl FileEntry {
    /// A copy of the entry.
    pub fn duplicate(&self) -> (r: FileEntry)
        ensures
            r@ == self@,
    {
        FileEntry {
            name: self.name.clone(),
            path: self.path.clone(),
            is_dir: self.is_dir,
            is_symlink: self.is_symlink,
            size: self.size,
            modified: self.modified,
            is_readonly: self.is_readonly,
            is_hidden: self.is_hidden,
            is_executable: self.is_executable,
            selected: self.selected,
        }
    }

    /// The extension of the entry's path (`""` when it has none).
    pub fn extension(&self) -> (r: &str)
        ensures
            r@ == entry_extension(self.path@),
    {
        let v = crate::text::chars_of(self.path.as_str());
        match crate::paths::extension_range(v.as_slice()) {
            Some((a, b)) => self.path.as_str().substring_char(a, b),
            None => {
                proof {
                    reveal_strlit("");
                }
                ""
            },
        }
    }

    pub fn display_name(&self) -> (r: &str)
        ensures
            r@ == self.name@,
    {
        self.name.as_str()
    }

    /// The size column text; see `size_text`.
    pub fn formatted_size(&self) -> (r: String)
        ensures
            r@ == size_text(self.is_dir, self.size as nat),
    {
        if self.is_dir {
            let s = crate::text::owned("<DIR>");
            s
        } else if self.size < KIB {
            u64_to_decimal(self.size)
        } else if self.size < MIB {
            let mut s = u64_to_decimal(self.size / KIB);
            push_char(&mut s, 'K');
            s
        } else if self.size < GIB {
            let mut s = String::new();
            push_one_decimal(&mut s, self.size as u128, MIB as u128);
            push_char(&mut s, 'M');
            assert(s@ =~= size_text(self.is_dir, self.size as nat));
            s
        } else {
            let v = round_to_f64_exec(self.size);
            let mut s = String::new();
            push_one_decimal(&mut s, v, GIB as u128);
            push_char(&mut s, 'G');
            assert(s@ =~= size_text(self.is_dir, self.size as nat));
            s
        }
    }
}

/// A date and time written as `DD.MM.YY HH:MM`: two digits, a dot, two
/// digits, a dot, two digits, a space, two digits, a colon, two digits.
pub open spec fn date_shaped(s: Seq<char>) -> bool {
    &&& s.len() == 14
    &&& s[2] == '.' && s[5] == '.' && s[8] == ' ' && s[11] == ':'
    &&& forall|i: int| 0 <= i < 14 && i != 2 && i != 5 && i != 8 && i != 11 ==> '0' <= #[trigger] s[i] <= '9'
}

/// The local date and time of a moment given in nanoseconds since the Unix
/// epoch, as chrono's `format("%d.%m.%y %H:%M")` writes it: every field is
/// zero-padded to two digits. Which date it is depends on the machine's
/// time zone, so only the shape of the text is known here.
#[verifier::external_body]
fn local_date_text(nanos: u64) -> (s: String)
    ensures
        date_shaped(s@),
{
    let t = std::time::UNIX_EPOCH + std::time::Duration::from_nanos(nanos);
    let dt: chrono::DateTime<chrono::Local> = t.into();
    dt.format("%d.%m.%y %H:%M").to_string()
}

impl FileEntry {
    /// The modification time in local time as `DD.MM.YY HH:MM`; empty when
    /// the time is unknown.
    pub fn formatted_date(&self) -> (r: String)
        ensures
            self.modified is None ==> r@.len() == 0,
            self.modified is Some ==> date_shaped(r@),
    {
        match self.modified {
            Some(t) => local_date_text(t),
            None => String::new(),
        }
    }
}

/// Which panel is active.
#[derive(Debug, Clone, Copy, PartialEq, Eq, Structural)]
pub enum ActivePanel {
    Left,
    Right,
}

impl ActivePanel {
    pub fn other(&self) -> (r: ActivePanel)
        ensures
            r != *self,
    {
        match self {
            ActivePanel::Left => ActivePanel::Right,
            ActivePanel::Right => ActivePanel::Left,
        }
    }
}

/// File operation types.
#[derive(Debug, Clone, Copy, PartialEq, Eq, Structural)]
pub enum FileOp {
    Copy,
    Move,
    Delete,
    MkDir,
}

/// Application mode.
#[derive(Debug, Clone, PartialEq, Eq)]
pub enum AppMode {
    Normal,
    CommandLine,
    QuickSearch(String),
    Dialog(DialogKind),
    Viewer(String),
    Tetris,
    Help,
}

/// Dialog types.
#[derive(Debug, Clone, PartialEq, Eq)]
pub enum DialogKind {
    Confirm { title: String, message: String, op: FileOp },
    Input { title: String, prompt: String, value: String, op: FileOp },
    Error(String),
    FileInfo,
}

} // verus!
