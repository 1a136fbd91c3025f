//! The pull-down menu bar: its menus, their entries, and moving through them.

use vstd::prelude::*;
use crate::text::{ascii_lower, ascii_lower_char, chars_of};
use crate::types::ActivePanel;

verus! {

/// What a menu entry does; `Separator` marks a line between groups.
#[derive(Clone, Copy, Debug, PartialEq, Eq, Structural)]
pub enum MenuAction {
    Separator,
    PanelBrief,
    PanelFull,
    SortName,
    SortExt,
    SortSize,
    SortDate,
    SortUnsorted,
    PanelFilter,
    PanelReread,
    ChangeDriveLeft,
    ViewFile,
    EditFile,
    EditNewFile,
    Copy,
    Move,
    MakeDir,
    Delete,
    FileFind,
    FileAttributes,
    QuickRename,
    TouchFile,
    MakeFileList,
    SplitFile,
    CombineFile,
    Base64Encode,
    Base64Decode,
    UUEncode,
    UUDecode,
    Quit,
    DirTree,
    DirHistory,
    CompareDirs,
    CountDirSizes,
    DirBranch,
    SwapPanels,
    SyncPanels,
    SelectGroup,
    UnselectGroup,
    InvertSelection,
    UserMenu,
    SortMenu,
    ShowHidden,
    QuickView,
    Calculator,
    AsciiTable,
    DiskInfo,
    SystemInfo,
    EnvViewer,
    Tetris,
    ThemeEditor,
    ToggleDescPanel,
    FileHistory,
    ConfirmSettings,
    Help,
    RefreshDisplay,
    SaveDesktop,
    LoadDesktop,
    ChangeDriveRight,
}

/// The text a menu shows for an action.
pub open spec fn action_label(a: MenuAction) -> Seq<char> {
    match a {
        MenuAction::Separator => Seq::empty(),
        MenuAction::PanelBrief => "Brief mode"@,
        MenuAction::PanelFull => "Full mode"@,
        MenuAction::SortName => "Sort by Name"@,
        MenuAction::SortExt => "Sort by Extension"@,
        MenuAction::SortSize => "Sort by Size"@,
        MenuAction::SortDate => "Sort by Date"@,
        MenuAction::SortUnsorted => "Unsorted"@,
        MenuAction::PanelFilter => "Filter..."@,
        MenuAction::PanelReread => "Re-read"@,
        MenuAction::ChangeDriveLeft => "Change drive..."@,
        MenuAction::ViewFile => "View"@,
        MenuAction::EditFile => "Edit"@,
        MenuAction::EditNewFile => "Edit new file"@,
        MenuAction::Copy => "Copy"@,
        MenuAction::Move => "Rename/Move"@,
        MenuAction::MakeDir => "Make directory"@,
        MenuAction::Delete => "Delete"@,
        MenuAction::FileFind => "Find file..."@,
        MenuAction::FileAttributes => "Attributes..."@,
        MenuAction::QuickRename => "Quick rename"@,
        MenuAction::TouchFile => "Touch file"@,
        MenuAction::MakeFileList => "Make file list"@,
        MenuAction::SplitFile => "Split file..."@,
        MenuAction::CombineFile => "Combine files..."@,
        MenuAction::Base64Encode => "Base64 Encode"@,
        MenuAction::Base64Decode => "Base64 Decode"@,
        MenuAction::UUEncode => "UU Encode"@,
        MenuAction::UUDecode => "UU Decode"@,
        MenuAction::Quit => "Quit"@,
        MenuAction::DirTree => "Directory tree"@,
        MenuAction::DirHistory => "History of dirs"@,
        MenuAction::CompareDirs => "Compare dirs"@,
        MenuAction::CountDirSizes => "Count dir sizes"@,
        MenuAction::DirBranch => "Dir branch"@,
        MenuAction::SwapPanels => "Swap panels"@,
        MenuAction::SyncPanels => "Sync panels"@,
        MenuAction::SelectGroup => "Select group"@,
        MenuAction::UnselectGroup => "Unselect group"@,
        MenuAction::InvertSelection => "Invert selection"@,
        MenuAction::UserMenu => "User menu"@,
        MenuAction::SortMenu => "Sort mode..."@,
        MenuAction::ShowHidden => "Show hidden"@,
        MenuAction::QuickView => "Quick view"@,
        MenuAction::Calculator => "Calculator"@,
        MenuAction::AsciiTable => "ASCII table"@,
        MenuAction::DiskInfo => "Disk info"@,
        MenuAction::SystemInfo => "System info"@,
        MenuAction::EnvViewer => "Env variables"@,
        MenuAction::Tetris => "Tetris"@,
        MenuAction::ThemeEditor => "Theme editor"@,
        MenuAction::ToggleDescPanel => "Descriptions"@,
        MenuAction::FileHistory => "File history"@,
        MenuAction::ConfirmSettings => "Confirmations..."@,
        MenuAction::Help => "Help"@,
        MenuAction::RefreshDisplay => "Refresh display"@,
        MenuAction::SaveDesktop => "Save desktop"@,
        MenuAction::LoadDesktop => "Load desktop"@,
        MenuAction::ChangeDriveRight => "Change drive..."@,
    }
}

/// The key a menu shows beside an action; the filter of the right panel
/// has its own key.
pub open spec fn action_shortcut(a: MenuAction, menu: int) -> Seq<char> {
    match a {
        MenuAction::Separator => Seq::empty(),
        MenuAction::PanelFilter => if menu == 4 { "F12"@ } else { "F11"@ },
        MenuAction::PanelBrief => Seq::empty(),
        MenuAction::PanelFull => Seq::empty(),
        MenuAction::SortName => Seq::empty(),
        MenuAction::SortExt => Seq::empty(),
        MenuAction::SortSize => Seq::empty(),
        MenuAction::SortDate => Seq::empty(),
        MenuAction::SortUnsorted => Seq::empty(),
        MenuAction::PanelReread => "Ctrl+R"@,
        MenuAction::ChangeDriveLeft => "Alt+F1"@,
        MenuAction::ViewFile => "F3"@,
        MenuAction::EditFile => "F4"@,
        MenuAction::EditNewFile => "Shift+F4"@,
        MenuAction::Copy => "F5"@,
        MenuAction::Move => "F6"@,
        MenuAction::MakeDir => "F7"@,
        MenuAction::Delete => "F8"@,
        MenuAction::FileFind => "Alt+F7"@,
        MenuAction::FileAttributes => Seq::empty(),
        MenuAction::QuickRename => "Shift+F6"@,
        MenuAction::TouchFile => "Ctrl+T"@,
        MenuAction::MakeFileList => "Ctrl+F"@,
        MenuAction::SplitFile => "Ctrl+F3"@,
        MenuAction::CombineFile => "Ctrl+F4"@,
        MenuAction::Base64Encode => Seq::empty(),
        MenuAction::Base64Decode => Seq::empty(),
        MenuAction::UUEncode => Seq::empty(),
        MenuAction::UUDecode => Seq::empty(),
        MenuAction::Quit => "Alt+X"@,
        MenuAction::DirTree => "Alt+F10"@,
        MenuAction::DirHistory => "Alt+F12"@,
        MenuAction::CompareDirs => "Alt+C"@,
        MenuAction::CountDirSizes => "Ctrl+F5"@,
        MenuAction::DirBranch => "Ctrl+B"@,
        MenuAction::SwapPanels => "Ctrl+U"@,
        MenuAction::SyncPanels => "Ctrl+S"@,
        MenuAction::SelectGroup => "Gray +"@,
        MenuAction::UnselectGroup => "Gray -"@,
        MenuAction::InvertSelection => "Gray *"@,
        MenuAction::UserMenu => "F2"@,
        MenuAction::SortMenu => Seq::empty(),
        MenuAction::ShowHidden => "Ctrl+H"@,
        MenuAction::QuickView => "Ctrl+P"@,
        MenuAction::Calculator => "Ctrl+K"@,
        MenuAction::AsciiTable => "Alt+F9"@,
        MenuAction::DiskInfo => "Alt+I"@,
        MenuAction::SystemInfo => "Ctrl+I"@,
        MenuAction::EnvViewer => "Ctrl+E"@,
        MenuAction::Tetris => "Ctrl+G"@,
        MenuAction::ThemeEditor => "Ctrl+W"@,
        MenuAction::ToggleDescPanel => Seq::empty(),
        MenuAction::FileHistory => "Ctrl+Y"@,
        MenuAction::ConfirmSettings => Seq::empty(),
        MenuAction::Help => "F1"@,
        MenuAction::RefreshDisplay => "Ctrl+L"@,
        MenuAction::SaveDesktop => Seq::empty(),
        MenuAction::LoadDesktop => Seq::empty(),
        MenuAction::ChangeDriveRight => "Alt+F2"@,
    }
}

/// The entries of each pull-down menu, left to right: left panel, files,
/// commands, options and right panel; no entries for any other index.
pub open spec fn menu_entries(menu: int) -> Seq<MenuAction> {
    if menu == 0 {
        seq![MenuAction::PanelBrief, MenuAction::PanelFull, MenuAction::Separator, MenuAction::SortName, MenuAction::SortExt, MenuAction::SortSize, MenuAction::SortDate, MenuAction::SortUnsorted, MenuAction::Separator, MenuAction::PanelFilter, MenuAction::PanelReread, MenuAction::ChangeDriveLeft]
    } else if menu == 1 {
        seq![MenuAction::ViewFile, MenuAction::EditFile, MenuAction::EditNewFile, MenuAction::Separator, MenuAction::Copy, MenuAction::Move, MenuAction::MakeDir, MenuAction::Delete, MenuAction::Separator, MenuAction::FileFind, MenuAction::FileAttributes, MenuAction::QuickRename, MenuAction::TouchFile, MenuAction::MakeFileList, MenuAction::Separator, MenuAction::SplitFile, MenuAction::CombineFile, MenuAction::Separator, MenuAction::Base64Encode, MenuAction::Base64Decode, MenuAction::UUEncode, MenuAction::UUDecode, MenuAction::Separator, MenuAction::Quit]
    } else if menu == 2 {
        seq![MenuAction::DirTree, MenuAction::FileFind, MenuAction::DirHistory, MenuAction::CompareDirs, MenuAction::CountDirSizes, MenuAction::Separator, MenuAction::DirBranch, MenuAction::SwapPanels, MenuAction::SyncPanels, MenuAction::Separator, MenuAction::SelectGroup, MenuAction::UnselectGroup, MenuAction::InvertSelection, MenuAction::Separator, MenuAction::UserMenu]
    } else if menu == 3 {
        seq![MenuAction::SortMenu, MenuAction::ShowHidden, MenuAction::QuickView, MenuAction::Separator, MenuAction::Calculator, MenuAction::AsciiTable, MenuAction::DiskInfo, MenuAction::SystemInfo, MenuAction::EnvViewer, MenuAction::Tetris, MenuAction::Separator, MenuAction::ThemeEditor, MenuAction::ToggleDescPanel, MenuAction::FileHistory, MenuAction::ConfirmSettings, MenuAction::Separator, MenuAction::Help, MenuAction::RefreshDisplay, MenuAction::Separator, MenuAction::SaveDesktop, MenuAction::LoadDesktop]
    } else if menu == 4 {
        seq![MenuAction::PanelBrief, MenuAction::PanelFull, MenuAction::Separator, MenuAction::SortName, MenuAction::SortExt, MenuAction::SortSize, MenuAction::SortDate, MenuAction::SortUnsorted, MenuAction::Separator, MenuAction::PanelFilter, MenuAction::PanelReread, MenuAction::ChangeDriveRight]
    } else {
        Seq::empty()
    }
}

/// The text of an action.
fn label_of(a: MenuAction) -> (s: &'static str)
    ensures
        s@ == action_label(a),
{
    match a {
        MenuAction::Separator => {
            proof {
                reveal_strlit("");
            }
            ""
        },
        MenuAction::PanelBrief => "Brief mode",
        MenuAction::PanelFull => "Full mode",
        MenuAction::SortName => "Sort by Name",
        MenuAction::SortExt => "Sort by Extension",
        MenuAction::SortSize => "Sort by Size",
        MenuAction::SortDate => "Sort by Date",
        MenuAction::SortUnsorted => "Unsorted",
        MenuAction::PanelFilter => "Filter...",
        MenuAction::PanelReread => "Re-read",
        MenuAction::ChangeDriveLeft => "Change drive...",
        MenuAction::ViewFile => "View",
        MenuAction::EditFile => "Edit",
        MenuAction::EditNewFile => "Edit new file",
        MenuAction::Copy => "Copy",
        MenuAction::Move => "Rename/Move",
        MenuAction::MakeDir => "Make directory",
        MenuAction::Delete => "Delete",
        MenuAction::FileFind => "Find file...",
        MenuAction::FileAttributes => "Attributes...",
        MenuAction::QuickRename => "Quick rename",
        MenuAction::TouchFile => "Touch file",
        MenuAction::MakeFileList => "Make file list",
        MenuAction::SplitFile => "Split file...",
        MenuAction::CombineFile => "Combine files...",
        MenuAction::Base64Encode => "Base64 Encode",
        MenuAction::Base64Decode => "Base64 Decode",
        MenuAction::UUEncode => "UU Encode",
        MenuAction::UUDecode => "UU Decode",
        MenuAction::Quit => "Quit",
        MenuAction::DirTree => "Directory tree",
        MenuAction::DirHistory => "History of dirs",
        MenuAction::CompareDirs => "Compare dirs",
        MenuAction::CountDirSizes => "Count dir sizes",
        MenuAction::DirBranch => "Dir branch",
        MenuAction::SwapPanels => "Swap panels",
        MenuAction::SyncPanels => "Sync panels",
        MenuAction::SelectGroup => "Select group",
        MenuAction::UnselectGroup => "Unselect group",
        MenuAction::InvertSelection => "Invert selection",
        MenuAction::UserMenu => "User menu",
        MenuAction::SortMenu => "Sort mode...",
        MenuAction::ShowHidden => "Show hidden",
        MenuAction::QuickView => "Quick view",
        MenuAction::Calculator => "Calculator",
        MenuAction::AsciiTable => "ASCII table",
        MenuAction::DiskInfo => "Disk info",
        MenuAction::SystemInfo => "System info",
        MenuAction::EnvViewer => "Env variables",
        MenuAction::Tetris => "Tetris",
        MenuAction::ThemeEditor => "Theme editor",
        MenuAction::ToggleDescPanel => "Descriptions",
        MenuAction::FileHistory => "File history",
        MenuAction::ConfirmSettings => "Confirmations...",
        MenuAction::Help => "Help",
        MenuAction::RefreshDisplay => "Refresh display",
        MenuAction::SaveDesktop => "Save desktop",
        MenuAction::LoadDesktop => "Load desktop",
        MenuAction::ChangeDriveRight => "Change drive...",
    }
}

/// The key shown beside an action in menu `menu`.
fn shortcut_of(a: MenuAction, menu: usize) -> (s: &'static str)
    ensures
        s@ == action_shortcut(a, menu as int),
{
    match a {
        MenuAction::Separator => {
            proof {
                reveal_strlit("");
            }
            ""
        },
        MenuAction::PanelFilter => if menu == 4 { "F12" } else { "F11" },
        MenuAction::PanelBrief => {
            proof {
                reveal_strlit("");
            }
            ""
        },
        MenuAction::PanelFull => {
            proof {
                reveal_strlit("");
            }
            ""
        },
        MenuAction::SortName => {
            proof {
                reveal_strlit("");
            }
            ""
        },
        MenuAction::SortExt => {
            proof {
                reveal_strlit("");
            }
            ""
        },
        MenuAction::SortSize => {
            proof {
                reveal_strlit("");
            }
            ""
        },
        MenuAction::SortDate => {
            proof {
                reveal_strlit("");
            }
            ""
        },
        MenuAction::SortUnsorted => {
            proof {
                reveal_strlit("");
            }
            ""
        },
        MenuAction::PanelReread => "Ctrl+R",
        MenuAction::ChangeDriveLeft => "Alt+F1",
        MenuAction::ViewFile => "F3",
        MenuAction::EditFile => "F4",
        MenuAction::EditNewFile => "Shift+F4",
        MenuAction::Copy => "F5",
        MenuAction::Move => "F6",
        MenuAction::MakeDir => "F7",
        MenuAction::Delete => "F8",
        MenuAction::FileFind => "Alt+F7",
        MenuAction::FileAttributes => {
            proof {
                reveal_strlit("");
            }
            ""
        },
        MenuAction::QuickRename => "Shift+F6",
        MenuAction::TouchFile => "Ctrl+T",
        MenuAction::MakeFileList => "Ctrl+F",
        MenuAction::SplitFile => "Ctrl+F3",
        MenuAction::CombineFile => "Ctrl+F4",
        MenuAction::Base64Encode => {
            proof {
                reveal_strlit("");
            }
            ""
        },
        MenuAction::Base64Decode => {
            proof {
                reveal_strlit("");
            }
            ""
        },
        MenuAction::UUEncode => {
            proof {
                reveal_strlit("");
            }
            ""
        },
        MenuAction::UUDecode => {
            proof {
                reveal_strlit("");
            }
            ""
        },
        MenuAction::Quit => "Alt+X",
        MenuAction::DirTree => "Alt+F10",
        MenuAction::DirHistory => "Alt+F12",
        MenuAction::CompareDirs => "Alt+C",
        MenuAction::CountDirSizes => "Ctrl+F5",
        MenuAction::DirBranch => "Ctrl+B",
        MenuAction::SwapPanels => "Ctrl+U",
        MenuAction::SyncPanels => "Ctrl+S",
        MenuAction::SelectGroup => "Gray +",
        MenuAction::UnselectGroup => "Gray -",
        MenuAction::InvertSelection => "Gray *",
        MenuAction::UserMenu => "F2",
        MenuAction::SortMenu => {
            proof {
                reveal_strlit("");
            }
            ""
        },
        MenuAction::ShowHidden => "Ctrl+H",
        MenuAction::QuickView => "Ctrl+P",
        MenuAction::Calculator => "Ctrl+K",
        MenuAction::AsciiTable => "Alt+F9",
        MenuAction::DiskInfo => "Alt+I",
        MenuAction::SystemInfo => "Ctrl+I",
        MenuAction::EnvViewer => "Ctrl+E",
        MenuAction::Tetris => "Ctrl+G",
        MenuAction::ThemeEditor => "Ctrl+W",
        MenuAction::ToggleDescPanel => {
            proof {
                reveal_strlit("");
            }
            ""
        },
        MenuAction::FileHistory => "Ctrl+Y",
        MenuAction::ConfirmSettings => {
            proof {
                reveal_strlit("");
            }
            ""
        },
        MenuAction::Help => "F1",
        MenuAction::RefreshDisplay => "Ctrl+L",
        MenuAction::SaveDesktop => {
            proof {
                reveal_strlit("");
            }
            ""
        },
        MenuAction::LoadDesktop => {
            proof {
                reveal_strlit("");
            }
            ""
        },
        MenuAction::ChangeDriveRight => "Alt+F2",
    }
}

/// The actions of menu `menu`, in order.
fn menu_action_list(menu: usize) -> (r: Vec<MenuAction>)
    ensures
        r@ == menu_entries(menu as int),
{
    if menu == 0 {
        vec![MenuAction::PanelBrief, MenuAction::PanelFull, MenuAction::Separator, MenuAction::SortName, MenuAction::SortExt, MenuAction::SortSize, MenuAction::SortDate, MenuAction::SortUnsorted, MenuAction::Separator, MenuAction::PanelFilter, MenuAction::PanelReread, MenuAction::ChangeDriveLeft]
    } else if menu == 1 {
        vec![MenuAction::ViewFile, MenuAction::EditFile, MenuAction::EditNewFile, MenuAction::Separator, MenuAction::Copy, MenuAction::Move, MenuAction::MakeDir, MenuAction::Delete, MenuAction::Separator, MenuAction::FileFind, MenuAction::FileAttributes, MenuAction::QuickRename, MenuAction::TouchFile, MenuAction::MakeFileList, MenuAction::Separator, MenuAction::SplitFile, MenuAction::CombineFile, MenuAction::Separator, MenuAction::Base64Encode, MenuAction::Base64Decode, MenuAction::UUEncode, MenuAction::UUDecode, MenuAction::Separator, MenuAction::Quit]
    } else if menu == 2 {
        vec![MenuAction::DirTree, MenuAction::FileFind, MenuAction::DirHistory, MenuAction::CompareDirs, MenuAction::CountDirSizes, MenuAction::Separator, MenuAction::DirBranch, MenuAction::SwapPanels, MenuAction::SyncPanels, MenuAction::Separator, MenuAction::SelectGroup, MenuAction::UnselectGroup, MenuAction::InvertSelection, MenuAction::Separator, MenuAction::UserMenu]
    } else if menu == 3 {
        vec![MenuAction::SortMenu, MenuAction::ShowHidden, MenuAction::QuickView, MenuAction::Separator, MenuAction::Calculator, MenuAction::AsciiTable, MenuAction::DiskInfo, MenuAction::SystemInfo, MenuAction::EnvViewer, MenuAction::Tetris, MenuAction::Separator, MenuAction::ThemeEditor, MenuAction::ToggleDescPanel, MenuAction::FileHistory, MenuAction::ConfirmSettings, MenuAction::Separator, MenuAction::Help, MenuAction::RefreshDisplay, MenuAction::Separator, MenuAction::SaveDesktop, MenuAction::LoadDesktop]
    } else if menu == 4 {
        vec![MenuAction::PanelBrief, MenuAction::PanelFull, MenuAction::Separator, MenuAction::SortName, MenuAction::SortExt, MenuAction::SortSize, MenuAction::SortDate, MenuAction::SortUnsorted, MenuAction::Separator, MenuAction::PanelFilter, MenuAction::PanelReread, MenuAction::ChangeDriveRight]
    } else {
        Vec::new()
    }
}

/// The number of menus on the bar.
pub const MENU_COUNT: usize = 5;

/// The titles on the menu bar.
pub open spec fn menu_title(i: int) -> Seq<char> {
    if i == 0 {
        " Left "@
    } else if i == 1 {
        " Files "@
    } else if i == 2 {
        " Commands "@
    } else if i == 3 {
        " Options "@
    } else {
        " Right "@
    }
}

/// The titles on the menu bar, left to right.
pub fn menu_labels() -> (r: Vec<&'static str>)
    ensures
        r@.len() == MENU_COUNT,
        forall|i: int| 0 <= i < MENU_COUNT ==> #[trigger] r@[i]@ == menu_title(i),
{
    let r = vec![" Left ", " Files ", " Commands ", " Options ", " Right "];
    assert(r@[0]@ == menu_title(0));
    assert(r@[1]@ == menu_title(1));
    assert(r@[2]@ == menu_title(2));
    assert(r@[3]@ == menu_title(3));
    assert(r@[4]@ == menu_title(4));
    r
}

/// An entry of a pull-down menu.
pub struct MenuItem {
    pub label: String,
    pub shortcut: String,
    pub action: MenuAction,
}

impl MenuItem {
    /// An entry that can be chosen.
    pub fn item(label: &str, shortcut: &str, action: MenuAction) -> (m: MenuItem)
        ensures
            m.label@ == label@,
            m.shortcut@ == shortcut@,
            m.action == action,
    {
        MenuItem { label: crate::text::owned(label), shortcut: crate::text::owned(shortcut), action }
    }

    /// A line between groups of entries.
    pub fn separator() -> (m: MenuItem)
        ensures
            m.label@ == Seq::<char>::empty(),
            m.shortcut@ == Seq::<char>::empty(),
            m.action == MenuAction::Separator,
    {
        MenuItem { label: String::new(), shortcut: String::new(), action: MenuAction::Separator }
    }

    /// Whether this is a separator line.
    pub fn is_separator(&self) -> (r: bool)
        ensures
            r == (self.action == MenuAction::Separator),
    {
        self.action == MenuAction::Separator
    }
}

/// The entries of menu `menu`.
pub fn menu_items(menu: usize) -> (r: Vec<MenuItem>)
    ensures
        r@.len() == menu_entries(menu as int).len(),
        forall|i: int|
            0 <= i < r@.len() ==> {
                &&& #[trigger] r@[i].action == menu_entries(menu as int)[i]
                &&& r@[i].label@ == action_label(r@[i].action)
                &&& r@[i].shortcut@ == action_shortcut(r@[i].action, menu as int)
            },
{
    let actions = menu_action_list(menu);
    let mut r: Vec<MenuItem> = Vec::new();
    let mut i: usize = 0;
    while i < actions.len()
        invariant
            i <= actions@.len(),
            actions@ == menu_entries(menu as int),
            r@.len() == i,
            forall|j: int|
                0 <= j < i ==> {
                    &&& #[trigger] r@[j].action == actions@[j]
                    &&& r@[j].label@ == action_label(r@[j].action)
                    &&& r@[j].shortcut@ == action_shortcut(r@[j].action, menu as int)
                },
        decreases actions@.len() - i,
    {
        let a = actions[i];
        let m = if a == MenuAction::Separator {
            MenuItem::separator()
        } else {
            MenuItem::item(label_of(a), shortcut_of(a, menu), a)
        };
        r.push(m);
        i += 1;
    }
    r
}

/// Whether an entry can be chosen, that is, is no separator.
pub open spec fn selectable(a: MenuAction) -> bool {
    a != MenuAction::Separator
}

/// How many entries of `s` from position `from` on can be chosen.
pub open spec fn selectable_from(s: Seq<MenuAction>, from: int) -> nat
    decreases s.len() - from,
{
    if from >= s.len() {
        0
    } else {
        (if selectable(s[from]) { 1nat } else { 0nat }) + selectable_from(s, from + 1)
    }
}

/// The position of the entry that can be chosen with number `k` (from 0),
/// counting from position `from` on; 0 when there are not that many.
pub open spec fn selectable_position(s: Seq<MenuAction>, k: int, from: int) -> int
    decreases s.len() - from,
{
    if from >= s.len() {
        0
    } else if selectable(s[from]) {
        if k == 0 {
            from
        } else {
            selectable_position(s, k - 1, from + 1)
        }
    } else {
        selectable_position(s, k, from + 1)
    }
}

/// The number of entries of menu `menu` that can be chosen.
pub fn menu_selectable_count(menu: usize) -> (n: usize)
    ensures
        n == selectable_from(menu_entries(menu as int), 0),
{
    let actions = menu_action_list(menu);
    let ghost s = actions@;
    let mut n: usize = 0;
    let mut i: usize = 0;
    while i < actions.len()
        invariant
            i <= s.len(),
            s == actions@,
            n <= i,
            n + selectable_from(s, i as int) == selectable_from(s, 0),
        decreases s.len() - i,
    {
        if actions[i] != MenuAction::Separator {
            n += 1;
        }
        i += 1;
    }
    n
}

/// The position in menu `menu` of the entry that can be chosen with number
/// `cursor`; 0 when there are not that many.
pub fn menu_cursor_to_index(menu: usize, cursor: usize) -> (r: usize)
    ensures
        r == selectable_position(menu_entries(menu as int), cursor as int, 0),
{
    let actions = menu_action_list(menu);
    let ghost s = actions@;
    let mut seen: usize = 0;
    let mut i: usize = 0;
    while i < actions.len()
        invariant
            i <= s.len(),
            s == actions@,
            s == menu_entries(menu as int),
            seen <= cursor,
            selectable_position(s, cursor as int, 0) == selectable_position(s, cursor - seen, i as int),
        decreases s.len() - i,
    {
        if actions[i] != MenuAction::Separator {
            assert(selectable(s[i as int]));
            if seen == cursor {
                assert(selectable_position(s, 0, i as int) == i);
                return i;
            }
            seen += 1;
        }
        i += 1;
    }
    0
}

/// An entry with a number below the count of those that can be chosen lies
/// in the menu and is no separator.
pub proof fn lemma_selectable_position(s: Seq<MenuAction>, k: int, from: int)
    requires
        0 <= from,
        0 <= k < selectable_from(s, from),
    ensures
        from <= selectable_position(s, k, from) < s.len(),
        selectable(s[selectable_position(s, k, from)]),
    decreases s.len() - from,
{
    if from < s.len() {
        if selectable(s[from]) {
            if k > 0 {
                lemma_selectable_position(s, k - 1, from + 1);
            }
        } else {
            lemma_selectable_position(s, k, from + 1);
        }
    }
}

/// The menu to the right of `i`, wrapping around.
pub open spec fn menu_right_of(i: int) -> int {
    (i + 1) % (MENU_COUNT as int)
}

/// The menu to the left of `i`, wrapping around.
pub open spec fn menu_left_of(i: int) -> int {
    if i == 0 {
        MENU_COUNT - 1
    } else {
        i - 1
    }
}

/// The entry below `c` among `n`, wrapping around; `c` when there are none.
pub open spec fn cursor_below(c: int, n: int) -> int {
    if n > 0 {
        (c + 1) % n
    } else {
        c
    }
}

/// The entry above `c` among `n`, wrapping around; `c` when there are none.
pub open spec fn cursor_above(c: int, n: int) -> int {
    if n > 0 {
        if c == 0 {
            n - 1
        } else {
            c - 1
        }
    } else {
        c
    }
}

/// The first entry of `s` from position `from` on that can be chosen and
/// whose text starts with the letter `c`, upper and lower case alike.
pub open spec fn hotkey_position(s: Seq<MenuAction>, c: char, from: int) -> Option<int>
    decreases s.len() - from,
{
    if from >= s.len() {
        None
    } else if selectable(s[from]) && action_label(s[from]).len() > 0 && ascii_lower(action_label(s[from])[0])
        == ascii_lower(c) {
        Some(from)
    } else {
        hotkey_position(s, c, from + 1)
    }
}

/// The menu bar: whether it is open, the menu pulled down, and the entry
/// under the cursor, counted among those that can be chosen.
pub struct MenuBar {
    pub open: bool,
    pub menu_index: usize,
    pub item_cursor: usize,
}

impl MenuBar {
    /// The entries of the menu pulled down.
    pub open spec fn entries(&self) -> Seq<MenuAction> {
        menu_entries(self.menu_index as int)
    }

    /// The number of its entries that can be chosen.
    pub open spec fn count(&self) -> int {
        selectable_from(self.entries(), 0) as int
    }

    /// A closed bar on the first menu.
    pub fn new() -> (m: MenuBar)
        ensures
            !m.open,
            m.menu_index == 0,
            m.item_cursor == 0,
    {
        MenuBar { open: false, menu_index: 0, item_cursor: 0 }
    }

    /// Opens the bar on the current menu with the cursor on its first entry.
    pub fn open_menu(&mut self)
        ensures
            final(self).open,
            final(self).menu_index == old(self).menu_index,
            final(self).item_cursor == 0,
    {
        self.open = true;
        self.item_cursor = 0;
    }

    /// Closes the bar.
    pub fn close(&mut self)
        ensures
            !final(self).open,
            final(self).menu_index == old(self).menu_index,
            final(self).item_cursor == old(self).item_cursor,
    {
        self.open = false;
    }

    /// Left arrow: the menu to the left, cursor on its first entry.
    pub fn menu_left(&mut self)
        ensures
            final(self).menu_index == menu_left_of(old(self).menu_index as int),
            final(self).item_cursor == 0,
            final(self).open == old(self).open,
    {
        if self.menu_index == 0 {
            self.menu_index = MENU_COUNT - 1;
        } else {
            self.menu_index -= 1;
        }
        self.item_cursor = 0;
    }

    /// Right arrow: the menu to the right, cursor on its first entry.
    pub fn menu_right(&mut self)
        ensures
            final(self).menu_index == menu_right_of(old(self).menu_index as int),
            final(self).item_cursor == 0,
            final(self).open == old(self).open,
    {
        self.menu_index = (self.menu_index % MENU_COUNT + 1) % MENU_COUNT;
        self.item_cursor = 0;
    }

    /// Up arrow: the entry above, wrapping to the last.
    pub fn item_up(&mut self)
        ensures
            final(self).item_cursor == cursor_above(old(self).item_cursor as int, old(self).count()),
            final(self).menu_index == old(self).menu_index,
            final(self).open == old(self).open,
    {
        let max = menu_selectable_count(self.menu_index);
        if max > 0 {
            if self.item_cursor == 0 {
                self.item_cursor = max - 1;
            } else {
                self.item_cursor -= 1;
            }
        }
    }

    /// Down arrow: the entry below, wrapping to the first.
    pub fn item_down(&mut self)
        ensures
            final(self).item_cursor == cursor_below(old(self).item_cursor as int, old(self).count()),
            final(self).menu_index == old(self).menu_index,
            final(self).open == old(self).open,
    {
        let max = menu_selectable_count(self.menu_index);
        if max > 0 {
            proof {
                vstd::arithmetic::div_mod::lemma_add_mod_noop(self.item_cursor as int, 1, max as int);
                vstd::arithmetic::div_mod::lemma_mod_bound(self.item_cursor as int, max as int);
                if max > 1 {
                    vstd::arithmetic::div_mod::lemma_small_mod(1, max as nat);
                } else {
                    vstd::arithmetic::div_mod::lemma_mod_self_0(1);
                    vstd::arithmetic::div_mod::lemma_mod_self_0(max as int);
                }
                assert(((self.item_cursor % max) as int + 1) % (max as int) == (self.item_cursor as int + 1) % (max as int)) by {
                    vstd::arithmetic::div_mod::lemma_add_mod_noop_right(self.item_cursor as int, 1, max as int);
                    vstd::arithmetic::div_mod::lemma_add_mod_noop((self.item_cursor % max) as int, 1, max as int);
                    vstd::arithmetic::div_mod::lemma_mod_twice(self.item_cursor as int, max as int);
                }
            }
            self.item_cursor = (self.item_cursor % max + 1) % max;
        }
    }

    /// Home: the first entry.
    pub fn item_home(&mut self)
        ensures
            final(self).item_cursor == 0,
            final(self).menu_index == old(self).menu_index,
            final(self).open == old(self).open,
    {
        self.item_cursor = 0;
    }

    /// End: the last entry, when there is one.
    pub fn item_end(&mut self)
        ensures
            final(self).item_cursor == if old(self).count() > 0 {
                old(self).count() - 1
            } else {
                old(self).item_cursor as int
            },
            final(self).menu_index == old(self).menu_index,
            final(self).open == old(self).open,
    {
        let max = menu_selectable_count(self.menu_index);
        if max > 0 {
            self.item_cursor = max - 1;
        }
    }

    /// Enter: the action of the entry under the cursor (of the first entry
    /// when the cursor is past the last one), none for an empty menu.
    pub fn selected_action(&self) -> (r: Option<MenuAction>)
        ensures
            ({
                let s = self.entries();
                let p = selectable_position(s, self.item_cursor as int, 0);
                r == if p < s.len() { Some(s[p]) } else { None::<MenuAction> }
            }),
            self.item_cursor < self.count() ==> (r matches Some(a) && selectable(a)),
    {
        let actions = menu_action_list(self.menu_index);
        let idx = menu_cursor_to_index(self.menu_index, self.item_cursor);
        proof {
            if self.item_cursor < self.count() {
                lemma_selectable_position(self.entries(), self.item_cursor as int, 0);
            }
        }
        if idx < actions.len() {
            Some(actions[idx])
        } else {
            None
        }
    }

    /// A letter: the first entry that can be chosen whose text starts with
    /// it, upper and lower case alike; the cursor moves there and its action
    /// is returned. Without such an entry nothing changes.
    pub fn hotkey(&mut self, c: char) -> (r: Option<MenuAction>)
        ensures
            final(self).menu_index == old(self).menu_index,
            final(self).open == old(self).open,
            match hotkey_position(old(self).entries(), c, 0) {
                Some(p) => r == Some(old(self).entries()[p]) && final(self).item_cursor == selectable_from(
                    old(self).entries(),
                    0,
                ) - selectable_from(old(self).entries(), p),
                None => r is None && final(self).item_cursor == old(self).item_cursor,
            },
    {
        let actions = menu_action_list(self.menu_index);
        let ghost s = actions@;
        let key = ascii_lower_char(c);
        let mut seen: usize = 0;
        let mut i: usize = 0;
        while i < actions.len()
            invariant
                i <= s.len(),
                s == actions@,
                s == self.entries(),
                key == ascii_lower(c),
                seen <= i,
                seen + selectable_from(s, i as int) == selectable_from(s, 0),
                hotkey_position(s, c, 0) == hotkey_position(s, c, i as int),
                self.item_cursor == old(self).item_cursor,
                self.menu_index == old(self).menu_index,
                self.open == old(self).open,
            decreases s.len() - i,
        {
            let a = actions[i];
            if a != MenuAction::Separator {
                let label = chars_of(label_of(a));
                if label.len() > 0 && ascii_lower_char(label[0]) == key {
                    self.item_cursor = seen;
                    return Some(a);
                }
                seen += 1;
            }
            i += 1;
        }
        None
    }
}

/// The panel a panel action chosen in menu `menu` works on: the view modes
/// work on the left panel from the left menu and on the right panel from
/// any other; the sort orders on the left or right panel from those menus
/// and on the active panel from any other; other actions on the active one.
pub open spec fn action_target(a: MenuAction, menu: int, active: ActivePanel) -> ActivePanel {
    match a {
        MenuAction::PanelBrief | MenuAction::PanelFull => if menu == 0 {
            ActivePanel::Left
        } else {
            ActivePanel::Right
        },
        MenuAction::SortName | MenuAction::SortExt | MenuAction::SortSize | MenuAction::SortDate
        | MenuAction::SortUnsorted => if menu == 0 {
            ActivePanel::Left
        } else if menu == 4 {
            ActivePanel::Right
        } else {
            active
        },
        _ => active,
    }
}

impl MenuBar {
    /// The panel `action`, chosen in the menu pulled down, works on.
    pub fn target_panel(&self, action: MenuAction, active: ActivePanel) -> (r: ActivePanel)
        ensures
            r == action_target(action, self.menu_index as int, active),
    {
        match action {
            MenuAction::PanelBrief | MenuAction::PanelFull => if self.menu_index == 0 {
                ActivePanel::Left
            } else {
                ActivePanel::Right
            },
            MenuAction::SortName | MenuAction::SortExt | MenuAction::SortSize | MenuAction::SortDate
            | MenuAction::SortUnsorted => if self.menu_index == 0 {
                ActivePanel::Left
            } else if self.menu_index == 4 {
                ActivePanel::Right
            } else {
                active
            },
            _ => active,
        }
    }
}

/// Going right and then left, or left and then right, comes back to the
/// same menu.
pub proof fn lemma_menu_left_right(i: int)
    requires
        0 <= i < MENU_COUNT,
    ensures
        menu_left_of(menu_right_of(i)) == i,
        menu_right_of(menu_left_of(i)) == i,
        0 <= menu_right_of(i) < MENU_COUNT,
        0 <= menu_left_of(i) < MENU_COUNT,
{
}

/// Going down and then up, or up and then down, comes back to the same
/// entry, and either move keeps the cursor among the entries.
pub proof fn lemma_cursor_up_down(c: int, n: int)
    requires
        0 <= c < n,
    ensures
        cursor_above(cursor_below(c, n), n) == c,
        cursor_below(cursor_above(c, n), n) == c,
        0 <= cursor_below(c, n) < n,
        0 <= cursor_above(c, n) < n,
{
    if c + 1 < n {
        vstd::arithmetic::div_mod::lemma_small_mod((c + 1) as nat, n as nat);
    } else {
        vstd::arithmetic::div_mod::lemma_mod_self_0(n);
    }
    if c > 0 {
        vstd::arithmetic::div_mod::lemma_small_mod(c as nat, n as nat);
    } else {
        vstd::arithmetic::div_mod::lemma_mod_self_0(n);
    }
}

} // verus!
