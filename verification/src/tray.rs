//! The tray menu and the start-with-the-system setting.
use vstd::prelude::*;
use crate::text::{chars_of, string_of};

verus! {

/// Labels of the tray menu, in order.
pub const MENU_ITEMS: [&'static str; 7] = ["显示悬浮球", "隐藏悬浮球", "更新数据", "开机自启", "检查更新", "关于", "退出"];

/// Windows' `StartupApproved` value leaves an entry enabled: its last eight bytes are
/// zero.
pub open spec fn approved_bytes(bytes: Seq<u8>) -> bool {
    bytes.len() >= 8 && forall|i: int| bytes.len() - 8 <= i < bytes.len() ==> #[trigger] bytes[i] == 0
}

/// Whether a `StartupApproved` value leaves the entry enabled; no value leaves it enabled.
pub fn startup_approved(bytes: Option<&[u8]>) -> (r: bool)
    ensures
        r == match bytes {
            Some(b) => approved_bytes(b@),
            None => true,
        },
{
    let b = match bytes {
        Some(b) => b,
        None => return true,
    };
    if b.len() < 8 {
        return false;
    }
    let mut i: usize = b.len() - 8;
    while i < b.len()
        invariant
            bytes == Some(b),
            b.len() >= 8,
            b.len() - 8 <= i <= b.len(),
            forall|j: int| b.len() - 8 <= j < i ==> #[trigger] b@[j] == 0,
        decreases b.len() - i,
    {
        if b[i] != 0 {
            assert(b@[i as int] != 0);
            assert(!approved_bytes(b@));
            return false;
        }
        i = i + 1;
    }
    true
}

/// The value that marks a `StartupApproved` entry enabled.
pub fn enabled_startup_value() -> (r: Vec<u8>)
    ensures
        r@ == seq![2u8, 0, 0, 0, 0, 0, 0, 0, 0, 0, 0, 0],
        approved_bytes(r@),
{
    let r: Vec<u8> = vec![2, 0, 0, 0, 0, 0, 0, 0, 0, 0, 0, 0];
    assert(r@ =~= seq![2u8, 0, 0, 0, 0, 0, 0, 0, 0, 0, 0, 0]);
    r
}

/// `exe` without its double quotes.
pub open spec fn without_quotes(exe: Seq<char>) -> Seq<char>
    decreases exe.len(),
{
    if exe.len() == 0 {
        exe
    } else {
        let rest = without_quotes(exe.drop_last());
        if exe.last() == '"' {
            rest
        } else {
            rest.push(exe.last())
        }
    }
}

/// The command the system runs at start: the program, quoted, then `--autostart`.
pub open spec fn autostart_line(exe: Seq<char>) -> Seq<char> {
    seq!['"'] + without_quotes(exe) + "\" --autostart"@
}

/// The command line that starts the window with the system.
pub fn autostart_command(exe: &str) -> (r: String)
    ensures
        r@ == autostart_line(exe@),
{
    let e = chars_of(exe);
    let mut v: Vec<char> = Vec::new();
    v.push('"');
    let mut i: usize = 0;
    while i < e.len()
        invariant
            i <= e.len(),
            v@ == seq!['"'] + without_quotes(e@.take(i as int)),
        decreases e.len() - i,
    {
        assert(e@.take(i + 1).drop_last() =~= e@.take(i as int));
        if e[i] != '"' {
            v.push(e[i]);
            assert(v@ =~= seq!['"'] + without_quotes(e@.take(i + 1)));
        }
        i = i + 1;
    }
    assert(e@.take(e.len() as int) =~= e@);
    let tail = chars_of("\" --autostart");
    let mut j: usize = 0;
    let ghost base = v@;
    while j < tail.len()
        invariant
            j <= tail.len(),
            v@ == base + tail@.take(j as int),
        decreases tail.len() - j,
    {
        v.push(tail[j]);
        assert(tail@.take(j + 1) =~= tail@.take(j as int).push(tail@[j as int]));
        assert(v@ =~= base + tail@.take(j + 1));
        j = j + 1;
    }
    assert(tail@.take(tail.len() as int) =~= tail@);
    string_of(v.as_slice())
}


/// What a tray menu entry does.
#[derive(Debug, Clone, Copy, PartialEq, Eq)]
pub enum MenuAction {
    Show,
    Hide,
    Refresh,
    ToggleAutostart,
    CheckForUpdates,
    About,
    Quit,
    Ignore,
}

/// The action of the tray menu entry with the given id.
pub open spec fn action_of(id: Seq<char>) -> MenuAction {
    if id == "show"@ {
        MenuAction::Show
    } else if id == "hide"@ {
        MenuAction::Hide
    } else if id == "refresh"@ {
        MenuAction::Refresh
    } else if id == "autostart"@ {
        MenuAction::ToggleAutostart
    } else if id == "update"@ {
        MenuAction::CheckForUpdates
    } else if id == "about"@ {
        MenuAction::About
    } else if id == "quit"@ {
        MenuAction::Quit
    } else {
        MenuAction::Ignore
    }
}

/// The action of the tray menu entry with the given id.
pub fn menu_action(id: &str) -> (r: MenuAction)
    ensures
        r == action_of(id@),
{
    if crate::text::str_eq(id, "show") {
        MenuAction::Show
    } else if crate::text::str_eq(id, "hide") {
        MenuAction::Hide
    } else if crate::text::str_eq(id, "refresh") {
        MenuAction::Refresh
    } else if crate::text::str_eq(id, "autostart") {
        MenuAction::ToggleAutostart
    } else if crate::text::str_eq(id, "update") {
        MenuAction::CheckForUpdates
    } else if crate::text::str_eq(id, "about") {
        MenuAction::About
    } else if crate::text::str_eq(id, "quit") {
        MenuAction::Quit
    } else {
        MenuAction::Ignore
    }
}

/// Windows starts the window with the system when its `Run` entry holds a command and
/// `StartupApproved` does not disable it.
pub fn autostart_enabled(has_command: bool, approved: Option<&[u8]>) -> (r: bool)
    ensures
        r == (has_command && match approved {
            Some(b) => approved_bytes(b@),
            None => true,
        }),
{
    has_command && startup_approved(approved)
}

} // verus!
