//! The icon of the mount client in the task bar: what it shows, and what a click does.
use vstd::prelude::*;
use crate::text::{holds_part, lemma_holds_middle};
use crate::utf16::{encode_utf16, utf16_units};

verus! {

/// The message with which Windows reports clicks on the icon.
pub const WM_TRAYICON: u32 = 0x8001;

pub const WM_COMMAND: u32 = 0x0111;

pub const WM_TIMER: u32 = 0x0113;

pub const WM_LBUTTONDBLCLK: u32 = 0x0203;

pub const WM_RBUTTONUP: u32 = 0x0205;

/// The entries of the menu.
pub const IDM_OPEN_DRIVE: u32 = 40001;

pub const IDM_EXIT: u32 = 40002;

pub const IDM_RECONNECT: u32 = 40003;

/// The state of the connection in words.
pub fn status_text(healthy: bool) -> (r: &'static str)
    ensures
        r@ == if healthy {
            "已连接"@
        } else {
            "已断开"@
        },
{
    if healthy {
        "已连接"
    } else {
        "已断开"
    }
}

/// What the icon shows: the state of the connection, and the drive.
pub open spec fn tooltip_text(healthy: bool, drive: Seq<char>) -> Seq<char> {
    "LanShare - "@ + (if healthy {
        "已连接"@
    } else {
        "已断开"@
    }) + " ("@ + drive + ")"@
}

/// What the icon shows: the state of the connection, and the drive.
pub fn tooltip(healthy: bool, drive: &str) -> (r: String)
    ensures
        r@ == tooltip_text(healthy, drive@),
{
    let mut out: String = "LanShare - ".to_owned();
    out.append(status_text(healthy));
    out.append(" (");
    out.append(drive);
    out.append(")");
    out
}

/// The room for the text of the icon, in units of UTF-16, the end mark among them.
pub const TIP_UNITS: usize = 128;

/// What the icon shows, as Windows takes it: the units of the text, as many as there is room for
/// before the end mark.
pub fn tooltip_units(healthy: bool, drive: &str) -> (r: Vec<u16>)
    ensures
        ({
            let all = utf16_units(tooltip_text(healthy, drive@));
            r@ == if all.len() < TIP_UNITS {
                all
            } else {
                all.take(TIP_UNITS - 1)
            }
        }),
{
    let mut units = encode_utf16(tooltip(healthy, drive).as_str());
    if units.len() >= TIP_UNITS {
        units.truncate(TIP_UNITS - 1);
    }
    units
}

/// What a message asks for.
#[derive(Debug, Clone, Copy, PartialEq, Eq, Structural)]
pub enum TrayAction {
    OpenDrive,
    ShowMenu,
    Refresh,
    Reconnect,
    Exit,
    /// Nothing that the icon knows of; Windows handles it.
    Default,
}

/// What a message asks for. Of the two parameters only the lower 16 bits count.
pub open spec fn action_of(msg: u32, wparam: nat, lparam: nat) -> TrayAction {
    let event = lparam % 0x10000;
    let id = wparam % 0x10000;
    if msg == WM_TRAYICON {
        if event == WM_LBUTTONDBLCLK {
            TrayAction::OpenDrive
        } else if event == WM_RBUTTONUP {
            TrayAction::ShowMenu
        } else {
            TrayAction::Default
        }
    } else if msg == WM_TIMER {
        TrayAction::Refresh
    } else if msg == WM_COMMAND {
        if id == IDM_OPEN_DRIVE {
            TrayAction::OpenDrive
        } else if id == IDM_RECONNECT {
            TrayAction::Reconnect
        } else if id == IDM_EXIT {
            TrayAction::Exit
        } else {
            TrayAction::Default
        }
    } else {
        TrayAction::Default
    }
}

/// What a message asks for.
pub fn tray_action(msg: u32, wparam: u64, lparam: u64) -> (r: TrayAction)
    ensures
        r == action_of(msg, wparam as nat, lparam as nat),
{
    let event: u32 = (lparam % 0x10000) as u32;
    let id: u32 = (wparam % 0x10000) as u32;
    if msg == WM_TRAYICON {
        if event == WM_LBUTTONDBLCLK {
            return TrayAction::OpenDrive;
        }
        if event == WM_RBUTTONUP {
            return TrayAction::ShowMenu;
        }
        return TrayAction::Default;
    }
    if msg == WM_TIMER {
        return TrayAction::Refresh;
    }
    if msg == WM_COMMAND {
        if id == IDM_OPEN_DRIVE {
            return TrayAction::OpenDrive;
        }
        if id == IDM_RECONNECT {
            return TrayAction::Reconnect;
        }
        if id == IDM_EXIT {
            return TrayAction::Exit;
        }
    }
    TrayAction::Default
}

/// What a click does: a double click opens the drive, the right button shows the menu, and each entry
/// of the menu does what it says; the timer refreshes what the icon shows.
pub proof fn law_clicks(msg: u32, wparam: nat, lparam: nat)
    ensures
        msg == 0x8001 && lparam % 0x10000 == 0x203 ==> action_of(msg, wparam, lparam)
            == TrayAction::OpenDrive,
        msg == 0x8001 && lparam % 0x10000 == 0x205 ==> action_of(msg, wparam, lparam)
            == TrayAction::ShowMenu,
        msg == 0x113 ==> action_of(msg, wparam, lparam) == TrayAction::Refresh,
        msg == 0x111 && wparam % 0x10000 == 40001 ==> action_of(msg, wparam, lparam)
            == TrayAction::OpenDrive,
        msg == 0x111 && wparam % 0x10000 == 40002 ==> action_of(msg, wparam, lparam)
            == TrayAction::Exit,
        msg == 0x111 && wparam % 0x10000 == 40003 ==> action_of(msg, wparam, lparam)
            == TrayAction::Reconnect,
        action_of(msg, wparam, lparam) == TrayAction::Exit ==> msg == 0x111 && wparam % 0x10000
            == 40002,
        msg != 0x8001 && msg != 0x113 && msg != 0x111 ==> action_of(msg, wparam, lparam)
            == TrayAction::Default,
{
}

/// What the icon shows tells whether the client is connected, and names the drive.
pub proof fn law_icon_tells_the_state(drive: Seq<char>)
    ensures
        holds_part(tooltip_text(true, drive), "已连接"@),
        holds_part(tooltip_text(false, drive), "已断开"@),
        holds_part(tooltip_text(true, drive), drive),
        holds_part(tooltip_text(false, drive), drive),
{
    let a = "LanShare - "@;
    let b = " ("@;
    let c = ")"@;
    let on = "已连接"@;
    let off = "已断开"@;
    lemma_holds_middle(a, on, b + drive + c);
    assert(a + on + (b + drive + c) =~= tooltip_text(true, drive));
    lemma_holds_middle(a, off, b + drive + c);
    assert(a + off + (b + drive + c) =~= tooltip_text(false, drive));
    lemma_holds_middle(a + on + b, drive, c);
    lemma_holds_middle(a + off + b, drive, c);
}

} // verus!
