use vstd::prelude::*;

use crate::actions::{Action, SimpleAction};
use crate::text::{decimal, decimal_text};
use crate::usn_record::UsnChange;

verus! {

pub const WM_CREATE: u32 = 0x0001;
pub const WM_DESTROY: u32 = 0x0002;
pub const WM_SIZE: u32 = 0x0005;
pub const WM_CLOSE: u32 = 0x0010;
pub const WM_NOTIFY: u32 = 0x004E;
pub const WM_COMMAND: u32 = 0x0111;
pub const WM_EXITSIZEMOVE: u32 = 0x0232;
pub const WM_HOTKEY: u32 = 0x0312;

/// The message the tray icon sends (the first application message after `WM_APP`).
pub const WM_SYSTRAYICON: u32 = 0x8001;

/// The message that hands the window a new search state.
pub const WM_GUI_ACTION: u32 = 0x8002;

/// List-view notification: the list asks for a row's text.
pub const LVN_GETDISPINFOW: u32 = 0xFFFF_FF4F;

/// Notification: a control asks whether to draw an item itself.
pub const NM_CUSTOMDRAW: u32 = 0xFFFF_FFF4;

/// List-view notification: a column header was clicked.
pub const LVN_COLUMNCLICK: u32 = 0xFFFF_FF94;

/// Edit-control notification: the text changed.
pub const EN_CHANGE: u16 = 0x0300;

/// Accelerator command: select all the text of the search field.
pub const ID_SELECT_ALL: u16 = 0x8000;

/// Accelerator command: give the file list its full row count.
pub const ID_FILL_LIST: u16 = 0x8001;

/// What the main window does with a message.
#[derive(Copy, Clone, Debug, PartialEq, Eq, Structural)]
pub enum Route {
    /// Run an action; the message is answered with 0.
    Run(Action),
    /// Run the action the pressed shortcut stands for; answered with 0.
    Hotkey,
    /// The user stopped moving or sizing the window; answered with 0.
    ExitSizeMove,
    /// Build the window's parts, then restore the window; answered with 0.
    Create,
    /// Give the list the text of a row; answered with 1.
    GetDisplayInfo,
    /// Let the list draw a row; answered with what drawing gives.
    CustomDraw,
    /// Sort by the clicked column; answered with 0.
    ColumnClick,
    /// Lay out the parts for the new size; answered with 0.
    Size,
    /// React to the tray icon; answered with 0.
    TrayIcon,
    /// Set the list's row count; answered with 0.
    FillList,
    /// Select the search text; answered with 0.
    SelectAll,
    /// Take the new search state; answered with 0.
    CustomAction,
    /// Leave the message to the default window procedure.
    Default,
}

/// The high 16 bits of the low 32 bits of a message parameter.
pub open spec fn hiword(w: usize) -> u16 {
    ((w as u32) >> 16u32) as u16
}

/// The low 16 bits of a message parameter.
pub open spec fn loword(w: usize) -> u16 {
    ((w as u32) & 0xffffu32) as u16
}

/// How the main window handles `message`; `notify_code` is the code of a
/// `WM_NOTIFY` notification and is read only for that message.
pub open spec fn route_of(message: u32, notify_code: u32, w_param: usize) -> Route {
    if message == WM_CLOSE {
        Route::Run(Action::Simple(SimpleAction::MinimizeToTray))
    } else if message == WM_DESTROY {
        Route::Run(Action::Simple(SimpleAction::ExitApp))
    } else if message == WM_HOTKEY {
        Route::Hotkey
    } else if message == WM_EXITSIZEMOVE {
        Route::ExitSizeMove
    } else if message == WM_CREATE {
        Route::Create
    } else if message == WM_NOTIFY {
        if notify_code == LVN_GETDISPINFOW {
            Route::GetDisplayInfo
        } else if notify_code == NM_CUSTOMDRAW {
            Route::CustomDraw
        } else if notify_code == LVN_COLUMNCLICK {
            Route::ColumnClick
        } else {
            Route::Default
        }
    } else if message == WM_SIZE {
        Route::Size
    } else if message == WM_SYSTRAYICON {
        Route::TrayIcon
    } else if message == WM_COMMAND {
        if hiword(w_param) == EN_CHANGE {
            Route::Run(Action::Simple(SimpleAction::NewInputQuery))
        } else if loword(w_param) == ID_FILL_LIST {
            Route::FillList
        } else if loword(w_param) == ID_SELECT_ALL {
            Route::SelectAll
        } else {
            Route::Default
        }
    } else if message == WM_GUI_ACTION {
        Route::CustomAction
    } else {
        Route::Default
    }
}

/// The messages the main window answers itself.
pub open spec fn handled_message(message: u32) -> bool {
    message == WM_CLOSE || message == WM_DESTROY || message == WM_HOTKEY || message == WM_EXITSIZEMOVE
        || message == WM_CREATE || message == WM_NOTIFY || message == WM_SIZE || message
        == WM_SYSTRAYICON || message == WM_COMMAND || message == WM_GUI_ACTION
}

/// Each message the window handles has its own route, whatever its
/// parameters: closing hides the window in the tray, destroying exits, a
/// shortcut runs its action, and so on; a notification or a command is
/// routed by its code, and any other message goes to the default window
/// procedure.
pub proof fn law_messages_route_by_kind(message: u32, notify_code: u32, w_param: usize)
    ensures
        route_of(WM_CLOSE, notify_code, w_param) == Route::Run(Action::Simple(SimpleAction::MinimizeToTray)),
        route_of(WM_DESTROY, notify_code, w_param) == Route::Run(Action::Simple(SimpleAction::ExitApp)),
        route_of(WM_HOTKEY, notify_code, w_param) == Route::Hotkey,
        route_of(WM_EXITSIZEMOVE, notify_code, w_param) == Route::ExitSizeMove,
        route_of(WM_CREATE, notify_code, w_param) == Route::Create,
        route_of(WM_SIZE, notify_code, w_param) == Route::Size,
        route_of(WM_SYSTRAYICON, notify_code, w_param) == Route::TrayIcon,
        route_of(WM_GUI_ACTION, notify_code, w_param) == Route::CustomAction,
        route_of(WM_NOTIFY, LVN_GETDISPINFOW, w_param) == Route::GetDisplayInfo,
        route_of(WM_NOTIFY, NM_CUSTOMDRAW, w_param) == Route::CustomDraw,
        route_of(WM_NOTIFY, LVN_COLUMNCLICK, w_param) == Route::ColumnClick,
        hiword(w_param) == EN_CHANGE ==> route_of(WM_COMMAND, notify_code, w_param) == Route::Run(
            Action::Simple(SimpleAction::NewInputQuery),
        ),
        hiword(w_param) != EN_CHANGE && loword(w_param) == ID_FILL_LIST ==> route_of(
            WM_COMMAND,
            notify_code,
            w_param,
        ) == Route::FillList,
        hiword(w_param) != EN_CHANGE && loword(w_param) == ID_SELECT_ALL ==> route_of(
            WM_COMMAND,
            notify_code,
            w_param,
        ) == Route::SelectAll,
        notify_code != LVN_GETDISPINFOW && notify_code != NM_CUSTOMDRAW && notify_code
            != LVN_COLUMNCLICK ==> route_of(WM_NOTIFY, notify_code, w_param) == Route::Default,
        hiword(w_param) != EN_CHANGE && loword(w_param) != ID_FILL_LIST && loword(w_param)
            != ID_SELECT_ALL ==> route_of(WM_COMMAND, notify_code, w_param) == Route::Default,
        !handled_message(message) ==> route_of(message, notify_code, w_param) == Route::Default,
{
}

/// Decides what the main window does with a message.
pub fn route_message(message: u32, notify_code: u32, w_param: usize) -> (r: Route)
    ensures
        r == route_of(message, notify_code, w_param),
        message == WM_CLOSE ==> r == Route::Run(Action::Simple(SimpleAction::MinimizeToTray)),
        message == WM_DESTROY ==> r == Route::Run(Action::Simple(SimpleAction::ExitApp)),
        message == WM_HOTKEY ==> r == Route::Hotkey,
        message == WM_EXITSIZEMOVE ==> r == Route::ExitSizeMove,
        message == WM_CREATE ==> r == Route::Create,
        message == WM_SIZE ==> r == Route::Size,
        message == WM_SYSTRAYICON ==> r == Route::TrayIcon,
        message == WM_GUI_ACTION ==> r == Route::CustomAction,
        !handled_message(message) ==> r == Route::Default,
{
    proof {
        law_messages_route_by_kind(message, notify_code, w_param);
    }
    match message {
        WM_CLOSE => Route::Run(Action::Simple(SimpleAction::MinimizeToTray)),
        WM_DESTROY => Route::Run(Action::Simple(SimpleAction::ExitApp)),
        WM_HOTKEY => Route::Hotkey,
        WM_EXITSIZEMOVE => Route::ExitSizeMove,
        WM_CREATE => Route::Create,
        WM_NOTIFY => {
            if notify_code == LVN_GETDISPINFOW {
                Route::GetDisplayInfo
            } else if notify_code == NM_CUSTOMDRAW {
                Route::CustomDraw
            } else if notify_code == LVN_COLUMNCLICK {
                Route::ColumnClick
            } else {
                Route::Default
            }
        },
        WM_SIZE => Route::Size,
        WM_SYSTRAYICON => Route::TrayIcon,
        WM_COMMAND => {
            let word = w_param as u32;
            let high = (word >> 16u32) as u16;
            let low = (word & 0xffffu32) as u16;
            if high == EN_CHANGE {
                Route::Run(Action::Simple(SimpleAction::NewInputQuery))
            } else if low == ID_FILL_LIST {
                Route::FillList
            } else if low == ID_SELECT_ALL {
                Route::SelectAll
            } else {
                Route::Default
            }
        },
        WM_GUI_ACTION => Route::CustomAction,
        _ => Route::Default,
    }
}

/// The answer to a message for the routes that answer with a fixed value.
pub fn fixed_answer(route: Route) -> (r: Option<isize>)
    ensures
        r == match route {
            Route::GetDisplayInfo => Some(1isize),
            Route::CustomDraw => None,
            Route::Default => None,
            _ => Some(0isize),
        },
{
    match route {
        Route::GetDisplayInfo => Some(1),
        Route::CustomDraw => None,
        Route::Default => None,
        _ => Some(0),
    }
}

/// The margin around the search field.
pub const INPUT_MARGIN: i32 = 5;

/// The height of the search field.
pub const INPUT_HEIGHT: i32 = 20;

/// Where the file list starts, below the search field.
pub const FILE_LIST_Y: i32 = 30;

/// The sizes the window's parts get when the window is resized.
#[derive(Copy, Clone, Debug, PartialEq, Eq, Structural)]
pub struct PartSizes {
    pub input_width: i32,
    pub input_height: i32,
    pub list_width: i32,
    pub list_height: i32,
}

/// Lays the parts out for a new client size (its width in the low word of
/// `l_param`): the search field spans the width less its margins, the list
/// spans the width and reaches down to `client_bottom`, the bottom of the
/// client area above the status bar.
pub fn on_size(l_param: isize, client_bottom: i32) -> (r: PartSizes)
    requires
        client_bottom >= i32::MIN + FILE_LIST_Y,
    ensures
        r.input_width == ((l_param as u32) & 0xffffu32) as u16 - 2 * INPUT_MARGIN,
        r.input_height == INPUT_HEIGHT,
        r.list_width == ((l_param as u32) & 0xffffu32) as u16,
        r.list_height == client_bottom - FILE_LIST_Y,
{
    let new_width = ((l_param as u32) & 0xffffu32) as u16 as i32;
    PartSizes {
        input_width: new_width - 2 * INPUT_MARGIN,
        input_height: INPUT_HEIGHT,
        list_width: new_width,
        list_height: client_bottom - FILE_LIST_Y,
    }
}

/// Milliseconds in an elapsed time given as whole seconds (kept to 32 bits)
/// and the milliseconds past them.
pub fn millis_since(elapsed_secs: u64, subsec_millis: u32) -> (r: u32)
    requires
        (elapsed_secs as u32) * 1000 + subsec_millis <= u32::MAX,
    ensures
        r == (elapsed_secs as u32) * 1000 + subsec_millis,
{
    (elapsed_secs as u32) * 1000 + subsec_millis
}

/// The status bar's text for a search that found `count` files.
pub fn status_text(count: u32) -> (r: String)
    ensures
        r@ == decimal_text(count as int) + " objects found"@,
{
    let mut text = decimal(count as i64);
    text.append(" objects found");
    text
}

/// Requests the window makes of the file listing and waits for.
#[derive(Copy, Clone, Debug, PartialEq, Eq, Structural)]
pub enum UiSyncMessage {
    DrawItem,
    CustomDrawItem,
    PrepareItem,
}

/// Messages for the file listing.
#[derive(Debug)]
pub enum FilesMsg {
    ChangeJournal(Vec<UsnChange>),
}

} // verus!
