use cloppy::actions::{Action, ComposedAction, Shortcut, SimpleAction};
use cloppy::errors::MyErrorKind;
use cloppy::window::{
    fixed_answer, millis_since, status_text, on_size, route_message, Route, ID_FILL_LIST, ID_SELECT_ALL, LVN_COLUMNCLICK,
    LVN_GETDISPINFOW, NM_CUSTOMDRAW, WM_CLOSE, WM_COMMAND, WM_CREATE, WM_DESTROY, WM_GUI_ACTION, WM_NOTIFY,
    WM_SIZE, WM_SYSTRAYICON,
};

#[test]
fn routes_messages() {
    assert_eq!(Route::Run(Action::Simple(SimpleAction::MinimizeToTray)), route_message(WM_CLOSE, 0, 0));
    assert_eq!(Route::Run(Action::Simple(SimpleAction::ExitApp)), route_message(WM_DESTROY, 0, 0));
    assert_eq!(Route::Create, route_message(WM_CREATE, 0, 0));
    assert_eq!(Route::Size, route_message(WM_SIZE, 0, 0));
    assert_eq!(Route::TrayIcon, route_message(WM_SYSTRAYICON, 0, 0));
    assert_eq!(Route::CustomAction, route_message(WM_GUI_ACTION, 0, 0));
    assert_eq!(Route::GetDisplayInfo, route_message(WM_NOTIFY, LVN_GETDISPINFOW, 0));
    assert_eq!(Route::CustomDraw, route_message(WM_NOTIFY, NM_CUSTOMDRAW, 0));
    assert_eq!(Route::ColumnClick, route_message(WM_NOTIFY, LVN_COLUMNCLICK, 0));
    assert_eq!(Route::Default, route_message(WM_NOTIFY, 5, 0));
    assert_eq!(
        Route::Run(Action::Simple(SimpleAction::NewInputQuery)),
        route_message(WM_COMMAND, 0, (0x0300 << 16) | 2)
    );
    assert_eq!(Route::SelectAll, route_message(WM_COMMAND, 0, ID_SELECT_ALL as usize));
    assert_eq!(Route::FillList, route_message(WM_COMMAND, 0, ID_FILL_LIST as usize));
    assert_eq!(Route::Default, route_message(WM_COMMAND, 0, 1));
    assert_eq!(Route::Default, route_message(0x0200, 0, 0));
    assert_eq!(Some(1), fixed_answer(Route::GetDisplayInfo));
    assert_eq!(None, fixed_answer(Route::CustomDraw));
    assert_eq!(None, fixed_answer(Route::Default));
    assert_eq!(Some(0), fixed_answer(Route::Size));
}

#[test]
fn lays_out_parts() {
    let sizes = on_size((500 << 16) | 800, 600);
    assert_eq!(790, sizes.input_width);
    assert_eq!(20, sizes.input_height);
    assert_eq!(800, sizes.list_width);
    assert_eq!(570, sizes.list_height);
    let sizes = on_size(3, 10);
    assert_eq!(-7, sizes.input_width);
    assert_eq!(-20, sizes.list_height);
}

#[test]
fn counts_millis() {
    assert_eq!(2345, millis_since(2, 345));
    assert_eq!(0, millis_since(0, 0));
}

#[test]
fn composed_actions_and_shortcuts() {
    assert_eq!(
        [SimpleAction::ShowFilesWindow, SimpleAction::FocusOnInputField],
        ComposedAction::RestoreWindow.simple_actions()
    );
    assert_eq!(
        [SimpleAction::RestoreWindowPosition, SimpleAction::RestoreColumnsPosition],
        ComposedAction::ResizeWindowFromSettings.simple_actions()
    );
    assert_eq!(Action::Simple(SimpleAction::DoNothing), Action::from(SimpleAction::DoNothing));
    assert_eq!(Action::Composed(ComposedAction::RestoreWindow), Action::from(ComposedAction::RestoreWindow));
    assert_eq!(Some(Shortcut::ShowFilesWindow), Shortcut::from_wparam(0));
    assert_eq!(None, Shortcut::from_wparam(1));
}

#[test]
fn error_messages() {
    assert_eq!("Error while calling winapi, GetFocus", MyErrorKind::WindowsError("GetFocus").message());
    assert_eq!("Error while processing user settings.", MyErrorKind::UserSettingsError.message());
    assert_eq!("Error while processing change journal events.", MyErrorKind::UsnJournalError.message());
    assert_eq!("UsnRecord v65535 is not supported", MyErrorKind::UsnRecordVersionUnsupported(65535).message());
}

#[test]
fn status_bar_text() {
    assert_eq!("0 objects found", status_text(0));
    assert_eq!("4294967295 objects found", status_text(u32::MAX));
}
