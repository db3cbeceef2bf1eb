use vstd::prelude::*;

verus! {

/// A single thing the window can be asked to do.
#[derive(Copy, Clone, Debug, PartialEq, Eq, Structural)]
pub enum SimpleAction {
    ShowFilesWindow,
    NewInputQuery,
    ExitApp,
    MinimizeToTray,
    DoNothing,
    FocusOnInputField,
    SaveWindowPosition,
    RestoreWindowPosition,
    SaveColumnsPosition,
    RestoreColumnsPosition,
}

/// A named sequence of simple actions.
#[derive(Copy, Clone, Debug, PartialEq, Eq, Structural)]
pub enum ComposedAction {
    RestoreWindow,
    ResizeWindowFromSettings,
}

/// What the window is asked to do.
#[derive(Copy, Clone, Debug, PartialEq, Eq, Structural)]
pub enum Action {
    Simple(SimpleAction),
    Composed(ComposedAction),
}

/// The simple actions a composed action stands for, in the order they run.
pub open spec fn steps_of(action: ComposedAction) -> Seq<SimpleAction> {
    match action {
        ComposedAction::RestoreWindow => seq![SimpleAction::ShowFilesWindow, SimpleAction::FocusOnInputField],
        ComposedAction::ResizeWindowFromSettings => seq![
            SimpleAction::RestoreWindowPosition,
            SimpleAction::RestoreColumnsPosition,
        ],
    }
}

impl ComposedAction {
    /// Restoring the window shows it and focuses the search field; resizing
    /// it from the settings restores its position, then its columns.
    pub fn simple_actions(self) -> (r: [SimpleAction; 2])
        ensures
            r@ == steps_of(self),
    {
        match self {
            ComposedAction::RestoreWindow => [SimpleAction::ShowFilesWindow, SimpleAction::FocusOnInputField],
            ComposedAction::ResizeWindowFromSettings => [
                SimpleAction::RestoreWindowPosition,
                SimpleAction::RestoreColumnsPosition,
            ],
        }
    }
}

impl From<SimpleAction> for Action {
    fn from(action: SimpleAction) -> (r: Action) {
        Action::Simple(action)
    }
}

impl vstd::std_specs::convert::FromSpecImpl<SimpleAction> for Action {
    open spec fn obeys_from_spec() -> bool {
        true
    }

    open spec fn from_spec(action: SimpleAction) -> Action {
        Action::Simple(action)
    }
}

impl From<ComposedAction> for Action {
    fn from(action: ComposedAction) -> (r: Action) {
        Action::Composed(action)
    }
}

impl vstd::std_specs::convert::FromSpecImpl<ComposedAction> for Action {
    open spec fn obeys_from_spec() -> bool {
        true
    }

    open spec fn from_spec(action: ComposedAction) -> Action {
        Action::Composed(action)
    }
}

/// A global keyboard shortcut, numbered by its registration id.
#[derive(Copy, Clone, Debug, PartialEq, Eq, Structural)]
pub enum Shortcut {
    ShowFilesWindow,
}

impl Shortcut {
    /// The shortcut whose id is the message parameter read as an `i32`;
    /// `None` for an id no shortcut has.
    pub fn from_wparam(w_param: usize) -> (r: Option<Shortcut>)
        ensures
            r == (if w_param as i32 == 0 {
                Some(Shortcut::ShowFilesWindow)
            } else {
                None::<Shortcut>
            }),
    {
        let id = w_param as i32;
        if id == 0 {
            Some(Shortcut::ShowFilesWindow)
        } else {
            None
        }
    }
}

} // verus!
