use vstd::prelude::*;

use crate::text::{decimal, decimal_text};

verus! {

/// What went wrong, for the errors this program reports.
#[derive(Clone, Copy, Debug, PartialEq, Eq)]
pub enum MyErrorKind {
    /// A call into the Windows API failed; says which.
    WindowsError(&'static str),
    /// The user settings could not be read or written.
    UserSettingsError,
    /// The change journal could not be read.
    UsnJournalError,
    /// A change-journal record has a version this program does not read.
    UsnRecordVersionUnsupported(u16),
}

/// The message shown for an error.
pub open spec fn message_text(e: MyErrorKind) -> Seq<char> {
    match e {
        MyErrorKind::WindowsError(what) => "Error while calling winapi, "@ + what@,
        MyErrorKind::UserSettingsError => "Error while processing user settings."@,
        MyErrorKind::UsnJournalError => "Error while processing change journal events."@,
        MyErrorKind::UsnRecordVersionUnsupported(v) => "UsnRecord v"@ + decimal_text(v as int) + " is not supported"@,
    }
}

impl MyErrorKind {
    /// The message shown for the error.
    pub fn message(&self) -> (r: String)
        ensures
            r@ == message_text(*self),
    {
        match self {
            MyErrorKind::WindowsError(what) => {
                let mut s = String::from_str("Error while calling winapi, ");
                s.append(what);
                s
            },
            MyErrorKind::UserSettingsError => String::from_str("Error while processing user settings."),
            MyErrorKind::UsnJournalError => String::from_str("Error while processing change journal events."),
            MyErrorKind::UsnRecordVersionUnsupported(v) => {
                let mut s = String::from_str("UsnRecord v");
                s.append(decimal(*v as i64).as_str());
                s.append(" is not supported");
                s
            },
        }
    }
}

} // verus!
