//! The errors that the window reports.

use vstd::prelude::*;

use crate::db_base::error::{database_error_text, DatabaseError};

verus! {

/// Why an action of the window failed.
#[derive(Debug)]
pub enum GuiError {
    LockFail(String),
    RecvFail(String),
    SendFail(String),
    IoError(String),
    DatabaseError(String),
    NoFile,
    NoVault,
    StringError(String),
    PasswordNotSame,
    Utf8Fail(String),
}

/// The text shown for an error.
pub open spec fn gui_error_text(e: GuiError) -> Seq<char> {
    match e {
        GuiError::LockFail(msg) => "Failed to lock: "@ + msg@,
        GuiError::RecvFail(msg) => "Failed to recv: "@ + msg@,
        GuiError::SendFail(msg) => "Failed to send: "@ + msg@,
        GuiError::IoError(msg) => "IO error: "@ + msg@,
        GuiError::DatabaseError(msg) => "Vault error: "@ + msg@,
        GuiError::NoFile => "No file selected"@,
        GuiError::NoVault => "No vault opened"@,
        GuiError::StringError(msg) => msg@,
        GuiError::PasswordNotSame => "Passwords do not match"@,
        GuiError::Utf8Fail(msg) => msg@,
    }
}

fn prefixed(prefix: &str, msg: &String) -> (s: String)
    ensures
        s@ == prefix@ + msg@,
{
    let s = prefix.to_owned();
    s.concat(msg.as_str())
}

impl GuiError {
    /// The text shown for the error.
    pub fn to_string(&self) -> (s: String)
        ensures
            s@ == gui_error_text(*self),
    {
        match self {
            GuiError::LockFail(msg) => prefixed("Failed to lock: ", msg),
            GuiError::RecvFail(msg) => prefixed("Failed to recv: ", msg),
            GuiError::SendFail(msg) => prefixed("Failed to send: ", msg),
            GuiError::IoError(msg) => prefixed("IO error: ", msg),
            GuiError::DatabaseError(msg) => prefixed("Vault error: ", msg),
            GuiError::NoFile => "No file selected".to_owned(),
            GuiError::NoVault => "No vault opened".to_owned(),
            GuiError::StringError(msg) => msg.clone(),
            GuiError::PasswordNotSame => "Passwords do not match".to_owned(),
            GuiError::Utf8Fail(msg) => msg.clone(),
        }
    }

    /// A vault error, carried as its text.
    pub fn from_database_error(e: DatabaseError) -> (r: Self)
        ensures
            r matches GuiError::DatabaseError(msg) && msg@ == database_error_text(e),
    {
        GuiError::DatabaseError(e.to_string())
    }

    /// Whether the window reports the error to the user; failures of the
    /// prompt channels are only logged.
    pub fn is_shown(&self) -> (shown: bool)
        ensures
            shown == !(*self is SendFail || *self is RecvFail),
    {
        match self {
            GuiError::SendFail(_) => false,
            GuiError::RecvFail(_) => false,
            _ => true,
        }
    }
}

} // verus!
