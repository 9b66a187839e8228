use vstd::prelude::*;

use crate::encryption::EncryptionError;

verus! {

/// Why a vault operation failed.
#[derive(Debug, PartialEq, Eq)]
pub enum DatabaseError {
    NotFound,
    AlreadyExists,
    FailedHash(String),
    FailedAes(String),
    LockError,
    InvalidPassword,
    InputError(String),
    OutputError(String),
    FailedSerialize,
    FailedDeserialize,
    InvalidCsv(String),
    IoError(String),
}

/// The text shown for an error.
pub open spec fn database_error_text(e: DatabaseError) -> Seq<char> {
    match e {
        DatabaseError::NotFound => "Not found"@,
        DatabaseError::AlreadyExists => "Already exists"@,
        DatabaseError::FailedHash(msg) => "Failed hash: "@ + msg@,
        DatabaseError::FailedAes(msg) => msg@,
        DatabaseError::LockError => "Failed to get mutex lock on db"@,
        DatabaseError::InvalidPassword => "Invalid password provided"@,
        DatabaseError::InputError(msg) => "Input error: "@ + msg@,
        DatabaseError::OutputError(msg) => "Output error: "@ + msg@,
        DatabaseError::FailedSerialize => "Failed to serialize"@,
        DatabaseError::FailedDeserialize => "Failed to deserialize"@,
        DatabaseError::InvalidCsv(msg) => "Csv error: "@ + msg@,
        DatabaseError::IoError(msg) => "Io error: "@ + msg@,
    }
}

/// `prefix` followed by `msg`.
fn prefixed(prefix: &str, msg: &String) -> (s: String)
    ensures
        s@ == prefix@ + msg@,
{
    let s = prefix.to_owned();
    s.concat(msg.as_str())
}

impl DatabaseError {
    /// The text shown for the error.
    pub fn to_string(&self) -> (s: String)
        ensures
            s@ == database_error_text(*self),
    {
        match self {
            DatabaseError::NotFound => "Not found".to_owned(),
            DatabaseError::AlreadyExists => "Already exists".to_owned(),
            DatabaseError::FailedHash(msg) => prefixed("Failed hash: ", msg),
            DatabaseError::FailedAes(msg) => msg.clone(),
            DatabaseError::LockError => "Failed to get mutex lock on db".to_owned(),
            DatabaseError::InvalidPassword => "Invalid password provided".to_owned(),
            DatabaseError::InputError(msg) => prefixed("Input error: ", msg),
            DatabaseError::OutputError(msg) => prefixed("Output error: ", msg),
            DatabaseError::FailedSerialize => "Failed to serialize".to_owned(),
            DatabaseError::FailedDeserialize => "Failed to deserialize".to_owned(),
            DatabaseError::InvalidCsv(msg) => prefixed("Csv error: ", msg),
            DatabaseError::IoError(msg) => prefixed("Io error: ", msg),
        }
    }

    /// A failed sealing or opening, carrying the cipher's message.
    pub fn from_encryption_error(e: EncryptionError) -> (r: Self)
        ensures
            r matches DatabaseError::FailedAes(msg) && msg@ == e@,
    {
        DatabaseError::FailedAes(e.to_string())
    }
}

} // verus!
