//! The vault operations with results as `AesResult` values: each takes the
//! master password and derives a fresh key, keeping none.

use vstd::prelude::*;

use crate::aes_wrapper::AesResult;
use crate::db_base::error::DatabaseError;
use crate::cipher::AES_P_MAX;
use crate::db_encrypted::{insert_done, remove_done, sealed_for, DatabaseEncrypted, ReadOutcome, MAX_PASSWORD_LEN};
use crate::encryption::EncryptionResult;

verus! {

/// What `get` of `name` with `password` returns from the vault `d`, as an
/// `AesResult`.
pub open spec fn get_aes_done(d: DatabaseEncrypted, name: Seq<char>, password: Seq<u8>, r: Result<AesResult, DatabaseError>) -> bool {
    match d.read_outcome(name, password) {
        ReadOutcome::InvalidPassword => r == Err::<AesResult, DatabaseError>(DatabaseError::InvalidPassword),
        ReadOutcome::NotFound => r == Err::<AesResult, DatabaseError>(DatabaseError::NotFound),
        ReadOutcome::FailedHash => r matches Err(DatabaseError::FailedHash(_)),
        ReadOutcome::FailedAes => r matches Err(DatabaseError::FailedAes(msg)) && msg@ == "Failed AES, invalid key"@,
        ReadOutcome::Opened(p) => r matches Ok(a) && a@ == p,
    }
}

/// What sealing the whole vault `d` with `password` returns, as an
/// `AesResult`.
pub open spec fn serialize_aes_done(d: DatabaseEncrypted, password: Seq<u8>, r: Result<AesResult, DatabaseError>) -> bool {
    &&& !d.accepts(password) ==> r == Err::<AesResult, DatabaseError>(DatabaseError::InvalidPassword)
    &&& d.accepts(password) && password.len() > MAX_PASSWORD_LEN ==> (r matches Err(DatabaseError::FailedHash(_)))
    &&& d.accepts(password) && password.len() <= MAX_PASSWORD_LEN && d.stored_bytes().len() > AES_P_MAX ==> (r matches Err(
        DatabaseError::FailedAes(msg),
    ) && msg@ == "Failed AES, invalid key"@)
    &&& d.accepts(password) && password.len() <= MAX_PASSWORD_LEN && d.stored_bytes().len() <= AES_P_MAX ==> (r matches Ok(a)
        && sealed_for(password, d.stored_bytes(), a@))
}

/// The operations of an open vault, with opened and sealed bytes returned
/// as `AesResult` values.
pub trait DatabaseInterface: Sized {
    /// The vault's own consistency.
    spec fn well_formed(&self) -> bool;

    fn insert(&mut self, name: &str, data: &[u8], password: &[u8]) -> Result<(), DatabaseError>
        requires
            old(self).well_formed(),
    ;

    fn remove(&mut self, name: &str, password: &[u8]) -> Result<(), DatabaseError>
        requires
            old(self).well_formed(),
    ;

    fn get(&self, name: &str, password: &[u8]) -> Result<AesResult, DatabaseError>
        requires
            self.well_formed(),
    ;

    fn serialize_encrypted(&self, password: &[u8]) -> Result<AesResult, DatabaseError>
        requires
            self.well_formed(),
    ;
}

fn as_aes(r: Result<EncryptionResult, DatabaseError>) -> (out: Result<AesResult, DatabaseError>)
    ensures
        r matches Ok(e) ==> (out matches Ok(a) && a@ == e@),
        r matches Err(e) ==> out == Err::<AesResult, DatabaseError>(e),
{
    match r {
        Ok(e) => Ok(AesResult::from_bytes(e.as_slice())),
        Err(e) => Err(e),
    }
}

impl DatabaseInterface for DatabaseEncrypted {
    open spec fn well_formed(&self) -> bool {
        self.wf()
    }

    /// Seals `data` under `name`, with a key freshly derived from `password`.
    fn insert(&mut self, name: &str, data: &[u8], password: &[u8]) -> (r: Result<(), DatabaseError>)
        ensures
            insert_done(*old(self), *final(self), name@, data@, password@, r),
    {
        crate::db_encrypted::DatabaseInterface::insert(self, name, data, password)
    }

    /// Removes the entry `name`.
    fn remove(&mut self, name: &str, password: &[u8]) -> (r: Result<(), DatabaseError>)
        ensures
            remove_done(*old(self), *final(self), name@, password@, r),
    {
        crate::db_encrypted::DatabaseInterface::remove(self, name, password)
    }

    /// Opens the entry `name` with `password`.
    fn get(&self, name: &str, password: &[u8]) -> (r: Result<AesResult, DatabaseError>)
        ensures
            get_aes_done(*self, name@, password@, r),
    {
        as_aes(crate::db_encrypted::DatabaseInterface::get(self, name, password))
    }

    /// Seals the whole vault with a key freshly derived from `password`.
    fn serialize_encrypted(&self, password: &[u8]) -> (r: Result<AesResult, DatabaseError>)
        ensures
            serialize_aes_done(*self, password@, r),
    {
        as_aes(crate::db_encrypted::DatabaseInterface::serialize_encrypted(self, password))
    }
}

} // verus!
