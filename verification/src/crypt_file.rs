//! Sealing and opening the contents of a single file with a password: the
//! key is derived with Argon2id under a fresh salt, which is stored with the
//! sealed bytes.

use vstd::prelude::*;

use crate::cipher::AES_P_MAX;
use crate::db_encrypted::{open_with, sealed_for, MAX_PASSWORD_LEN, MIN_SEALED_LEN};
use crate::encryption::default::{decrypt, encrypt};
use crate::encryption::EncryptionResult;
use crate::hash::argon2_wrapper::{argon2_hash_password, argon2_hash_password_with_salt};

verus! {

/// Why a file could not be sealed or opened: data that cannot be what the
/// file should hold, or any other failure, with its message.
#[derive(Debug)]
pub enum CryptFileError {
    InvalidData(String),
    Other(String),
}

/// Seals the contents of a file under `password`.
pub fn encrypt_file(contents: &[u8], password: &[u8]) -> (r: Result<Vec<u8>, CryptFileError>)
    ensures
        password@.len() > MAX_PASSWORD_LEN ==> (r matches Err(CryptFileError::Other(_))),
        password@.len() <= MAX_PASSWORD_LEN && contents@.len() > AES_P_MAX ==> (r matches Err(
            CryptFileError::Other(msg),
        ) && msg@ == "Failed AES, invalid key"@),
        password@.len() <= MAX_PASSWORD_LEN && contents@.len() <= AES_P_MAX ==> (r matches Ok(sealed)
            && sealed_for(password@, contents@, sealed@)),
{
    let hash = match argon2_hash_password(password) {
        Ok(hash) => hash,
        Err(error) => return Err(CryptFileError::Other(error.to_string())),
    };
    let sealed = match encrypt(contents, &hash) {
        Ok(sealed) => sealed,
        Err(error) => return Err(CryptFileError::Other(error.to_string())),
    };
    Ok(vstd::slice::slice_to_vec(sealed.as_slice()))
}

/// Opens the sealed contents of a file with `password`.
pub fn decrypt_file(contents: Vec<u8>, password: &[u8]) -> (r: Result<Vec<u8>, CryptFileError>)
    requires
        contents@.len() >= MIN_SEALED_LEN,
    ensures
        password@.len() > MAX_PASSWORD_LEN ==> (r matches Err(CryptFileError::Other(_))),
        password@.len() <= MAX_PASSWORD_LEN ==> match open_with(password@, contents@) {
            Some(plain) => r matches Ok(p) && p@ == plain,
            None => r matches Err(CryptFileError::Other(msg)) && msg@ == "Failed AES, invalid key"@,
        },
{
    let contents = match EncryptionResult::new(contents) {
        Ok(contents) => contents,
        Err(error) => return Err(CryptFileError::InvalidData(error.to_string())),
    };
    let hash = match argon2_hash_password_with_salt(password, contents.get_salt_slice()) {
        Ok(hash) => hash,
        Err(error) => return Err(CryptFileError::Other(error.to_string())),
    };
    let plain = match decrypt(&contents, &hash) {
        Ok(plain) => plain,
        Err(error) => return Err(CryptFileError::Other(error.to_string())),
    };
    Ok(vstd::slice::slice_to_vec(plain.as_slice()))
}

/// What a file is sealed to opens, with the same password, to the file's
/// contents.
pub proof fn lemma_file_round_trip(password: Seq<u8>, contents: Seq<u8>, sealed: Seq<u8>)
    requires
        sealed_for(password, contents, sealed),
    ensures
        sealed.len() >= MIN_SEALED_LEN,
        open_with(password, sealed) == Some(contents),
{
}

} // verus!
