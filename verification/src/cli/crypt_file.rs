//! Sealing and opening single files from the command line, as `AesResult`
//! values: AES-256-GCM-SIV under an Argon2id key.

use vstd::prelude::*;

use crate::aes_wrapper::{aes_gcm_decrypt, aes_gcm_encrypt, AesResult};
use crate::cipher::AES_P_MAX;
use crate::crypt_file::CryptFileError;
use crate::db_encrypted::{MAX_PASSWORD_LEN, MIN_SEALED_LEN};
use crate::encryption::aes_wrapper::aes_gcm_siv::{gcm_siv_open, gcm_siv_sealed};
use crate::encryption::salt_part;
use crate::hash::argon2_wrapper::{argon2_hash_password, argon2_hash_password_with_salt, spec_argon2_default};

verus! {

/// `blob` seals `plaintext` with AES-256-GCM-SIV under the key that
/// `password` gives with the salt stored in `blob`.
pub open spec fn file_sealed_for(password: Seq<u8>, plaintext: Seq<u8>, blob: Seq<u8>) -> bool {
    gcm_siv_sealed(spec_argon2_default(password, salt_part(blob)), plaintext, salt_part(blob), blob)
}

/// What opening the sealed file `blob` with `password` gives.
pub open spec fn file_open_with(password: Seq<u8>, blob: Seq<u8>) -> Option<Seq<u8>> {
    gcm_siv_open(spec_argon2_default(password, salt_part(blob)), blob)
}

/// Seals the contents of a file under `password`, once it has been typed
/// the same twice.
pub fn encrypt_file(contents: &[u8], password: &[u8]) -> (r: Result<Vec<u8>, CryptFileError>)
    ensures
        password@.len() > MAX_PASSWORD_LEN ==> (r matches Err(CryptFileError::Other(_))),
        password@.len() <= MAX_PASSWORD_LEN && contents@.len() > AES_P_MAX ==> (r matches Err(
            CryptFileError::Other(msg),
        ) && msg@ == "Failed AES, invalid key"@),
        password@.len() <= MAX_PASSWORD_LEN && contents@.len() <= AES_P_MAX ==> (r matches Ok(sealed)
            && file_sealed_for(password@, contents@, sealed@)),
{
    let hash = match argon2_hash_password(password) {
        Ok(hash) => hash,
        Err(error) => return Err(CryptFileError::Other(error.to_string())),
    };
    let sealed = match aes_gcm_encrypt(&hash, contents) {
        Ok(sealed) => sealed,
        Err(error) => return Err(CryptFileError::Other(error.to_string())),
    };
    Ok(vstd::slice::slice_to_vec(sealed.as_slice()))
}

/// Opens the sealed contents of a file with `password`. Contents of 32
/// bytes or fewer are refused as not sealed.
pub fn decrypt_file(contents: Vec<u8>, password: &[u8]) -> (r: Result<Vec<u8>, CryptFileError>)
    requires
        contents@.len() <= 32 || contents@.len() >= MIN_SEALED_LEN,
    ensures
        contents@.len() <= 32 ==> (r matches Err(CryptFileError::InvalidData(msg)) && msg@
            == "Data is likely not encrypted"@),
        contents@.len() > 32 && password@.len() > MAX_PASSWORD_LEN ==> (r matches Err(
            CryptFileError::Other(_),
        )),
        contents@.len() > 32 && password@.len() <= MAX_PASSWORD_LEN ==> match file_open_with(password@, contents@) {
            Some(plain) => r matches Ok(p) && p@ == plain,
            None => r matches Err(CryptFileError::Other(msg)) && msg@ == "Failed AES, invalid key"@,
        },
{
    let contents = match AesResult::new(contents) {
        Ok(contents) => contents,
        Err(error) => return Err(CryptFileError::InvalidData(error.to_string())),
    };
    let hash = match argon2_hash_password_with_salt(password, contents.get_salt_slice()) {
        Ok(hash) => hash,
        Err(error) => return Err(CryptFileError::Other(error.to_string())),
    };
    proof {
        hash.lemma_lengths();
    }
    let plain = match aes_gcm_decrypt(hash.get_hash(), &contents) {
        Ok(plain) => plain,
        Err(error) => return Err(CryptFileError::Other(error.to_string())),
    };
    Ok(vstd::slice::slice_to_vec(plain.as_slice()))
}

/// A file sealed with a password opens, with the same password, to what
/// was sealed; sealed files are long enough to be opened.
pub proof fn lemma_file_opens_to_sealed(password: Seq<u8>, plaintext: Seq<u8>, blob: Seq<u8>)
    requires
        file_sealed_for(password, plaintext, blob),
    ensures
        blob.len() >= MIN_SEALED_LEN,
        file_open_with(password, blob) == Some(plaintext),
{
}

} // verus!
