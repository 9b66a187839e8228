//! AES-256-GCM-SIV sealing of byte strings under a derived key, kept as
//! `AesResult` values: sealed message, nonce, then salt.

use vstd::prelude::*;

use crate::cipher::AES_P_MAX;
use crate::encryption::aes_wrapper::aes_gcm_siv::{gcm_siv_open, gcm_siv_sealed};
use crate::encryption::{crypt_part, salt_part, slice_range, zeroize_bytes, AES_NONCE_LEN, SALT_LEN};
use crate::hash::HashResult;

pub mod aes_gcm_siv;

verus! {

/// Seals `plaintext` with AES-256-GCM-SIV, the cipher this module is built
/// with, under the key in `hash_result`; the nonce and then the salt of
/// `hash_result` follow the sealed message.
pub fn aes_gcm_encrypt(hash_result: &HashResult, plaintext: &[u8]) -> (r: Result<AesResult, AesError>)
    ensures
        r is Ok <==> plaintext@.len() <= AES_P_MAX,
        r matches Ok(a) ==> gcm_siv_sealed(hash_result.hash(), plaintext@, hash_result.salt(), a@),
        r matches Err(e) ==> e@ == "Failed AES, invalid key"@,
{
    let result = aes_gcm_siv::aes_gcm_encrypt(hash_result, plaintext)?;
    Ok(result)
}

/// Opens `ciphertext`, sealed by `aes_gcm_encrypt`, with the 32-byte `key`.
pub fn aes_gcm_decrypt(key: &[u8], ciphertext: &AesResult) -> (r: Result<AesResult, AesError>)
    requires
        key@.len() == 32,
        ciphertext@.len() >= SALT_LEN + AES_NONCE_LEN,
    ensures
        r is Ok <==> gcm_siv_open(key@, ciphertext@) is Some,
        r matches Ok(p) ==> gcm_siv_open(key@, ciphertext@) == Some(p@),
        r matches Err(e) ==> e@ == "Failed AES, invalid key"@,
{
    let result = aes_gcm_siv::aes_gcm_decrypt(key, ciphertext)?;
    Ok(result)
}

/// An error raised while sealing or opening an `AesResult`.
#[derive(Debug)]
pub struct AesError {
    error: String,
}

impl View for AesError {
    type V = Seq<char>;

    closed spec fn view(&self) -> Seq<char> {
        self.error@
    }
}

impl AesError {
    pub fn new(msg: &str) -> (e: Self)
        ensures
            e@ == msg@,
    {
        Self { error: msg.to_owned() }
    }

    /// The message carried by the error.
    pub fn to_string(&self) -> (s: String)
        ensures
            s@ == self@,
    {
        self.error.clone()
    }
}

/// Sealed or opened bytes.
#[derive(Debug, Clone)]
pub struct AesResult {
    data: Vec<u8>,
}

impl Drop for AesResult {
    /// Wipes the bytes before the memory is given back.
    fn drop(&mut self)
        opens_invariants none
        no_unwind
    {
        zeroize_bytes(&mut self.data);
    }
}

impl View for AesResult {
    type V = Seq<u8>;

    closed spec fn view(&self) -> Seq<u8> {
        self.data@
    }
}

impl AesResult {
    /// Takes stored sealed bytes; 32 bytes or fewer cannot be sealed data.
    pub fn new(data: Vec<u8>) -> (r: Result<Self, AesError>)
        ensures
            r is Ok <==> data@.len() > 32,
            r matches Ok(a) ==> a@ == data@,
            r matches Err(e) ==> e@ == "Data is likely not encrypted"@,
    {
        if data.len() <= 32 {
            return Err(AesError::new("Data is likely not encrypted"));
        }
        Ok(Self { data })
    }

    /// Takes bytes as they are, sealed or opened.
    pub(crate) fn from_bytes(data: &[u8]) -> (a: Self)
        ensures
            a@ == data@,
    {
        Self { data: vstd::slice::slice_to_vec(data) }
    }

    pub fn as_ref(&self) -> (data: &Vec<u8>)
        ensures
            data@ == self@,
    {
        &self.data
    }

    pub fn as_slice(&self) -> (data: &[u8])
        ensures
            data@ == self@,
    {
        self.data.as_slice()
    }

    /// The trailing 32-byte salt.
    pub fn get_salt_slice(&self) -> (salt: &[u8])
        requires
            self@.len() >= SALT_LEN,
        ensures
            salt@ == salt_part(self@),
    {
        let len = self.data.len();
        slice_range(self.data.as_slice(), len - SALT_LEN, len)
    }

    /// Everything before the trailing salt.
    pub fn get_crypt_slice(&self) -> (crypt: &[u8])
        requires
            self@.len() >= SALT_LEN,
        ensures
            crypt@ == crypt_part(self@),
    {
        let len = self.data.len();
        slice_range(self.data.as_slice(), 0, len - SALT_LEN)
    }

    /// Overwrites the bytes with zeros and empties the buffer.
    pub fn zeroize(&mut self)
        ensures
            final(self)@.len() == 0,
    {
        zeroize_bytes(&mut self.data);
    }
}

} // verus!
