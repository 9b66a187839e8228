use vstd::prelude::*;

use crate::encryption::aes_wrapper::aes_gcm::{gcm_open, gcm_sealed};
use crate::encryption::{EncryptionError, EncryptionResult};
use crate::hash::HashResult;

verus! {

/// Seals `plaintext` with the vault's default cipher, AES-256-GCM, under the
/// key in `key`.
pub fn encrypt(plaintext: &[u8], key: &HashResult) -> (r: Result<EncryptionResult, EncryptionError>)
    ensures
        r is Ok <==> plaintext@.len() <= crate::cipher::AES_P_MAX,
        r matches Ok(e) ==> gcm_sealed(key.hash(), plaintext@, key.salt(), e@),
        r matches Err(e) ==> e@ == "Failed AES, invalid key"@,
{
    crate::encryption::aes_wrapper::aes_encrypt(plaintext, key)
}

/// Opens data sealed by `encrypt` with the key in `key`.
pub fn decrypt(ciphertext: &EncryptionResult, key: &HashResult) -> (r: Result<EncryptionResult, EncryptionError>)
    requires
        ciphertext@.len() >= 44,
    ensures
        r is Ok <==> gcm_open(key.hash(), ciphertext@) is Some,
        r matches Ok(p) ==> gcm_open(key.hash(), ciphertext@) == Some(p@),
        r matches Err(e) ==> e@ == "Failed AES, invalid key"@,
{
    crate::encryption::aes_wrapper::aes_decrypt(ciphertext, key)
}

/// Sealing with the default cipher is undone by opening with the same key:
/// whatever `encrypt` returns, `decrypt` under the same key gives the
/// plaintext back.
pub proof fn lemma_decrypt_undoes_encrypt(key: Seq<u8>, plaintext: Seq<u8>, salt: Seq<u8>, data: Seq<u8>)
    requires
        gcm_sealed(key, plaintext, salt, data),
    ensures
        data.len() >= 44,
        gcm_open(key, data) == Some(plaintext),
{
}

} // verus!
