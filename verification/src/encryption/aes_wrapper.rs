use vstd::prelude::*;

use crate::encryption::{EncryptionError, EncryptionResult};
use crate::hash::HashResult;

pub mod aes_gcm;
pub mod aes_gcm_siv;

use self::aes_gcm::{aes_gcm_decrypt, aes_gcm_encrypt, gcm_open, gcm_sealed};

verus! {

/// Seals `plaintext` with AES-256-GCM under the key in `hash`, storing the
/// nonce and `hash`'s salt after the sealed message.
pub fn aes_encrypt(plaintext: &[u8], hash: &HashResult) -> (r: Result<EncryptionResult, EncryptionError>)
    ensures
        r is Ok <==> plaintext@.len() <= crate::cipher::AES_P_MAX,
        r matches Ok(e) ==> gcm_sealed(hash.hash(), plaintext@, hash.salt(), e@),
        r matches Err(e) ==> e@ == "Failed AES, invalid key"@,
{
    let result = aes_gcm_encrypt(plaintext, hash)?;
    Ok(result)
}

/// Opens data sealed by `aes_encrypt` with the key in `hash`.
pub fn aes_decrypt(ciphertext: &EncryptionResult, hash: &HashResult) -> (r: Result<EncryptionResult, EncryptionError>)
    requires
        ciphertext@.len() >= 44,
    ensures
        r is Ok <==> gcm_open(hash.hash(), ciphertext@) is Some,
        r matches Ok(p) ==> gcm_open(hash.hash(), ciphertext@) == Some(p@),
        r matches Err(e) ==> e@ == "Failed AES, invalid key"@,
{
    let result = aes_gcm_decrypt(ciphertext, hash)?;
    Ok(result)
}

} // verus!
