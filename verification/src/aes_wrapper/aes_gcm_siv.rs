//! AES-256-GCM-SIV sealing of `AesResult` values, the cipher that the
//! functions of `aes_wrapper` use: sealed message, nonce, then salt.

use vstd::prelude::*;

use crate::aes_wrapper::{AesError, AesResult};
use crate::cipher::{aes256gcmsiv_decrypt, aes256gcmsiv_encrypt, generate_nonce_96, AES_P_MAX};
use crate::encryption::aes_wrapper::aes_gcm_siv::{gcm_siv_open, gcm_siv_sealed};
use crate::encryption::{crypt_part, nonce_part, salt_part, sealed_part, slice_range, AES_NONCE_LEN, SALT_LEN};
use crate::hash::HashResult;

verus! {

/// Seals `plaintext` under the key in `hash_result`; the nonce and then the
/// salt of `hash_result` follow the sealed message.
pub fn aes_gcm_encrypt(hash_result: &HashResult, plaintext: &[u8]) -> (r: Result<AesResult, AesError>)
    ensures
        r is Ok <==> plaintext@.len() <= AES_P_MAX,
        r matches Ok(a) ==> gcm_siv_sealed(hash_result.hash(), plaintext@, hash_result.salt(), a@),
        r matches Err(e) ==> e@ == "Failed AES, invalid key"@,
{
    proof {
        hash_result.lemma_lengths();
    }
    let nonce = generate_nonce_96();
    let mut data = match aes256gcmsiv_encrypt(hash_result.get_hash(), &nonce, plaintext) {
        Ok(c) => c,
        Err(_) => return Err(AesError::new("Failed AES, invalid key")),
    };
    let ghost sealed = data@;
    data.extend_from_slice(&nonce);
    data.extend_from_slice(hash_result.get_salt());
    proof {
        let d = data@;
        assert(salt_part(d) =~= hash_result.salt());
        assert(crypt_part(d) =~= sealed + nonce@);
        assert(nonce_part(d, 12) =~= nonce@);
        assert(sealed_part(d, 12) =~= sealed);
    }
    Ok(AesResult { data })
}

/// Opens `ciphertext` with the 32-byte `key`.
pub fn aes_gcm_decrypt(key: &[u8], ciphertext: &AesResult) -> (r: Result<AesResult, AesError>)
    requires
        key@.len() == 32,
        ciphertext@.len() >= SALT_LEN + AES_NONCE_LEN,
    ensures
        r is Ok <==> gcm_siv_open(key@, ciphertext@) is Some,
        r matches Ok(p) ==> gcm_siv_open(key@, ciphertext@) == Some(p@),
        r matches Err(e) ==> e@ == "Failed AES, invalid key"@,
{
    let crypt = ciphertext.get_crypt_slice();
    let len = crypt.len();
    let nonce = slice_range(crypt, len - AES_NONCE_LEN, len);
    let body = slice_range(crypt, 0, len - AES_NONCE_LEN);
    match aes256gcmsiv_decrypt(key, nonce, body) {
        Ok(data) => Ok(AesResult { data }),
        Err(_) => Err(AesError::new("Failed AES, invalid key")),
    }
}

} // verus!
