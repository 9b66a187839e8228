use vstd::prelude::*;

use crate::cipher::{
    aes256gcm_decrypt, aes256gcm_encrypt, generate_nonce_96, spec_aes256gcm_decrypt,
    spec_aes256gcm_encrypt, AES_P_MAX, TAG_LEN,
};
use crate::encryption::{
    nonce_part, salt_part, sealed_part, EncryptionError, EncryptionResult, AES_NONCE_LEN, SALT_LEN,
};
use crate::hash::HashResult;

verus! {

/// `data` is `plaintext` sealed with AES-256-GCM under `key`: the sealed
/// message, then the nonce it was sealed with, then `salt`; and it opens to
/// `plaintext` again.
pub open spec fn gcm_sealed(key: Seq<u8>, plaintext: Seq<u8>, salt: Seq<u8>, data: Seq<u8>) -> bool {
    &&& data.len() == plaintext.len() + TAG_LEN + AES_NONCE_LEN + SALT_LEN
    &&& salt_part(data) == salt
    &&& sealed_part(data, 12) == spec_aes256gcm_encrypt(key, nonce_part(data, 12), plaintext)
    &&& gcm_open(key, data) == Some(plaintext)
}

/// What AES-256-GCM opening of stored data under `key` gives.
pub open spec fn gcm_open(key: Seq<u8>, data: Seq<u8>) -> Option<Seq<u8>> {
    spec_aes256gcm_decrypt(key, nonce_part(data, 12), sealed_part(data, 12))
}

/// Seals `plaintext` under the key in `hash_result` with a fresh random
/// nonce; the salt is appended to the end of the cipher.
pub fn aes_gcm_encrypt(plaintext: &[u8], hash_result: &HashResult) -> (r: Result<EncryptionResult, EncryptionError>)
    ensures
        r is Ok <==> plaintext@.len() <= AES_P_MAX,
        r matches Ok(e) ==> gcm_sealed(hash_result.hash(), plaintext@, hash_result.salt(), e@),
        r matches Err(e) ==> e@ == "Failed AES, invalid key"@,
{
    proof {
        hash_result.lemma_lengths();
    }
    let nonce = generate_nonce_96();
    let mut ciphertext = match aes256gcm_encrypt(hash_result.get_hash(), &nonce, plaintext) {
        Ok(c) => c,
        Err(_) => return Err(EncryptionError::new("Failed AES, invalid key")),
    };
    let ghost sealed = ciphertext@;
    ciphertext.extend_from_slice(&nonce);
    ciphertext.extend_from_slice(hash_result.get_salt());
    proof {
        let d = ciphertext@;
        assert(salt_part(d) =~= hash_result.salt());
        assert(crate::encryption::crypt_part(d) =~= sealed + nonce@);
        assert(nonce_part(d, 12) =~= nonce@);
        assert(sealed_part(d, 12) =~= sealed);
    }
    Ok(EncryptionResult::new(ciphertext)?)
}

/// Opens data sealed by `aes_gcm_encrypt` with the key in `key`.
pub fn aes_gcm_decrypt(ciphertext: &EncryptionResult, key: &HashResult) -> (r: Result<EncryptionResult, EncryptionError>)
    requires
        ciphertext@.len() >= SALT_LEN + AES_NONCE_LEN,
    ensures
        r is Ok <==> gcm_open(key.hash(), ciphertext@) is Some,
        r matches Ok(p) ==> gcm_open(key.hash(), ciphertext@) == Some(p@),
        r matches Err(e) ==> e@ == "Failed AES, invalid key"@,
{
    proof {
        key.lemma_lengths();
    }
    let crypt = ciphertext.get_crypt_slice();
    let len = crypt.len();
    let nonce = crate::encryption::slice_range(crypt, len - AES_NONCE_LEN, len);
    let body = crate::encryption::slice_range(crypt, 0, len - AES_NONCE_LEN);
    let plaintext = match aes256gcm_decrypt(key.get_hash(), nonce, body) {
        Ok(p) => p,
        Err(_) => return Err(EncryptionError::new("Failed AES, invalid key")),
    };
    Ok(EncryptionResult::new(plaintext)?)
}

} // verus!
