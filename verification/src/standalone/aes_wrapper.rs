//! AES-256-GCM under a raw 32-byte key: the sealed message followed by the
//! 12-byte nonce.

use vstd::prelude::*;

use crate::cipher::{
    aes256gcm_decrypt, aes256gcm_encrypt, generate_nonce_96, spec_aes256gcm_decrypt,
    spec_aes256gcm_encrypt, AES_P_MAX, TAG_LEN,
};
use crate::encryption::slice_range;

verus! {

/// `aead::KeyInit::generate_key` for `Aes256Gcm` with `aead::OsRng`: a
/// random 256-bit key. The bytes are chance.
#[verifier::external_body]
pub fn random_key() -> [u8; 32] {
    let key = <aes_gcm::Aes256Gcm as aead::KeyInit>::generate_key(aead::OsRng);
    key.into()
}

/// The nonce at the end of sealed bytes.
pub open spec fn trailing_nonce(data: Seq<u8>) -> Seq<u8> {
    data.subrange(data.len() - 12, data.len() as int)
}

/// The sealed message before the nonce.
pub open spec fn leading_message(data: Seq<u8>) -> Seq<u8> {
    data.subrange(0, data.len() - 12)
}

/// Seals `plaintext` under the 32-byte `key` with a fresh random nonce,
/// which follows the sealed message.
pub fn aes_gcm_encrypt(key: &[u8], plaintext: &[u8]) -> (r: Result<Vec<u8>, aead::Error>)
    requires
        key@.len() == 32,
    ensures
        r is Ok <==> plaintext@.len() <= AES_P_MAX,
        r matches Ok(c) ==> {
            &&& c@.len() == plaintext@.len() + TAG_LEN + 12
            &&& leading_message(c@) == spec_aes256gcm_encrypt(key@, trailing_nonce(c@), plaintext@)
            &&& spec_aes256gcm_decrypt(key@, trailing_nonce(c@), leading_message(c@)) == Some(plaintext@)
        },
{
    let nonce = generate_nonce_96();
    let mut ciphertext = match aes256gcm_encrypt(key, &nonce, plaintext) {
        Ok(c) => c,
        Err(e) => return Err(e),
    };
    let ghost sealed = ciphertext@;
    ciphertext.extend_from_slice(&nonce);
    assert(trailing_nonce(ciphertext@) =~= nonce@);
    assert(leading_message(ciphertext@) =~= sealed);
    Ok(ciphertext)
}

/// Opens `ciphertext`, sealed message then nonce, with the 32-byte `key`.
pub fn aes_gcm_decrypt(key: &[u8], ciphertext: &[u8]) -> (r: Result<Vec<u8>, aead::Error>)
    requires
        key@.len() == 32,
        ciphertext@.len() >= 12,
    ensures
        r is Ok <==> spec_aes256gcm_decrypt(key@, trailing_nonce(ciphertext@), leading_message(ciphertext@)) is Some,
        r matches Ok(p) ==> spec_aes256gcm_decrypt(key@, trailing_nonce(ciphertext@), leading_message(ciphertext@))
            == Some(p@),
{
    let len = ciphertext.len();
    let nonce = slice_range(ciphertext, len - 12, len);
    let body = slice_range(ciphertext, 0, len - 12);
    aes256gcm_decrypt(key, nonce, body)
}

} // verus!
