use vstd::prelude::*;

use crate::cipher::{
    generate_nonce_192, spec_xchacha20poly1305_decrypt, spec_xchacha20poly1305_encrypt,
    xchacha20poly1305_decrypt, xchacha20poly1305_encrypt, TAG_LEN,
};
use crate::encryption::{slice_range, EncryptionError, EncryptionResult};
use crate::hash::HashResult;

verus! {

/// Length of the XChaCha20-Poly1305 nonce stored after the sealed message.
pub const XNONCE_LEN: usize = 24;

/// The trailing nonce of XChaCha20-Poly1305 data.
pub open spec fn xnonce_part(data: Seq<u8>) -> Seq<u8> {
    data.subrange(data.len() - XNONCE_LEN, data.len() as int)
}

/// The sealed message before the trailing nonce.
pub open spec fn xsealed_part(data: Seq<u8>) -> Seq<u8> {
    data.subrange(0, data.len() - XNONCE_LEN)
}

/// What XChaCha20-Poly1305 opening of stored data under `key` gives.
pub open spec fn xchacha_open(key: Seq<u8>, data: Seq<u8>) -> Option<Seq<u8>> {
    spec_xchacha20poly1305_decrypt(key, xnonce_part(data), xsealed_part(data))
}

/// `data` is `plaintext` sealed with XChaCha20-Poly1305 under `key`: the
/// sealed message followed by its nonce; and it opens to `plaintext` again.
pub open spec fn xchacha_sealed(key: Seq<u8>, plaintext: Seq<u8>, data: Seq<u8>) -> bool {
    &&& data.len() == plaintext.len() + TAG_LEN + XNONCE_LEN
    &&& xsealed_part(data) == spec_xchacha20poly1305_encrypt(key, xnonce_part(data), plaintext)
    &&& xchacha_open(key, data) == Some(plaintext)
}

/// Seals `plaintext` with XChaCha20-Poly1305 under the key in `key` and a
/// fresh random 192-bit nonce, which is appended.
pub fn encrypt(plaintext: &[u8], key: &HashResult) -> (r: Result<EncryptionResult, EncryptionError>)
    ensures
        r is Ok <==> plaintext@.len() / 64 < 0xFFFF_FFFF,
        r matches Ok(e) ==> xchacha_sealed(key.hash(), plaintext@, e@),
        r matches Err(e) ==> e@ == "Failed AES, invalid key"@,
{
    proof {
        key.lemma_lengths();
    }
    let nonce = generate_nonce_192();
    let mut ciphertext = match xchacha20poly1305_encrypt(key.get_hash(), &nonce, plaintext) {
        Ok(c) => c,
        Err(_) => return Err(EncryptionError::new("Failed AES, invalid key")),
    };
    let ghost sealed = ciphertext@;
    ciphertext.extend_from_slice(&nonce);
    proof {
        assert(xnonce_part(ciphertext@) =~= nonce@);
        assert(xsealed_part(ciphertext@) =~= sealed);
    }
    EncryptionResult::new(ciphertext)
}

/// Opens data sealed by `encrypt` with the key in `key`.
pub fn decrypt(ciphertext: &[u8], key: &HashResult) -> (r: Result<EncryptionResult, EncryptionError>)
    requires
        ciphertext@.len() >= XNONCE_LEN,
    ensures
        r is Ok <==> xchacha_open(key.hash(), ciphertext@) is Some,
        r matches Ok(p) ==> xchacha_open(key.hash(), ciphertext@) == Some(p@),
        r matches Err(e) ==> e@ == "Failed AES, invalid key"@,
{
    proof {
        key.lemma_lengths();
    }
    let len = ciphertext.len();
    let nonce = slice_range(ciphertext, len - XNONCE_LEN, len);
    let body = slice_range(ciphertext, 0, len - XNONCE_LEN);
    let plaintext = match xchacha20poly1305_decrypt(key.get_hash(), nonce, body) {
        Ok(p) => p,
        Err(_) => return Err(EncryptionError::new("Failed AES, invalid key")),
    };
    EncryptionResult::new(plaintext)
}

} // verus!
