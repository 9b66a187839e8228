//! The authenticated ciphers that entries and vault files are sealed with.

use vstd::prelude::*;

verus! {

#[verifier::external_type_specification]
#[verifier::external_body]
pub struct ExAeadError(aead::Error);

/// Largest plaintext, in bytes, that AES-256-GCM and AES-256-GCM-SIV accept.
pub const AES_P_MAX: u64 = 0x10_0000_0000;

/// Length of the authentication tag that every cipher here appends.
pub const TAG_LEN: usize = 16;

/// Name for the AES-256-GCM sealing (ciphertext followed by tag) of the
/// plaintext under the key and 12-byte nonce, with no associated data.
pub uninterp spec fn spec_aes256gcm_encrypt(key: Seq<u8>, nonce: Seq<u8>, plaintext: Seq<u8>) -> Seq<u8>;

/// Name for AES-256-GCM opening: the plaintext when the tag checks, else `None`.
pub uninterp spec fn spec_aes256gcm_decrypt(key: Seq<u8>, nonce: Seq<u8>, ciphertext: Seq<u8>) -> Option<Seq<u8>>;

/// Name for the AES-256-GCM-SIV sealing of the plaintext under the key and nonce.
pub uninterp spec fn spec_aes256gcmsiv_encrypt(key: Seq<u8>, nonce: Seq<u8>, plaintext: Seq<u8>) -> Seq<u8>;

/// Name for AES-256-GCM-SIV opening.
pub uninterp spec fn spec_aes256gcmsiv_decrypt(key: Seq<u8>, nonce: Seq<u8>, ciphertext: Seq<u8>) -> Option<Seq<u8>>;

/// Name for the XChaCha20-Poly1305 sealing of the plaintext under the key and
/// 24-byte nonce.
pub uninterp spec fn spec_xchacha20poly1305_encrypt(key: Seq<u8>, nonce: Seq<u8>, plaintext: Seq<u8>) -> Seq<u8>;

/// Name for XChaCha20-Poly1305 opening.
pub uninterp spec fn spec_xchacha20poly1305_decrypt(key: Seq<u8>, nonce: Seq<u8>, ciphertext: Seq<u8>) -> Option<Seq<u8>>;

/// `aead::AeadCore::generate_nonce` with `aead::OsRng` for a 96-bit nonce
/// (the `Aes256Gcm` instance; GCM-SIV draws the same way). The bytes are
/// chance; only their number is claimed, by the type.
#[verifier::external_body]
pub(crate) fn generate_nonce_96() -> [u8; 12] {
    let nonce = <aes_gcm::Aes256Gcm as aead::AeadCore>::generate_nonce(&mut aead::OsRng);
    nonce.into()
}

/// `aead::AeadCore::generate_nonce` with `aead::OsRng` for the 192-bit
/// XChaCha20-Poly1305 nonce. The bytes are chance.
#[verifier::external_body]
pub(crate) fn generate_nonce_192() -> [u8; 24] {
    let nonce = <chacha20poly1305::XChaCha20Poly1305 as aead::AeadCore>::generate_nonce(&mut aead::OsRng);
    nonce.into()
}

/// `Aes256Gcm::new(key).encrypt(nonce, plaintext)`. The contract claims: the
/// crate refuses exactly plaintexts longer than 2^36 bytes; the output is the
/// named sealing, 16 bytes longer than the plaintext; and opening it under the
/// same key and nonce gives the plaintext back, as for any AEAD.
#[verifier::external_body]
pub(crate) fn aes256gcm_encrypt(key: &[u8], nonce: &[u8; 12], plaintext: &[u8]) -> (out: Result<Vec<u8>, aead::Error>)
    requires
        key@.len() == 32,
    ensures
        out is Ok <==> plaintext@.len() <= AES_P_MAX,
        out matches Ok(c) ==> {
            &&& c@ == spec_aes256gcm_encrypt(key@, nonce@, plaintext@)
            &&& c@.len() == plaintext@.len() + TAG_LEN
            &&& spec_aes256gcm_decrypt(key@, nonce@, c@) == Some(plaintext@)
        },
{
    let cipher = <aes_gcm::Aes256Gcm as aead::KeyInit>::new(aes_gcm::Key::<aes_gcm::Aes256Gcm>::from_slice(key));
    aead::Aead::encrypt(&cipher, aes_gcm::Nonce::from_slice(nonce), plaintext)
}

/// `Aes256Gcm::new(key).decrypt(nonce, ciphertext)`. The contract claims the
/// call succeeds exactly when the named opening does, with its plaintext.
#[verifier::external_body]
pub(crate) fn aes256gcm_decrypt(key: &[u8], nonce: &[u8], ciphertext: &[u8]) -> (out: Result<Vec<u8>, aead::Error>)
    requires
        key@.len() == 32,
        nonce@.len() == 12,
    ensures
        out is Ok <==> spec_aes256gcm_decrypt(key@, nonce@, ciphertext@) is Some,
        out matches Ok(p) ==> spec_aes256gcm_decrypt(key@, nonce@, ciphertext@) == Some(p@),
{
    let cipher = <aes_gcm::Aes256Gcm as aead::KeyInit>::new(aes_gcm::Key::<aes_gcm::Aes256Gcm>::from_slice(key));
    aead::Aead::decrypt(&cipher, aes_gcm::Nonce::from_slice(nonce), ciphertext)
}

/// `Aes256GcmSiv::new(key).encrypt(nonce, plaintext)`; the contract claims
/// what `aes256gcm_encrypt` claims, for GCM-SIV.
#[verifier::external_body]
pub(crate) fn aes256gcmsiv_encrypt(key: &[u8], nonce: &[u8; 12], plaintext: &[u8]) -> (out: Result<Vec<u8>, aead::Error>)
    requires
        key@.len() == 32,
    ensures
        out is Ok <==> plaintext@.len() <= AES_P_MAX,
        out matches Ok(c) ==> {
            &&& c@ == spec_aes256gcmsiv_encrypt(key@, nonce@, plaintext@)
            &&& c@.len() == plaintext@.len() + TAG_LEN
            &&& spec_aes256gcmsiv_decrypt(key@, nonce@, c@) == Some(plaintext@)
        },
{
    let cipher = <aes_gcm_siv::Aes256GcmSiv as aead::KeyInit>::new(aes_gcm_siv::Key::<aes_gcm_siv::Aes256GcmSiv>::from_slice(key));
    aead::Aead::encrypt(&cipher, aes_gcm_siv::Nonce::from_slice(nonce), plaintext)
}

/// `Aes256GcmSiv::new(key).decrypt(nonce, ciphertext)`; succeeds exactly when
/// the named opening does, with its plaintext.
#[verifier::external_body]
pub(crate) fn aes256gcmsiv_decrypt(key: &[u8], nonce: &[u8], ciphertext: &[u8]) -> (out: Result<Vec<u8>, aead::Error>)
    requires
        key@.len() == 32,
        nonce@.len() == 12,
    ensures
        out is Ok <==> spec_aes256gcmsiv_decrypt(key@, nonce@, ciphertext@) is Some,
        out matches Ok(p) ==> spec_aes256gcmsiv_decrypt(key@, nonce@, ciphertext@) == Some(p@),
{
    let cipher = <aes_gcm_siv::Aes256GcmSiv as aead::KeyInit>::new(aes_gcm_siv::Key::<aes_gcm_siv::Aes256GcmSiv>::from_slice(key));
    aead::Aead::decrypt(&cipher, aes_gcm_siv::Nonce::from_slice(nonce), ciphertext)
}

/// `XChaCha20Poly1305::new(key).encrypt(nonce, plaintext)`. The contract
/// claims: the crate refuses exactly plaintexts of 64 * (2^32 - 1) bytes or
/// more; the output is the named sealing, 16 bytes longer than the plaintext;
/// opening it under the same key and nonce gives the plaintext back.
#[verifier::external_body]
pub(crate) fn xchacha20poly1305_encrypt(key: &[u8], nonce: &[u8; 24], plaintext: &[u8]) -> (out: Result<Vec<u8>, aead::Error>)
    requires
        key@.len() == 32,
    ensures
        out is Ok <==> plaintext@.len() / 64 < 0xFFFF_FFFF,
        out matches Ok(c) ==> {
            &&& c@ == spec_xchacha20poly1305_encrypt(key@, nonce@, plaintext@)
            &&& c@.len() == plaintext@.len() + TAG_LEN
            &&& spec_xchacha20poly1305_decrypt(key@, nonce@, c@) == Some(plaintext@)
        },
{
    let cipher = <chacha20poly1305::XChaCha20Poly1305 as aead::KeyInit>::new(chacha20poly1305::Key::from_slice(key));
    aead::Aead::encrypt(&cipher, chacha20poly1305::XNonce::from_slice(nonce), plaintext)
}

/// `XChaCha20Poly1305::new(key).decrypt(nonce, ciphertext)`; succeeds exactly
/// when the named opening does, with its plaintext.
#[verifier::external_body]
pub(crate) fn xchacha20poly1305_decrypt(key: &[u8], nonce: &[u8], ciphertext: &[u8]) -> (out: Result<Vec<u8>, aead::Error>)
    requires
        key@.len() == 32,
        nonce@.len() == 24,
    ensures
        out is Ok <==> spec_xchacha20poly1305_decrypt(key@, nonce@, ciphertext@) is Some,
        out matches Ok(p) ==> spec_xchacha20poly1305_decrypt(key@, nonce@, ciphertext@) == Some(p@),
{
    let cipher = <chacha20poly1305::XChaCha20Poly1305 as aead::KeyInit>::new(chacha20poly1305::Key::from_slice(key));
    aead::Aead::decrypt(&cipher, chacha20poly1305::XNonce::from_slice(nonce), ciphertext)
}

} // verus!
