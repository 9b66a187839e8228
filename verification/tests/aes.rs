use pwm::aes_wrapper::{aes_gcm_decrypt, aes_gcm_encrypt};
use pwm::encryption::aes_wrapper::aes_gcm_siv::{aes_gcm_siv_decrypt, aes_gcm_siv_encrypt};
use pwm::encryption::aes_wrapper::aes_gcm;
use pwm::encryption::aes_wrapper::{aes_decrypt, aes_encrypt};
use pwm::encryption::default::{decrypt, encrypt};
use pwm::hash::pbkdf2_wrapper::pbkdf2_hash_password;

#[test]
fn aes_wrapper_test_aes256_for_crash() {
    let password = b"hunter42";
    let plaintext = b"hello world";

    let hash = pbkdf2_hash_password(password).unwrap();

    let ciphertext = aes_gcm_encrypt(&hash, plaintext).unwrap();

    let plaintext_result = aes_gcm_decrypt(hash.get_hash(), &ciphertext).unwrap();

    let matching = plaintext
        .iter()
        .zip(plaintext_result.as_ref())
        .filter(|&(a, b)| a == b)
        .count();

    assert!(matching == plaintext.len())
}

#[test]
fn test_default_encryption() {
    let password = b"hunter42";
    let plaintext = b"hello world121234131";

    let hash = pbkdf2_hash_password(password).unwrap();

    let ciphertext = encrypt(plaintext, &hash).unwrap();

    let plaintext_result = decrypt(&ciphertext, &hash).unwrap();

    let matching = plaintext
        .iter()
        .zip(plaintext_result.as_ref())
        .filter(|&(a, b)| a == b)
        .count();

    assert!(matching == plaintext.len())
}

#[test]
fn encryption_aes_wrapper_round_trip() {
    let password = b"reallysimplepassword";
    let plaintext = b"poggers";

    let hash = pbkdf2_hash_password(password).unwrap();

    let ciphertext = aes_encrypt(plaintext, &hash).unwrap();

    let plaintext_result = aes_decrypt(&ciphertext, &hash).unwrap();

    assert_eq!(plaintext_result.as_slice(), plaintext);
    // sealed message, 16-byte tag, 12-byte nonce, then the 32-byte salt
    assert_eq!(ciphertext.as_slice().len(), plaintext.len() + 16 + 12 + 32);
    assert_eq!(ciphertext.get_salt_slice(), hash.get_salt());
}

#[test]
fn aes_gcm_siv_test_aes256_for_crash() {
    let password = b"hunter42";
    let plaintext = b"hello world";

    let hash = pbkdf2_hash_password(password).unwrap();

    let ciphertext = aes_gcm_siv_encrypt(plaintext, &hash).unwrap();

    let plaintext_result = aes_gcm_siv_decrypt(&ciphertext, &hash).unwrap();

    let matching = plaintext
        .iter()
        .zip(plaintext_result.as_ref())
        .filter(|&(a, b)| a == b)
        .count();

    assert!(matching == plaintext.len())
}

#[test]
fn aes_gcm_test_aes256_for_crash() {
    let password = b"hunter42";
    let plaintext = b"hello world";

    let hash = pbkdf2_hash_password(password).unwrap();

    let ciphertext = aes_gcm::aes_gcm_encrypt(plaintext, &hash).unwrap();

    let plaintext_result = aes_gcm::aes_gcm_decrypt(&ciphertext, &hash).unwrap();

    let matching = plaintext
        .iter()
        .zip(plaintext_result.as_ref())
        .filter(|&(a, b)| a == b)
        .count();

    assert!(matching == plaintext.len())
}
