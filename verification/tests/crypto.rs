use pwm::encryption::chacha20_wrapper;
use pwm::hash::argon2_wrapper::argon2_hash_password;
use pwm::hash::pbkdf2_wrapper::pbkdf2_hash_password;
use pwm::hash::scrypt_wrapper::scrypt_hash_password;

#[test]
fn test_encrypt_decrypt() {
    let plaintext = b"hello world 123";
    let password = b"00000000000000000000000000000000";

    let hash = pbkdf2_hash_password(password).unwrap();

    let ciphertext = chacha20_wrapper::encrypt(plaintext, &hash).unwrap();
    let decrypted = chacha20_wrapper::decrypt(ciphertext.as_slice(), &hash).unwrap();

    assert_eq!(plaintext, decrypted.as_slice());
}

#[test]
fn test_argon2_for_crash() {
    let password = b"password123";
    let _ = argon2_hash_password(password).unwrap();
}

#[test]
fn pbkdf2_wrapper_test_pbkdf2_for_crash() {
    let password = b"password123";
    let _ = pbkdf2_hash_password(password).unwrap();
}

#[test]
fn scrypt_wrapper_test_pbkdf2_for_crash() {
    let password = b"password123";
    let _ = scrypt_hash_password(password).unwrap();
}
