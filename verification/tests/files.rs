use pwm::cli::crypt_file as cli_crypt;
use pwm::crypt_file::{decrypt_file, encrypt_file, CryptFileError};
use pwm::salt::{SaltError, SaltResult};
use pwm::standalone::aes_wrapper::{aes_gcm_decrypt, aes_gcm_encrypt, random_key};
use pwm::standalone::argon2_wrapper::argon2_hash_password;

#[test]
fn crypt_file_round_trip() {
    let contents = b"some file contents\n";
    let sealed = encrypt_file(contents, b"hunter42").unwrap();
    // sealed message with its tag, nonce, then salt
    assert_eq!(sealed.len(), contents.len() + 16 + 12 + 32);
    assert_ne!(&sealed[..contents.len()], &contents[..]);
    let opened = decrypt_file(sealed.clone(), b"hunter42").unwrap();
    assert_eq!(opened, contents.to_vec());
    match decrypt_file(sealed, b"wrong") {
        Err(CryptFileError::Other(msg)) => assert_eq!(msg, "Failed AES, invalid key"),
        _ => panic!("expected a refusal"),
    }
}

#[test]
fn cli_crypt_file_refuses_short_data() {
    match cli_crypt::decrypt_file(vec![0u8; 20], b"pw") {
        Err(CryptFileError::InvalidData(msg)) => assert_eq!(msg, "Data is likely not encrypted"),
        _ => panic!("expected invalid data"),
    }
    let sealed = cli_crypt::encrypt_file(b"abc", b"pw").unwrap();
    assert_eq!(cli_crypt::decrypt_file(sealed, b"pw").unwrap(), b"abc".to_vec());
}

#[test]
fn standalone_raw_key_round_trip() {
    let key = random_key();
    let sealed = aes_gcm_encrypt(&key, b"hello world").unwrap();
    assert_eq!(sealed.len(), 11 + 16 + 12);
    assert_eq!(aes_gcm_decrypt(&key, &sealed).unwrap(), b"hello world".to_vec());
    let other = random_key();
    assert!(aes_gcm_decrypt(&other, &sealed).is_err());
}

#[test]
fn standalone_argon2_keeps_salt() {
    let a = argon2_hash_password(b"password123").unwrap();
    assert_eq!(a.get_salt().len(), 32);
    assert_ne!(a.get_hash(), &[0u8; 32][..]);
    let fresh = SaltResult::new();
    assert_eq!(fresh.get_hash(), &[0u8; 32][..]);
    assert_eq!(SaltError::new("bad".to_string()).to_string(), "bad");
}
