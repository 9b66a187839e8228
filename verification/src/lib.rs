//! A password vault: key derivation, authenticated encryption of entries,
//! an ordered name-to-secret database with its on-disk encoding, and the
//! small pieces of command and path handling that its front ends share.

pub mod aes_wrapper;
pub mod cli;
pub mod cipher;
pub mod codec;
pub mod crypt_file;
pub mod csv_format;
pub mod db_base;
pub mod db_encrypted;
pub mod encryption;
pub mod gui;
pub mod hash;
pub mod order;
pub mod parser;
pub mod random;
pub mod salt;
pub mod standalone;
