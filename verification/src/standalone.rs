//! The standalone tools: AES-256-GCM under a raw 32-byte key, and Argon2id
//! and scrypt keys kept with their salt.

pub mod aes_wrapper;
pub mod argon2_wrapper;
pub mod scrypt_wrapper;
