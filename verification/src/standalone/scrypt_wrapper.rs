//! scrypt keys kept with their salt.

use vstd::prelude::*;

use crate::hash::scrypt_wrapper::{scrypt_hash, spec_scrypt_default, SCRYPT_LOG_N, SCRYPT_P, SCRYPT_R};
use crate::salt::{SaltError, SaltResult};

verus! {

/// Derives the scrypt key for `password` under a fresh random salt, with the
/// recommended parameters. Never fails.
pub fn scrypt_hash_password(password: &[u8]) -> (r: Result<SaltResult, SaltError>)
    ensures
        r matches Ok(s) && s.hash@ == spec_scrypt_default(password@, s.salt@),
{
    proof {
        vstd::arithmetic::power2::lemma2_to64();
    }
    let mut result = SaltResult::new();
    match scrypt_hash(SCRYPT_LOG_N, SCRYPT_R, SCRYPT_P, password, result.get_salt()) {
        Ok(hash) => {
            result.hash = hash;
            Ok(result)
        },
        Err(msg) => Err(SaltError::new(msg)),
    }
}

} // verus!
