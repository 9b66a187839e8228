//! Argon2id keys kept with their salt.

use vstd::prelude::*;

use crate::hash::argon2_wrapper::{
    argon2_error_message, argon2id_hash, spec_argon2_default, ARGON2_M_COST, ARGON2_P_COST, ARGON2_T_COST,
};
use crate::salt::{SaltError, SaltResult};

verus! {

/// Derives the Argon2id key for `password` under a fresh random salt, with
/// the vault's settings.
pub fn argon2_hash_password(password: &[u8]) -> (r: Result<SaltResult, SaltError>)
    ensures
        r is Ok <==> password@.len() <= 0xFFFF_FFFF,
        r matches Ok(s) ==> s.hash@ == spec_argon2_default(password@, s.salt@),
{
    let mut result = SaltResult::new();
    match argon2id_hash(ARGON2_M_COST, ARGON2_T_COST, ARGON2_P_COST, password, result.get_salt()) {
        Ok(hash) => {
            result.hash = hash;
            Ok(result)
        },
        Err(error) => Err(SaltError::new(argon2_error_message(&error))),
    }
}

} // verus!
