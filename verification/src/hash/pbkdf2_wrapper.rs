use vstd::prelude::*;

use crate::hash::{
    pbkdf2_hmac_sha512, pepper_hash, spec_peppered_pbkdf2, HashError, HashResult, PBKDF2_DEFAULT_N,
};

verus! {

/// Derives the key for `password` under the salt already in `result`, then
/// peppers it. Never fails.
pub fn pbkdf2_hash_password_into(password: &[u8], result: &mut HashResult) -> (r: Result<(), HashError>)
    ensures
        r is Ok,
        final(result).salt() == old(result).salt(),
        final(result).hash() == spec_peppered_pbkdf2(password@, old(result).salt()),
{
    let salt = result.salt_array();
    let mut hash = pbkdf2_hmac_sha512(password, &salt, PBKDF2_DEFAULT_N);
    pepper_hash(&mut hash);
    result.set_hash(hash);
    Ok(())
}

/// Derives a peppered key for `password` under a fresh random salt.
pub fn pbkdf2_hash_password(password: &[u8]) -> (r: Result<HashResult, HashError>)
    ensures
        r matches Ok(h) && h.salt().len() == 32 && h.hash() == spec_peppered_pbkdf2(password@, h.salt()),
{
    let mut result = HashResult::new();
    pbkdf2_hash_password_into(password, &mut result)?;
    Ok(result)
}

/// Derives the peppered key for `password` under `salt`, which must be 32 bytes.
pub fn pbkdf2_hash_password_with_salt(password: &[u8], salt: &[u8]) -> (r: Result<HashResult, HashError>)
    ensures
        r is Ok <==> salt@.len() == 32,
        r matches Ok(h) ==> h.salt() == salt@ && h.hash() == spec_peppered_pbkdf2(password@, salt@),
        r matches Err(e) ==> e@ == "Invalid salt length, expected 32"@,
{
    let mut result = HashResult::new_with_salt(salt)?;
    pbkdf2_hash_password_into(password, &mut result)?;
    Ok(result)
}

} // verus!
