use vstd::prelude::*;

use crate::hash::{HashError, HashResult};

verus! {

/// Memory cost in KiB of the vault's Argon2id settings (the crate's default).
pub const ARGON2_M_COST: u32 = 19 * 1024;

/// Iterations of the vault's Argon2id settings.
pub const ARGON2_T_COST: u32 = 4;

/// Lanes of the vault's Argon2id settings.
pub const ARGON2_P_COST: u32 = 4;

#[verifier::external_type_specification]
#[verifier::external_body]
pub struct ExArgon2Error(argon2::Error);

/// Name for the 32-byte Argon2id (version 0x13) output over the given costs,
/// password and salt, with no secret and no associated data.
pub uninterp spec fn spec_argon2id(m_cost: u32, t_cost: u32, p_cost: u32, password: Seq<u8>, salt: Seq<u8>) -> Seq<u8>;

/// Whether `argon2` accepts the costs, password and salt: `Params::new`
/// checks the costs, `hash_password_into` the lengths.
pub open spec fn argon2_accepts(m_cost: u32, t_cost: u32, p_cost: u32, password_len: nat, salt_len: nat) -> bool {
    &&& 8 <= m_cost
    &&& 8 * p_cost <= m_cost
    &&& 1 <= t_cost
    &&& 1 <= p_cost <= 0xFF_FFFF
    &&& password_len <= 0xFFFF_FFFF
    &&& 8 <= salt_len <= 0xFFFF_FFFF
}

/// `argon2::Argon2::new(Argon2id, V0x13, Params::new(m, t, p, None)?)`
/// followed by `hash_password_into` a 32-byte buffer. The contract claims the
/// call fails exactly when the crate's parameter and length checks refuse,
/// and that the output is the named function of its inputs.
#[verifier::external_body]
pub(crate) fn argon2id_hash(m_cost: u32, t_cost: u32, p_cost: u32, password: &[u8], salt: &[u8]) -> (out: Result<[u8; 32], argon2::Error>)
    requires
        p_cost <= 0x1FFF_FFFF,
    ensures
        out is Ok <==> argon2_accepts(m_cost, t_cost, p_cost, password@.len(), salt@.len()),
        out matches Ok(h) ==> h@ == spec_argon2id(m_cost, t_cost, p_cost, password@, salt@),
{
    let params = argon2::Params::new(m_cost, t_cost, p_cost, None)?;
    let hasher = argon2::Argon2::new(argon2::Algorithm::Argon2id, argon2::Version::V0x13, params);
    let mut out = [0u8; 32];
    hasher.hash_password_into(password, salt, &mut out)?;
    Ok(out)
}

/// `<argon2::Error as Display>::to_string`: the crate's message for the error.
/// Nothing is claimed of the text.
#[verifier::external_body]
pub(crate) fn argon2_error_message(error: &argon2::Error) -> String {
    error.to_string()
}

/// The key the vault derives with Argon2id for a password under a salt.
pub open spec fn spec_argon2_default(password: Seq<u8>, salt: Seq<u8>) -> Seq<u8> {
    spec_argon2id(ARGON2_M_COST, ARGON2_T_COST, ARGON2_P_COST, password, salt)
}

/// Derives the Argon2id key for `password` under the salt already in
/// `result`. Fails only for a password longer than 2^32 - 1 bytes.
pub fn argon2_hash_password_into(password: &[u8], result: &mut HashResult) -> (r: Result<(), HashError>)
    ensures
        r is Ok <==> password@.len() <= 0xFFFF_FFFF,
        final(result).salt() == old(result).salt(),
        r is Ok ==> final(result).hash() == spec_argon2_default(password@, old(result).salt()),
        r is Err ==> final(result).hash() == old(result).hash(),
{
    proof {
        result.lemma_lengths();
    }
    let salt = result.salt_array();
    match argon2id_hash(ARGON2_M_COST, ARGON2_T_COST, ARGON2_P_COST, password, &salt) {
        Ok(hash) => {
            result.set_hash(hash);
            Ok(())
        },
        Err(error) => {
            let msg = argon2_error_message(&error);
            Err(HashError::from_message(msg))
        },
    }
}

/// Derives the Argon2id key for `password` under a fresh random salt.
pub fn argon2_hash_password(password: &[u8]) -> (r: Result<HashResult, HashError>)
    ensures
        r is Ok <==> password@.len() <= 0xFFFF_FFFF,
        r matches Ok(h) ==> h.salt().len() == 32 && h.hash() == spec_argon2_default(password@, h.salt()),
{
    let mut result = HashResult::new();
    argon2_hash_password_into(password, &mut result)?;
    Ok(result)
}

/// Derives the Argon2id key for `password` under `salt`, which must be 32 bytes.
pub fn argon2_hash_password_with_salt(password: &[u8], salt: &[u8]) -> (r: Result<HashResult, HashError>)
    ensures
        r is Ok <==> (salt@.len() == 32 && password@.len() <= 0xFFFF_FFFF),
        r matches Ok(h) ==> h.salt() == salt@ && h.hash() == spec_argon2_default(password@, salt@),
        salt@.len() != 32 ==> (r matches Err(e) && e@ == "Invalid salt length, expected 32"@),
{
    let mut result = HashResult::new_with_salt(salt)?;
    argon2_hash_password_into(password, &mut result)?;
    Ok(result)
}

} // verus!
