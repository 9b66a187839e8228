use vstd::prelude::*;
use vstd::arithmetic::power2::pow2;

use crate::hash::{HashError, HashResult};

verus! {

/// scrypt's recommended log2 of the cost parameter N.
pub const SCRYPT_LOG_N: u8 = 17;

/// scrypt's recommended block size r.
pub const SCRYPT_R: u32 = 8;

/// scrypt's recommended parallelism p.
pub const SCRYPT_P: u32 = 1;

/// Name for the 32-byte scrypt output over the given parameters, password and salt.
pub uninterp spec fn spec_scrypt(log_n: u8, r: u32, p: u32, password: Seq<u8>, salt: Seq<u8>) -> Seq<u8>;

/// Parameters that `scrypt::Params::new` accepts on every target: all its
/// checks pass, with N * r * 128 and p * r * 128 within a 32-bit `usize`.
pub open spec fn scrypt_params_fit(log_n: u8, r: u32, p: u32) -> bool {
    &&& 0 < r
    &&& 0 < p
    &&& log_n < 32
    &&& pow2(log_n as nat) * r * 128 <= 0xFFFF_FFFF
    &&& p * r * 128 <= 0xFFFF_FFFF
    &&& r * p < 0x4000_0000
}

/// `scrypt::Params::new(log_n, r, p)` followed by `scrypt::scrypt` into a
/// 32-byte buffer; an error is carried as the crate's message. The contract
/// claims success for parameters that pass every check of `Params::new`
/// (the 32-byte output always passes `scrypt`'s own length check), failure
/// whenever one of its target-independent checks refuses, and that the output
/// is the named function of its inputs. On other parameters (those that
/// overflow a 32-bit `usize` only) nothing is claimed of success. `r * p`
/// must fit a `u32`, as `Params::new` multiplies them unchecked.
#[verifier::external_body]
pub(crate) fn scrypt_hash(log_n: u8, r: u32, p: u32, password: &[u8], salt: &[u8]) -> (out: Result<[u8; 32], String>)
    requires
        r * p <= 0xFFFF_FFFF,
    ensures
        scrypt_params_fit(log_n, r, p) ==> out is Ok,
        out is Ok ==> 0 < r && 0 < p && r * p < 0x4000_0000,
        out matches Ok(h) ==> h@ == spec_scrypt(log_n, r, p, password@, salt@),
{
    let params = match scrypt::Params::new(log_n, r, p) {
        Ok(params) => params,
        Err(error) => return Err(error.to_string()),
    };
    let mut out = [0u8; 32];
    match scrypt::scrypt(password, salt, &params, &mut out) {
        Ok(()) => Ok(out),
        Err(error) => Err(error.to_string()),
    }
}

/// The key the vault derives with scrypt for a password under a salt.
pub open spec fn spec_scrypt_default(password: Seq<u8>, salt: Seq<u8>) -> Seq<u8> {
    spec_scrypt(SCRYPT_LOG_N, SCRYPT_R, SCRYPT_P, password, salt)
}

/// Derives the scrypt key for `password` under the salt already in `result`.
/// With the recommended parameters this never fails.
pub fn scrypt_hash_password_into(password: &[u8], result: &mut HashResult) -> (r: Result<(), HashError>)
    ensures
        r is Ok,
        final(result).salt() == old(result).salt(),
        final(result).hash() == spec_scrypt_default(password@, old(result).salt()),
{
    proof {
        vstd::arithmetic::power2::lemma2_to64();
    }
    let salt = result.salt_array();
    match scrypt_hash(SCRYPT_LOG_N, SCRYPT_R, SCRYPT_P, password, &salt) {
        Ok(hash) => {
            result.set_hash(hash);
            Ok(())
        },
        Err(msg) => Err(HashError::from_message(msg)),
    }
}

/// Derives the scrypt key for `password` under a fresh random salt.
pub fn scrypt_hash_password(password: &[u8]) -> (r: Result<HashResult, HashError>)
    ensures
        r matches Ok(h) && h.salt().len() == 32 && h.hash() == spec_scrypt_default(password@, h.salt()),
{
    let mut result = HashResult::new();
    scrypt_hash_password_into(password, &mut result)?;
    Ok(result)
}

/// Derives the scrypt key for `password` under `salt`, which must be 32 bytes.
pub fn scrypt_hash_password_with_salt(password: &[u8], salt: &[u8]) -> (r: Result<HashResult, HashError>)
    ensures
        r is Ok <==> salt@.len() == 32,
        r matches Ok(h) ==> h.salt() == salt@ && h.hash() == spec_scrypt_default(password@, salt@),
        r matches Err(e) ==> e@ == "Invalid salt length, expected 32"@,
{
    let mut result = HashResult::new_with_salt(salt)?;
    scrypt_hash_password_into(password, &mut result)?;
    Ok(result)
}

} // verus!
