use vstd::prelude::*;

use crate::hash::HashError;

verus! {

/// Name for the SHA-256 digest of the data.
pub uninterp spec fn spec_sha256(data: Seq<u8>) -> Seq<u8>;

/// Name for the SHA-512 digest of the data.
pub uninterp spec fn spec_sha512(data: Seq<u8>) -> Seq<u8>;

/// `sha2::Sha256::new`, `update(data)`, `finalize`: the contract claims only
/// that the 32-byte digest is the named function of the data.
#[verifier::external_body]
fn sha256_digest(data: &[u8]) -> (out: [u8; 32])
    ensures
        out@ == spec_sha256(data@),
{
    let mut out = [0u8; 32];
    out.copy_from_slice(&<sha2::Sha256 as sha2::Digest>::digest(data));
    out
}

/// `sha2::Sha512::new`, `update(data)`, `finalize`: the contract claims only
/// that the 64-byte digest is the named function of the data.
#[verifier::external_body]
fn sha512_digest(data: &[u8]) -> (out: [u8; 64])
    ensures
        out@ == spec_sha512(data@),
{
    let mut out = [0u8; 64];
    out.copy_from_slice(&<sha2::Sha512 as sha2::Digest>::digest(data));
    out
}

/// Copies `src` into `dst`, which has the same length.
fn copy_into(dst: &mut [u8], src: &[u8])
    requires
        old(dst)@.len() == src@.len(),
    ensures
        final(dst)@ == src@,
{
    let mut i: usize = 0;
    while i < src.len()
        invariant
            dst@.len() == src@.len(),
            i <= src@.len(),
            forall|j: int| 0 <= j < i ==> dst@[j] == src@[j],
        decreases src@.len() - i,
    {
        dst[i] = src[i];
        i = i + 1;
    }
    assert(dst@ =~= src@);
}

/// Writes the SHA-256 digest of `data` into `output`, which must be 32 bytes.
pub fn sha256_hash(data: &[u8], output: &mut [u8]) -> (r: Result<(), HashError>)
    ensures
        r is Ok <==> old(output)@.len() == 32,
        r is Ok ==> final(output)@ == spec_sha256(data@),
        r matches Err(e) ==> e@ == "invalid output length"@ && final(output)@ == old(output)@,
{
    if output.len() != 32 {
        return Err(HashError::new("invalid output length"));
    }
    let digest = sha256_digest(data);
    copy_into(output, &digest);
    Ok(())
}

/// Writes the SHA-512 digest of `data` into `output`, which must be 64 bytes.
pub fn sha512_hash(data: &[u8], output: &mut [u8]) -> (r: Result<(), HashError>)
    ensures
        r is Ok <==> old(output)@.len() == 64,
        r is Ok ==> final(output)@ == spec_sha512(data@),
        r matches Err(e) ==> e@ == "invalid output length"@ && final(output)@ == old(output)@,
{
    if output.len() != 64 {
        return Err(HashError::new("invalid output length"));
    }
    let digest = sha512_digest(data);
    copy_into(output, &digest);
    Ok(())
}

} // verus!
