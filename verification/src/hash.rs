use vstd::prelude::*;

use crate::encryption::zeroize_array;

pub mod argon2_wrapper;
pub mod pbkdf2_wrapper;
pub mod scrypt_wrapper;
pub mod sha_wrapper;

verus! {

/// Number of PBKDF2-HMAC-SHA512 rounds used for password hashes and for the pepper.
pub const PBKDF2_DEFAULT_N: u32 = 210_000;

/// The secret pepper mixed into every PBKDF2 password hash. It is fixed per
/// build: vaults written by one build can only be opened by a build that
/// carries the same bytes.
pub const PEPPER: [u8; 32] = [
    189, 249, 229, 205, 220, 152, 230, 131, 112, 69, 35, 167, 109, 1, 208, 157,
    74, 95, 75, 141, 151, 20, 31, 213, 80, 225, 150, 86, 146, 41, 89, 219,
];

/// Length in bytes of every salt and every derived key.
pub const HASH_LEN: usize = 32;

/// Name for the first 32 bytes of PBKDF2-HMAC-SHA512 over the given password,
/// salt and round count.
pub uninterp spec fn spec_pbkdf2_hmac_sha512(password: Seq<u8>, salt: Seq<u8>, rounds: u32) -> Seq<u8>;

/// `pbkdf2::pbkdf2_hmac::<sha2::Sha512>` into a 32-byte buffer. The contract
/// claims only that the output is the named function of password, salt and
/// round count; the crate accepts every key length, so the call never fails.
#[verifier::external_body]
pub(crate) fn pbkdf2_hmac_sha512(password: &[u8], salt: &[u8], rounds: u32) -> (out: [u8; 32])
    ensures
        out@ == spec_pbkdf2_hmac_sha512(password@, salt@, rounds),
{
    let mut out = [0u8; 32];
    pbkdf2::pbkdf2_hmac::<sha2::Sha512>(password, salt, rounds, &mut out);
    out
}

/// The peppered form of a derived key: PBKDF2 with the key as password and
/// the pepper as salt.
pub open spec fn spec_pepper(hash: Seq<u8>) -> Seq<u8> {
    spec_pbkdf2_hmac_sha512(hash, PEPPER@, PBKDF2_DEFAULT_N)
}

/// Replaces a derived key by its peppered form.
pub(crate) fn pepper_hash(hash: &mut [u8; 32])
    ensures
        final(hash)@ == spec_pepper(old(hash)@),
{
    let old: [u8; 32] = *hash;
    let pepper: [u8; 32] = PEPPER;
    *hash = pbkdf2_hmac_sha512(&old, &pepper, PBKDF2_DEFAULT_N);
}

/// The key kept for a password under a salt: PBKDF2 over the password and
/// salt, then peppered.
pub open spec fn spec_peppered_pbkdf2(password: Seq<u8>, salt: Seq<u8>) -> Seq<u8> {
    spec_pepper(spec_pbkdf2_hmac_sha512(password, salt, PBKDF2_DEFAULT_N))
}

/// `aead::OsRng::fill_bytes`: overwrites `data` with bytes from the operating
/// system's random source. Only the length is stated; the bytes are chance.
/// The crate panics if the operating system cannot supply random bytes.
#[verifier::external_body]
pub fn randomize_slice(data: &mut [u8])
    ensures
        final(data)@.len() == old(data)@.len(),
{
    aead::rand_core::RngCore::fill_bytes(&mut aead::OsRng, data);
}

/// A salt together with the key derived under it.
pub struct HashResult {
    salt: [u8; 32],
    hash: [u8; 32],
}

impl Drop for HashResult {
    /// Wipes the salt and the key before the memory is given back.
    fn drop(&mut self)
        opens_invariants none
        no_unwind
    {
        zeroize_array(&mut self.salt);
        zeroize_array(&mut self.hash);
    }
}

impl HashResult {
    /// The salt bytes.
    pub closed spec fn salt(&self) -> Seq<u8> {
        self.salt@
    }

    /// The derived key bytes.
    pub closed spec fn hash(&self) -> Seq<u8> {
        self.hash@
    }

    pub proof fn lemma_lengths(&self)
        ensures
            self.salt().len() == 32,
            self.hash().len() == 32,
    {
    }

    /// A fresh random salt with an all-zero key.
    pub fn new() -> (result: HashResult)
        ensures
            result.salt().len() == 32,
            result.hash() == Seq::new(32, |_i: int| 0u8),
    {
        let mut result = HashResult { salt: [0u8; 32], hash: [0u8; 32] };
        randomize_slice(&mut result.salt);
        assert(result.hash@ =~= Seq::new(32, |_i: int| 0u8));
        result
    }

    /// Takes the given salt, which must be 32 bytes, with an all-zero key.
    pub fn new_with_salt(salt: &[u8]) -> (result: Result<HashResult, HashError>)
        ensures
            salt@.len() != 32 <==> result is Err,
            result matches Ok(r) ==> r.salt() == salt@ && r.hash() == Seq::new(32, |_i: int| 0u8),
            result matches Err(e) ==> e@ == "Invalid salt length, expected 32"@,
    {
        if salt.len() != 32 {
            return Err(HashError::new("Invalid salt length, expected 32"));
        }
        let mut result = HashResult { salt: [0u8; 32], hash: [0u8; 32] };
        copy_32(&mut result.salt, salt);
        assert(result.hash@ =~= Seq::new(32, |_i: int| 0u8));
        Ok(result)
    }

    /// Takes the given salt and key, each of which must be 32 bytes.
    pub fn new_with_salt_and_hash(salt: &[u8], hash: &[u8]) -> (result: Result<HashResult, HashError>)
        ensures
            (salt@.len() == 32 && hash@.len() == 32) <==> result is Ok,
            result matches Ok(r) ==> r.salt() == salt@ && r.hash() == hash@,
            salt@.len() != 32 ==> (result matches Err(e) && e@ == "Invalid salt length, expected 32"@),
            salt@.len() == 32 && hash@.len() != 32 ==> (result matches Err(e) && e@
                == "Invalid hash length, expected 32"@),
    {
        if salt.len() != 32 {
            return Err(HashError::new("Invalid salt length, expected 32"));
        }
        if hash.len() != 32 {
            return Err(HashError::new("Invalid hash length, expected 32"));
        }
        let mut result = HashResult { salt: [0u8; 32], hash: [0u8; 32] };
        copy_32(&mut result.salt, salt);
        copy_32(&mut result.hash, hash);
        Ok(result)
    }

    pub fn get_salt(&self) -> (salt: &[u8])
        ensures
            salt@ == self.salt(),
    {
        &self.salt
    }

    pub fn get_hash(&self) -> (hash: &[u8])
        ensures
            hash@ == self.hash(),
    {
        &self.hash
    }

    /// Replaces the key by `hash`, keeping the salt.
    pub(crate) fn set_hash(&mut self, hash: [u8; 32])
        ensures
            final(self).salt() == old(self).salt(),
            final(self).hash() == hash@,
    {
        self.hash = hash;
    }

    /// The salt as an owned array.
    pub(crate) fn salt_array(&self) -> (salt: [u8; 32])
        ensures
            salt@ == self.salt(),
    {
        self.salt
    }
}

/// Copies 32 bytes of `src` into `dst`.
fn copy_32(dst: &mut [u8; 32], src: &[u8])
    requires
        src@.len() == 32,
    ensures
        final(dst)@ == src@,
{
    let mut i: usize = 0;
    while i < 32
        invariant
            src@.len() == 32,
            i <= 32,
            forall|j: int| 0 <= j < i ==> dst@[j] == src@[j],
        decreases 32 - i,
    {
        dst[i] = src[i];
        i = i + 1;
    }
    assert(dst@ =~= src@);
}

/// An error raised while deriving a key.
#[derive(Debug)]
pub struct HashError {
    error: String,
}

impl View for HashError {
    type V = Seq<char>;

    closed spec fn view(&self) -> Seq<char> {
        self.error@
    }
}

impl HashError {
    pub fn new(msg: &str) -> (e: Self)
        ensures
            e@ == msg@,
    {
        Self { error: msg.to_owned() }
    }

    /// An error carrying an owned message.
    pub fn from_message(msg: String) -> (e: Self)
        ensures
            e@ == msg@,
    {
        Self { error: msg }
    }

    /// The message carried by the error.
    pub fn to_string(&self) -> (s: String)
        ensures
            s@ == self@,
    {
        self.error.clone()
    }
}

/// True if the same.
pub fn compare_hash(a: &[u8], b: &[u8]) -> (same: bool)
    ensures
        same == (a@ == b@),
{
    if a.len() != b.len() {
        return false;
    }
    let mut i: usize = 0;
    while i < a.len()
        invariant
            a@.len() == b@.len(),
            i <= a@.len(),
            forall|j: int| 0 <= j < i ==> a@[j] == b@[j],
        decreases a@.len() - i,
    {
        if a[i] != b[i] {
            return false;
        }
        i = i + 1;
    }
    assert(a@ =~= b@);
    true
}

} // verus!
