//! A salt and the key derived under it, as the standalone tools use them.

use vstd::prelude::*;

use crate::encryption::zeroize_array;
use crate::hash::randomize_slice;

verus! {

/// A 32-byte salt and the 32-byte key derived under it.
pub struct SaltResult {
    pub salt: [u8; 32],
    pub hash: [u8; 32],
}

impl Drop for SaltResult {
    /// Wipes the salt and the key before the memory is given back.
    fn drop(&mut self)
        opens_invariants none
        no_unwind
    {
        zeroize_array(&mut self.salt);
        zeroize_array(&mut self.hash);
    }
}

impl SaltResult {
    /// A fresh random salt and an all-zero key.
    pub fn new() -> (r: SaltResult)
        ensures
            r.hash@ == Seq::new(32, |i: int| 0u8),
    {
        let mut result = SaltResult { salt: [0u8; 32], hash: [0u8; 32] };
        result.randomize_salt();
        assert(result.hash@ =~= Seq::new(32, |i: int| 0u8));
        result
    }

    pub fn get_salt(&self) -> (salt: &[u8])
        ensures
            salt@ == self.salt@,
    {
        self.salt.as_slice()
    }

    pub fn get_hash(&self) -> (hash: &[u8])
        ensures
            hash@ == self.hash@,
    {
        self.hash.as_slice()
    }

    fn randomize_salt(&mut self)
        ensures
            final(self).hash == old(self).hash,
    {
        randomize_slice(&mut self.salt);
    }
}

/// An error of the standalone tools, with its message.
#[derive(Debug)]
pub struct SaltError {
    error: String,
}

impl View for SaltError {
    type V = Seq<char>;

    closed spec fn view(&self) -> Seq<char> {
        self.error@
    }
}

impl SaltError {
    pub fn new(msg: String) -> (e: Self)
        ensures
            e@ == msg@,
    {
        Self { error: msg }
    }

    /// The message carried by the error.
    pub fn to_string(&self) -> (s: String)
        ensures
            s@ == self@,
    {
        self.error.clone()
    }
}

} // verus!
