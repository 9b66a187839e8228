use vstd::prelude::*;

pub mod aes_wrapper;
pub mod chacha20_wrapper;
pub mod default;

verus! {

/// Length of the salt appended to every sealed vault value.
pub const SALT_LEN: usize = 32;

/// Length of the nonce stored with AES-256-GCM and GCM-SIV data.
pub const AES_NONCE_LEN: usize = 12;

/// The bytes of sealed data before its trailing salt.
pub open spec fn crypt_part(data: Seq<u8>) -> Seq<u8> {
    data.subrange(0, data.len() - SALT_LEN)
}

/// The trailing salt of sealed data.
pub open spec fn salt_part(data: Seq<u8>) -> Seq<u8> {
    data.subrange(data.len() - SALT_LEN, data.len() as int)
}

/// The nonce stored at the end of the crypt part.
pub open spec fn nonce_part(data: Seq<u8>, nonce_len: int) -> Seq<u8> {
    let c = crypt_part(data);
    c.subrange(c.len() - nonce_len, c.len() as int)
}

/// The sealed message before the nonce.
pub open spec fn sealed_part(data: Seq<u8>, nonce_len: int) -> Seq<u8> {
    let c = crypt_part(data);
    c.subrange(0, c.len() - nonce_len)
}

/// An error raised while sealing or opening data.
#[derive(Debug)]
pub struct EncryptionError {
    error: String,
}

impl View for EncryptionError {
    type V = Seq<char>;

    closed spec fn view(&self) -> Seq<char> {
        self.error@
    }
}

impl EncryptionError {
    pub fn new(msg: &str) -> (e: Self)
        ensures
            e@ == msg@,
    {
        Self { error: msg.to_owned() }
    }

    /// The message carried by the error.
    pub fn to_string(&self) -> (s: String)
        ensures
            s@ == self@,
    {
        self.error.clone()
    }
}

/// Sealed (or opened) bytes.
#[derive(Debug, Clone)]
pub struct EncryptionResult {
    data: Vec<u8>,
}

impl View for EncryptionResult {
    type V = Seq<u8>;

    closed spec fn view(&self) -> Seq<u8> {
        self.data@
    }
}

impl EncryptionResult {
    /// Wraps the bytes; never fails.
    pub fn new(data: Vec<u8>) -> (r: Result<EncryptionResult, EncryptionError>)
        ensures
            r matches Ok(e) && e@ == data@,
    {
        Ok(Self { data })
    }

    /// The bytes held fit in memory: their count is a `usize`.
    pub proof fn lemma_len_fits(&self)
        ensures
            self@.len() <= usize::MAX,
    {
        assert(self.data.len() == self.data@.len());
    }

    pub fn as_ref(&self) -> (data: &Vec<u8>)
        ensures
            data@ == self@,
    {
        &self.data
    }

    pub fn as_slice(&self) -> (data: &[u8])
        ensures
            data@ == self@,
    {
        self.data.as_slice()
    }

    /// The trailing 32-byte salt.
    pub fn get_salt_slice(&self) -> (salt: &[u8])
        requires
            self@.len() >= SALT_LEN,
        ensures
            salt@ == salt_part(self@),
    {
        let len = self.data.len();
        slice_range(self.data.as_slice(), len - SALT_LEN, len)
    }

    /// Everything before the trailing salt.
    pub fn get_crypt_slice(&self) -> (crypt: &[u8])
        requires
            self@.len() >= SALT_LEN,
        ensures
            crypt@ == crypt_part(self@),
    {
        let len = self.data.len();
        slice_range(self.data.as_slice(), 0, len - SALT_LEN)
    }

    /// Overwrites the bytes with zeros and empties the buffer.
    pub fn zeroize(&mut self)
        ensures
            final(self)@.len() == 0,
    {
        zeroize_bytes(&mut self.data);
    }
}

impl Drop for EncryptionResult {
    /// Wipes the bytes before the memory is given back.
    fn drop(&mut self)
        opens_invariants none
        no_unwind
    {
        zeroize_bytes(&mut self.data);
    }
}

/// `<Vec<u8> as zeroize::Zeroize>::zeroize`: writes zeros over the whole
/// allocation, then clears the vector. The contract claims only the cleared
/// length; the zeroing is not visible in the view.
#[verifier::external_body]
pub(crate) fn zeroize_bytes(data: &mut Vec<u8>)
    ensures
        final(data)@.len() == 0,
    opens_invariants none
    no_unwind
{
    zeroize::Zeroize::zeroize(data);
}

/// `<[u8; 32] as zeroize::Zeroize>::zeroize`: writes zeros over the array
/// in a way the compiler keeps.
#[verifier::external_body]
pub(crate) fn zeroize_array(data: &mut [u8; 32])
    ensures
        final(data)@ == Seq::new(32, |_i: int| 0u8),
    opens_invariants none
    no_unwind
{
    zeroize::Zeroize::zeroize(data);
}

/// The bytes `start..end` of a slice.
pub(crate) fn slice_range(s: &[u8], start: usize, end: usize) -> (out: &[u8])
    requires
        start <= end <= s@.len(),
    ensures
        out@ == s@.subrange(start as int, end as int),
{
    &s[start..end]
}

} // verus!
