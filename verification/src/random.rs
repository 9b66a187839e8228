//! Random passwords drawn from digits, letters and ASCII symbols.

use vstd::prelude::*;

verus! {

/// A character the generator draws from: ASCII from `!` to `~`, that is a
/// digit, a letter or a symbol.
pub open spec fn is_password_char(c: char) -> bool {
    '!' <= c <= '~'
}

/// `s` holds a digit, a lowercase letter, an uppercase letter and a symbol.
pub open spec fn has_each_class(s: Seq<char>) -> bool {
    &&& exists|i: int| 0 <= i < s.len() && '0' <= #[trigger] s[i] <= '9'
    &&& exists|i: int| 0 <= i < s.len() && 'a' <= #[trigger] s[i] <= 'z'
    &&& exists|i: int| 0 <= i < s.len() && 'A' <= #[trigger] s[i] <= 'Z'
    &&& exists|i: int| 0 <= i < s.len() && is_password_char(#[trigger] s[i]) && !('0' <= s[i] <= '9') && !(
    'a' <= s[i] <= 'z') && !('A' <= s[i] <= 'Z')
}

/// `passwords::PasswordGenerator::generate_one` with digits, lowercase and
/// uppercase letters and symbols, no spaces, and `strict` set. As its
/// source shows: a length of 0 and a length under 4 are refused with the
/// crate's messages; otherwise the password has `length` characters, each a
/// digit, letter or symbol, and holds one of each kind. Which characters come
/// out is chance and is not stated. The length must fit a `String`'s
/// capacity.
#[verifier::external_body]
pub fn random_password(length: usize) -> (r: Result<String, String>)
    requires
        length <= isize::MAX,
    ensures
        r is Ok <==> length >= 4,
        r matches Err(e) ==> (length == 0 ==> e@ == "The length of passwords cannot be 0."@) && (length > 0
            ==> e@ == "The length of passwords is too short."@),
        r matches Ok(s) ==> s@.len() == length && has_each_class(s@) && forall|i: int|
            0 <= i < s@.len() ==> is_password_char(#[trigger] s@[i]),
{
    let generator = passwords::PasswordGenerator {
        length,
        numbers: true,
        lowercase_letters: true,
        uppercase_letters: true,
        symbols: true,
        spaces: false,
        exclude_similar_characters: false,
        strict: true,
    };
    generator.generate_one().map_err(|e| e.to_string())
}

} // verus!
