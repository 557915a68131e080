//! Trusted interface to the outside collaborators: the character-encoding
//! oracle and the script converter.

use vstd::prelude::*;

verus! {

#[verifier::external_type_specification]
#[verifier::external_body]
pub struct ExUniAz(uniaz::UniAz);

/// Relies on `uniaz::UniAz::new`: builds the oracle over its fixed built-in
/// alphabet; nothing needs to be assumed of the value.
pub assume_specification[ uniaz::UniAz::new ]() -> uniaz::UniAz;

/// The lowercase word the oracle assigns to a character: what
/// `UniAz::encrypt` returns, a function of the character and the oracle's
/// fixed tables alone.
pub uninterp spec fn encode_of(c: char) -> Seq<char>;

/// What the oracle decodes a word to, `None` where no character maps to it:
/// what `UniAz::decrypt` returns, a function of the word and the oracle's
/// fixed tables alone.
pub uninterp spec fn decode_of(s: Seq<char>) -> Option<char>;

/// Relies on `uniaz::UniAz::encrypt`: the result is computed from the
/// oracle's fixed tables, deterministic in the character, and `decrypt`
/// inverts it for every character, as the crate's documentation promises
/// and its all-codepoints round-trip test asserts.
#[verifier::external_body]
pub fn encrypt_char(oracle: &uniaz::UniAz, c: char) -> (r: String)
    ensures
        r@ == encode_of(c),
        decode_of(r@) == Some(c),
{
    oracle.encrypt(c)
}

/// Relies on `uniaz::UniAz::decrypt`: a table-driven lookup, deterministic
/// in the word; the error value carries no data the caller keeps, so
/// failure becomes `None`.
#[verifier::external_body]
pub fn decrypt_code(oracle: &uniaz::UniAz, code: &str) -> (r: Option<char>)
    ensures
        r == decode_of(code@),
{
    match oracle.decrypt(code) {
        Ok(c) => Some(c),
        Err(_) => None,
    }
}

/// The traditional-script text that hanconv's simplified-to-traditional
/// conversion yields: a function of the input text alone.
pub uninterp spec fn s2t_of(s: Seq<char>) -> Seq<char>;

/// Relies on `hanconv::s2t`: dictionary-driven conversion of simplified to
/// traditional Chinese, deterministic in the text.
#[verifier::external_body]
pub fn s2t_string(s: &str) -> (r: String)
    ensures
        r@ == s2t_of(s@),
{
    hanconv::s2t(s)
}

} // verus!
