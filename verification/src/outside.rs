//! The crate's trust boundary: thin wrappers around the outside functions
//! the logic relies on. Each wrapper's contract states no more than the
//! called function's own source and documentation show.

use vstd::prelude::*;

verus! {

/// The standard base64 encoding (with padding) of a byte sequence.
pub uninterp spec fn base64_of(b: Seq<u8>) -> Seq<char>;

/// Relies on base64::encode: the standard-alphabet, padded encoding; four
/// output characters for every three input bytes, rounded up. The result
/// depends on the bytes alone.
#[verifier::external_body]
pub fn base64_encode(b: &[u8]) -> (r: String)
    requires
        b@.len() <= usize::MAX / 2,
    ensures
        r@ == base64_of(b@),
        r@.len() == 4 * ((b@.len() + 2) / 3),
{
    base64::encode(b)
}

/// Relies on rand::random: a session id drawn from the thread-local
/// generator. Nothing is promised of the value.
#[verifier::external_body]
pub fn random_session_id() -> usize {
    rand::random()
}

/// Whether a character has the Unicode White_Space property.
pub uninterp spec fn is_unicode_whitespace(c: char) -> bool;

/// Relies on char::is_whitespace: the White_Space test; the result depends
/// on the character alone.
#[verifier::external_body]
pub fn char_is_whitespace(c: char) -> (r: bool)
    ensures
        r == is_unicode_whitespace(c),
{
    c.is_whitespace()
}

/// A sentence is blank when every character is whitespace; a blank sentence
/// triggers no preview pipeline.
pub open spec fn sentence_blank(s: Seq<char>) -> bool {
    forall|i: int| 0 <= i < s.len() ==> is_unicode_whitespace(s[i])
}

/// Whether `s` trims to the empty string.
pub fn is_blank(s: &str) -> (r: bool)
    ensures
        r == sentence_blank(s@),
{
    let len = s.unicode_len();
    let mut i: usize = 0;
    while i < len
        invariant
            i <= len,
            len == s@.len(),
            forall|j: int| 0 <= j < i ==> is_unicode_whitespace(s@[j]),
        decreases len - i,
    {
        if !char_is_whitespace(s.get_char(i)) {
            return false;
        }
        i = i + 1;
    }
    true
}

} // verus!
