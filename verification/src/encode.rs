use vstd::prelude::*;
use crate::word::Word;

verus! {

/// What base64 encoding returns for a string's UTF-8 bytes: a function of
/// the characters alone.
pub uninterp spec fn base64_of(s: Seq<char>) -> Seq<char>;

/// Relies on base64::encode over the string's UTF-8 bytes: the standard
/// alphabet with padding, deterministic in the characters alone.
#[verifier::external_body]
fn base64_str(s: &str) -> (r: String)
    ensures
        r@ == base64_of(s@),
{
    base64::encode(s.as_bytes())
}

/// The base64 text of a word's characters.
pub fn encoded_word(w: &Word) -> (r: String)
    ensures
        r@ == base64_of(w@),
{
    let t = w.word();
    base64_str(t.as_str())
}

} // verus!
