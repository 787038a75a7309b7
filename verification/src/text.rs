//! Words and text: comparing strings and decoding bytes.

use crate::error::TokenizationError;
use vstd::prelude::*;
use vstd::string::StringSliceAdditionalSpecFns;
use vstd::utf8::{decode_utf8, encode_utf8, valid_utf8};

verus! {

/// Two character sequences with the same UTF-8 encoding are the same.
pub proof fn lemma_encoding_is_injective(a: Seq<char>, b: Seq<char>)
    requires
        encode_utf8(a) == encode_utf8(b),
    ensures
        a == b,
{
    vstd::utf8::encode_utf8_decode_utf8(a);
    vstd::utf8::encode_utf8_decode_utf8(b);
}

/// Whether two strings hold the same characters.
pub fn same_word(a: &str, b: &str) -> (r: bool)
    ensures
        r == (a@ == b@),
{
    let x = a.as_bytes();
    let y = b.as_bytes();
    if x.len() != y.len() {
        return false;
    }
    let mut i: usize = 0;
    while i < x.len()
        invariant
            i <= x.len(),
            x.len() == y.len(),
            x@ == a.spec_bytes(),
            y@ == b.spec_bytes(),
            forall|k: int| 0 <= k < i ==> x@[k] == y@[k],
        decreases x.len() - i,
    {
        if x[i] != y[i] {
            return false;
        }
        i += 1;
    }
    proof {
        assert(x@ =~= y@);
        lemma_encoding_is_injective(a@, b@);
    }
    true
}

/// The text that bytes spell: their decoding where they are UTF-8, no text
/// where they are not.
pub open spec fn text_of(bytes: Seq<u8>) -> Result<Seq<char>, TokenizationError> {
    if valid_utf8(bytes) {
        Ok(decode_utf8(bytes))
    } else {
        Err(TokenizationError::InvalidText)
    }
}

/// The text that the encoding of characters spells is those characters.
pub proof fn lemma_text_of_encoding(chars: Seq<char>)
    ensures
        text_of(encode_utf8(chars)) == Ok::<Seq<char>, TokenizationError>(chars),
{
    vstd::utf8::encode_utf8_valid_utf8(chars);
    vstd::utf8::encode_utf8_decode_utf8(chars);
}

/// The characters of a text that was produced, or why none was.
pub open spec fn text_view(r: Result<String, TokenizationError>) -> Result<
    Seq<char>,
    TokenizationError,
> {
    match r {
        Ok(s) => Ok(s@),
        Err(e) => Err(e),
    }
}

/// `String::from_utf8` of the standard library, its error dropped. The
/// contract claims what its documentation says: the call succeeds exactly
/// on UTF-8, and the string then consists of the bytes given.
#[verifier::external_body]
fn string_from_utf8(bytes: Vec<u8>) -> (r: Option<String>)
    ensures
        r is Some <==> valid_utf8(bytes@),
        r matches Some(s) ==> encode_utf8(s@) == bytes@,
{
    String::from_utf8(bytes).ok()
}

/// Decodes bytes as text. Bytes that are not UTF-8 are refused, never
/// patched.
pub fn decode_text(bytes: Vec<u8>) -> (r: Result<String, TokenizationError>)
    ensures
        text_view(r) == text_of(bytes@),
{
    match string_from_utf8(bytes) {
        Some(s) => {
            proof {
                vstd::utf8::encode_utf8_decode_utf8(s@);
            }
            Ok(s)
        },
        None => Err(TokenizationError::InvalidText),
    }
}

} // verus!
