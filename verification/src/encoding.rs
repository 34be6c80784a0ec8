//! Bytes as text: base64 and hexadecimal.

use base64::Engine;
use vstd::prelude::*;

verus! {

/// What `base64` gives for some bytes under its standard engine.
pub uninterp spec fn base64_of(bytes: Seq<u8>) -> Seq<char>;

/// What `base64` reads from a text under its standard engine: the bytes, or
/// the words in which it says what is wrong.
pub uninterp spec fn base64_reading(text: Seq<char>) -> Result<Seq<u8>, Seq<char>>;

/// A character of the standard base64 alphabet, or its padding.
pub open spec fn is_base64_char(c: char) -> bool {
    ||| 'A' <= c <= 'Z'
    ||| 'a' <= c <= 'z'
    ||| '0' <= c <= '9'
    ||| c == '+'
    ||| c == '/'
    ||| c == '='
}

/// Whether a text holds nothing but base64.
pub open spec fn all_base64(text: Seq<char>) -> bool {
    forall|i: int| 0 <= i < text.len() ==> is_base64_char(#[trigger] text[i])
}

/// Whether a text decodes to some bytes.
pub open spec fn reads_back(text: Seq<char>, bytes: Seq<u8>) -> bool {
    base64_reading(text) == Ok::<Seq<u8>, Seq<char>>(bytes)
}

/// `Engine::encode` of the `base64` crate's `STANDARD` engine. The text has
/// four characters of the standard alphabet for every three bytes begun, and
/// `Engine::decode` gives the bytes back. It panics only where that length
/// exceeds what `usize` holds, which no slice reaches: none is longer than
/// half of that range.
#[verifier::external_body]
pub(crate) fn base64_encode(bytes: &[u8]) -> (text: String)
    ensures
        text@ == base64_of(bytes@),
        text@.len() == (bytes@.len() + 2) / 3 * 4,
        all_base64(text@),
        reads_back(text@, bytes@),
{
    base64::engine::general_purpose::STANDARD.encode(bytes)
}

/// The view of what a reader gave: bytes, or words.
pub open spec fn bytes_or_words(r: Result<Vec<u8>, String>) -> Result<Seq<u8>, Seq<char>> {
    match r {
        Ok(b) => Ok(b@),
        Err(e) => Err(e@),
    }
}

/// `Engine::decode` of the `base64` crate's `STANDARD` engine, its error taken
/// as the text that it displays.
#[verifier::external_body]
pub(crate) fn base64_decode(text: &str) -> (r: Result<Vec<u8>, String>)
    ensures
        bytes_or_words(r) == base64_reading(text@),
{
    base64::engine::general_purpose::STANDARD.decode(text).map_err(|e| e.to_string())
}

/// Two lower-case hexadecimal digits for each byte.
pub open spec fn hex_of(bytes: Seq<u8>) -> Seq<char> {
    Seq::new(
        2 * bytes.len(),
        |i: int|
            crate::text::digit_char(
                if i % 2 == 0 {
                    bytes[i / 2] as int / 16
                } else {
                    bytes[i / 2] as int % 16
                },
            ),
    )
}

/// `hex::encode`: two lower-case hexadecimal digits for each byte, the high
/// half first.
#[verifier::external_body]
pub(crate) fn hex_encode(bytes: &[u8]) -> (text: String)
    ensures
        text@ == hex_of(bytes@),
{
    hex::encode(bytes)
}

} // verus!
