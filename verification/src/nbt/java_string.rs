use vstd::prelude::*;

verus! {

/// The bytes that `cesu8::to_java_cesu8` produces for a text: Java's "modified
/// UTF-8", where U+0000 becomes `C0 80` and supplementary characters become
/// surrogate pairs.
pub uninterp spec fn java_cesu8_encoding(text: Seq<char>) -> Seq<u8>;

/// What `cesu8::from_java_cesu8` makes of a byte sequence: the decoded text,
/// or `None` when the bytes are not valid modified UTF-8.
pub uninterp spec fn java_cesu8_decoding(bytes: Seq<u8>) -> Option<Seq<char>>;

/// Calls `cesu8::to_java_cesu8`. Trusted: the result is the named encoding of
/// the text, and decoding it with `cesu8::from_java_cesu8` gives the text back
/// (both are stated by the crate's documentation and visible in its source:
/// `C0 80` and surrogate pairs are invalid UTF-8, so the decoder takes its
/// slow path and undoes exactly those two substitutions). Text of ASCII
/// characters other than NUL passes through unchanged, one byte per character
/// (`to_java_cesu8` then borrows the text's own bytes, and its slow path copies
/// such bytes too).
#[verifier::external_body]
pub(crate) fn encode_java_cesu8(text: &str) -> (r: Vec<u8>)
    ensures
        r@ == java_cesu8_encoding(text@),
        java_cesu8_decoding(r@) == Some(text@),
        (forall|i: int| 0 <= i < text@.len() ==> 0 < #[trigger] (text@[i] as u32) < 128) ==> r@ == text@.map_values(
            |c: char| c as u8,
        ),
{
    cesu8::to_java_cesu8(text).into_owned()
}

/// Calls `cesu8::from_java_cesu8`. Trusted: it succeeds exactly when the named
/// decoding is defined, and then yields that text.
#[verifier::external_body]
pub(crate) fn decode_java_cesu8(bytes: &[u8]) -> (r: Option<String>)
    ensures
        r is Some <==> java_cesu8_decoding(bytes@) is Some,
        r is Some ==> r->Some_0@ == java_cesu8_decoding(bytes@)->Some_0,
{
    match cesu8::from_java_cesu8(bytes) {
        Ok(text) => Some(text.into_owned()),
        Err(_) => None,
    }
}

} // verus!
