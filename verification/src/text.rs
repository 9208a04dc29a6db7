//! Conversions between bytes and text.

use vstd::prelude::*;
use vstd::utf8::{decode_utf8, is_scalar, valid_utf8};

verus! {

/// Reads `bytes` as UTF-8 text, by `String::from_utf8`.
///
/// The standard library returns the text if and only if the bytes are
/// well-formed UTF-8, and the text then holds the characters they encode.
#[verifier::external_body]
pub(crate) fn text_from_utf8(bytes: Vec<u8>) -> (r: Option<String>)
    ensures
        r is Some <==> valid_utf8(bytes@),
        r matches Some(text) ==> text@ == decode_utf8(bytes@),
{
    String::from_utf8(bytes).ok()
}

/// The character with the code `code`, by `char::from_u32`.
///
/// The standard library returns a character if and only if `code` is a
/// Unicode scalar value, and the character then has that code.
#[verifier::external_body]
pub(crate) fn char_from_code(code: u32) -> (r: Option<char>)
    ensures
        r is Some <==> is_scalar(code),
        r matches Some(c) ==> c as u32 == code,
{
    char::from_u32(code)
}

/// Appends `c` to `text`, by `String::push`.
#[verifier::external_body]
pub(crate) fn push_char(text: &mut String, c: char)
    ensures
        final(text)@ == old(text)@.push(c),
{
    text.push(c)
}

/// Whether `text` is one JSON document, as `serde_json` reads it.
pub uninterp spec fn is_json(text: Seq<char>) -> bool;

/// Whether `text` is one JSON document, by `serde_json::from_str`.
///
/// The text is read as `serde::de::IgnoredAny`, which takes any document and
/// keeps none of it; the reading succeeds if and only if the text is
/// well-formed JSON with nothing but white space after it. What is returned
/// depends on the text alone.
#[verifier::external_body]
pub(crate) fn json_parses(text: &str) -> (ok: bool)
    ensures
        ok == is_json(text@),
{
    serde_json::from_str::<serde::de::IgnoredAny>(text).is_ok()
}

/// Appends the bytes of `src` to `out`.
pub(crate) fn append_bytes(out: &mut Vec<u8>, src: &[u8])
    ensures
        final(out)@ == old(out)@ + src@,
{
    let mut i: usize = 0;
    while i < src.len()
        invariant
            i <= src.len(),
            out@ == old(out)@ + src@.subrange(0, i as int),
        decreases src.len() - i,
    {
        out.push(src[i]);
        assert(src@.subrange(0, i + 1) =~= src@.subrange(0, i as int).push(src@[i as int]));
        i += 1;
    }
    assert(src@.subrange(0, src.len() as int) =~= src@);
}

} // verus!
