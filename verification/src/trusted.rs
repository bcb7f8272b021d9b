//! Contracts that are believed, not proved: functions of the standard library
//! and of the `encoding_rs` and `hex` crates that the decoder calls.

use vstd::prelude::*;
use crate::registry_value::hex_bytes;
use crate::string_codec::strings_view;

verus! {

/// `char::from_u32`: the character with the given scalar value. The standard
/// library documents that it gives `None` exactly for the surrogates and for
/// numbers above `0x10FFFF`.
pub assume_specification[ char::from_u32 ](i: u32) -> (r: Option<char>)
    ensures
        r == (if i <= 0xD7FF || (0xE000 <= i && i <= 0x10FFFF) {
            Some(i as char)
        } else {
            None
        }),
;

/// `String::push`: appends one character to the end of the string.
pub assume_specification[ String::push ](s: &mut String, ch: char)
    ensures
        final(s)@ == old(s)@.push(ch),
;

/// What `encoding_rs::Encoding::decode` returns when it is called on
/// `UTF_16LE` with `bytes`: the decoded text, and whether any malformed
/// sequence was replaced on the way. The call sniffs for a byte order mark
/// first, so the text is not always a UTF-16LE reading of `bytes`.
pub uninterp spec fn utf16le_decoding(bytes: Seq<u8>) -> (Seq<char>, bool);

/// What `encoding_rs::Encoding::decode` returns when it is called on
/// `ISO_8859_15` with `bytes`: the decoded text, and whether any malformed
/// sequence was replaced on the way.
pub uninterp spec fn latin9_decoding(bytes: Seq<u8>) -> (Seq<char>, bool);

/// Input lengths for which `encoding_rs` can size its output buffer: it
/// reserves up to three bytes for each input byte, rounded up to a power of
/// two, and panics where that does not fit in `usize`.
pub open spec fn decodable_len(n: nat) -> bool {
    n <= usize::MAX / 8
}

/// `encoding_rs::UTF_16LE.decode(raw)`, without the encoding that the call
/// reports: the text and the error flag are the named result.
#[verifier::external_body]
pub(crate) fn decode_utf16le(raw: &[u8]) -> (r: (String, bool))
    requires
        decodable_len(raw@.len()),
    ensures
        (r.0@, r.1) == utf16le_decoding(raw@),
{
    let (text, _, had_errors) = encoding_rs::UTF_16LE.decode(raw);
    (text.into_owned(), had_errors)
}

/// `encoding_rs::ISO_8859_15.decode(raw)`, without the encoding that the call
/// reports: the text and the error flag are the named result.
#[verifier::external_body]
pub(crate) fn decode_latin9(raw: &[u8]) -> (r: (String, bool))
    requires
        decodable_len(raw@.len()),
    ensures
        (r.0@, r.1) == latin9_decoding(raw@),
{
    let (text, _, had_errors) = encoding_rs::ISO_8859_15.decode(raw);
    (text.into_owned(), had_errors)
}

/// `hex::encode(data)`: the crate documents that each byte is written as
/// two lowercase hexadecimal digits, in the order of the bytes.
#[verifier::external_body]
pub(crate) fn hex_encode(data: &[u8]) -> (r: String)
    ensures
        r@ == hex_bytes(data@),
{
    hex::encode(data)
}

/// What the standard library's `Debug` formatting writes for a slice of
/// bytes. Its exact form is not promised by the documentation.
pub uninterp spec fn debug_bytes(bytes: Seq<u8>) -> Seq<char>;

/// What the standard library's `Debug` formatting writes for a list of
/// strings. Its exact form, and the way it escapes a string, are not
/// promised by the documentation.
pub uninterp spec fn debug_strings(items: Seq<Seq<char>>) -> Seq<char>;

/// `format!("{:?}", bytes)` on a slice of bytes.
#[verifier::external_body]
pub(crate) fn format_debug_bytes(bytes: &[u8]) -> (r: String)
    ensures
        r@ == debug_bytes(bytes@),
{
    format!("{:?}", bytes)
}

/// `format!("{:?}", items)` on a list of strings.
#[verifier::external_body]
pub(crate) fn format_debug_strings(items: &Vec<String>) -> (r: String)
    ensures
        r@ == debug_strings(strings_view(items@)),
{
    format!("{:?}", items)
}

} // verus!
