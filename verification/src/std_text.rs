//! The conversions of text that are std's and serde_json's own.

use vstd::prelude::*;
use vstd::string::*;
use vstd::utf8::*;

verus! {

/// The text that `String::from_utf8_lossy` makes of `bytes`.
pub uninterp spec fn lossy_text(bytes: Seq<u8>) -> Seq<char>;

/// Calls `String::from_utf8_lossy`.
///
/// Trusted: the text depends on the bytes alone, and it is their decoding
/// where they are valid UTF-8.
#[verifier::external_body]
pub(crate) fn decode_lossy(bytes: &[u8]) -> (text: String)
    ensures
        text@ == lossy_text(bytes@),
        valid_utf8(bytes@) ==> text@ == decode_utf8(bytes@),
{
    String::from_utf8_lossy(bytes).into_owned()
}

/// The text as std's `Debug` writes it, quoted and escaped.
pub uninterp spec fn debug_text(text: Seq<char>) -> Seq<char>;

/// A printable ASCII character that needs no escape.
pub open spec fn is_plain(c: char) -> bool {
    0x20 <= c as u32 <= 0x7e && c != '"' && c != '\\'
}

/// Formats `text` with std's `Debug`.
///
/// Trusted: the result depends on the text alone, and a text of printable
/// ASCII without a quote or a backslash is put between quotes as it is.
#[verifier::external_body]
pub(crate) fn write_debug(text: &str) -> (quoted: String)
    ensures
        quoted@ == debug_text(text@),
        (forall|i: int| 0 <= i < text@.len() ==> is_plain(#[trigger] text@[i])) ==> quoted@
            == seq!['"'] + text@ + seq!['"'],
{
    format!("{text:?}")
}

/// A character as a JSON string literal holds it: a quote, a backslash and the
/// control characters are escaped, and every other character stands as it is.
pub open spec fn escaped(c: char) -> Seq<char> {
    let code = c as u32;
    if code == 0x22 || code == 0x5c {
        seq!['\\', c]
    } else if code == 0x08 {
        seq!['\\', 'b']
    } else if code == 0x09 {
        seq!['\\', 't']
    } else if code == 0x0a {
        seq!['\\', 'n']
    } else if code == 0x0c {
        seq!['\\', 'f']
    } else if code == 0x0d {
        seq!['\\', 'r']
    } else if code < 0x20 {
        let digits = "0123456789abcdef"@;
        seq!['\\', 'u', '0', '0', digits[code as int / 16], digits[code as int % 16]]
    } else {
        seq![c]
    }
}

/// The text as a JSON string literal.
pub open spec fn json_literal(text: Seq<char>) -> Seq<char> {
    seq!['"'] + text.map_values(|c: char| escaped(c)).flatten() + seq!['"']
}

/// Calls `serde_json::to_string` on a text, which does not fail.
///
/// Trusted: the result is the text's JSON string literal, with the escapes that
/// serde_json's compact formatter writes.
#[verifier::external_body]
pub(crate) fn write_json_literal(text: &str) -> (quoted: String)
    ensures
        quoted@ == json_literal(text@),
{
    serde_json::to_string(text).unwrap_or_default()
}

} // verus!
