//! Percent-encoding of text that travels in a URL query.

use vstd::prelude::*;
use vstd::utf8::encode_utf8;

verus! {

/// Bytes that stay as they are: ASCII letters and digits, `-`, `.`, `_`
/// and `~`.
pub open spec fn is_unreserved(byte: u8) -> bool {
    ||| 0x30 <= byte <= 0x39
    ||| 0x41 <= byte <= 0x5a
    ||| 0x61 <= byte <= 0x7a
    ||| byte == 0x2d
    ||| byte == 0x2e
    ||| byte == 0x5f
    ||| byte == 0x7e
}

/// The upper-case hexadecimal digit of a value below sixteen.
pub open spec fn hex_digit(value: int) -> char
    recommends
        0 <= value < 16,
{
    "0123456789ABCDEF"@[value]
}

/// What one byte becomes: itself where unreserved, else `%` and its two
/// hexadecimal digits.
pub open spec fn escaped_byte(byte: u8) -> Seq<char> {
    if is_unreserved(byte) {
        seq![byte as char]
    } else {
        seq!['%', hex_digit(byte as int / 16), hex_digit(byte as int % 16)]
    }
}

/// The percent-encoding of a byte string.
pub open spec fn escaped_bytes(bytes: Seq<u8>) -> Seq<char> {
    bytes.map_values(|byte: u8| escaped_byte(byte)).flatten()
}

/// The percent-encoding of a text: that of its UTF-8 bytes.
pub open spec fn escaped(text: Seq<char>) -> Seq<char> {
    escaped_bytes(encode_utf8(text))
}

/// Calls `urlencoding::encode`, which walks the UTF-8 bytes of its argument,
/// copies ASCII letters, digits, `-`, `.`, `_` and `~`, and writes every
/// other byte as `%` followed by its two upper-case hexadecimal digits.
#[verifier::external_body]
pub(crate) fn percent_encode(text: &str) -> (out: String)
    ensures
        out@ == escaped(text@),
{
    urlencoding::encode(text).into_owned()
}

} // verus!
