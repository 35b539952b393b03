//! Form encoding of text: every byte of the text in UTF-8 that is not a
//! letter or a digit of ASCII, nor one of `*`, `-`, `.` and `_`, is written
//! as `%` and its two hexadecimal digits.

use crate::boundary::form_encode;
use vstd::prelude::*;
use vstd::utf8::*;

verus! {

/// Whether a byte stands for itself in a form-encoded text: a letter or a
/// digit of ASCII, or one of `*`, `-`, `.` and `_`.
pub open spec fn unescaped(b: u8) -> bool {
    ||| b == 42
    ||| b == 45
    ||| b == 46
    ||| b == 95
    ||| 48 <= b <= 57
    ||| 65 <= b <= 90
    ||| 97 <= b <= 122
}

/// The digit of a number below sixteen, in capitals.
pub open spec fn hex_digit(n: u8) -> char {
    if n < 10 {
        ((n + 48) as u8) as char
    } else {
        ((n + 55) as u8) as char
    }
}

/// What stands for a byte in a form-encoded text: the byte itself, or `%`
/// and its two hexadecimal digits.
pub open spec fn escaped(b: u8) -> Seq<char> {
    if unescaped(b) {
        seq![b as char]
    } else {
        seq!['%', hex_digit(b / 16), hex_digit(b % 16)]
    }
}

/// The form-encoded text of a sequence of bytes.
pub open spec fn percent_encoded(bytes: Seq<u8>) -> Seq<char> {
    bytes.map_values(|b: u8| escaped(b)).flatten()
}

/// What stands for a byte in a form-encoded text is ASCII.
proof fn lemma_escaped_ascii(b: u8)
    ensures
        is_ascii_chars(escaped(b)),
{
    let n = b / 16;
    let m = b % 16;
    assert(n < 16 && m < 16);
}

/// A form-encoded text is ASCII.
pub proof fn law_encoded_ascii(bytes: Seq<u8>)
    ensures
        is_ascii_chars(percent_encoded(bytes)),
    decreases bytes.len(),
{
    let parts = bytes.map_values(|b: u8| escaped(b));
    if bytes.len() > 0 {
        let rest = bytes.drop_first();
        assert(parts.drop_first() =~= rest.map_values(|b: u8| escaped(b)));
        law_encoded_ascii(rest);
        lemma_escaped_ascii(bytes[0]);
        assert(parts.first() == escaped(bytes[0]));
        is_ascii_chars_concat(percent_encoded(bytes), escaped(bytes[0]), percent_encoded(rest));
    }
}

/// The text with every byte of its UTF-8 form that is not a letter or a
/// digit of ASCII, nor one of `*`, `-`, `.` and `_`, replaced by `%` and the
/// two hexadecimal digits of the byte. The result is ASCII.
pub fn encode_uri_component(text: &str) -> (out: String)
    ensures
        out@ == percent_encoded(encode_utf8(text@)),
        is_ascii_chars(out@),
{
    proof {
        law_encoded_ascii(encode_utf8(text@));
    }
    form_encode(text)
}

} // verus!
