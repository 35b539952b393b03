//! Which URLs a request may go to, and the domain that such a URL names.
//!
//! The URL parser is handed a text only where the authority of the text, the
//! part between the slashes after the scheme and the path, is plain: made of
//! visible ASCII characters without `%`, `[` and `]`, without the mark `xn--`
//! of an encoded label, and with no dot where a host can begin, that is at
//! its beginning and behind an `@`. A text with any other authority names no
//! domain here, and neither does a URL whose domain is the empty text.

use crate::boundary::{domain_of_url, url_domain};
use crate::header::{lower, lower_byte};
use crate::jar::text_view;
use vstd::prelude::*;
use vstd::utf8::*;

verus! {

/// What a scan of a URL's bytes looks for.
#[derive(Clone, Copy, Debug, PartialEq, Eq)]
pub enum Mark {
    /// The colon that ends the scheme.
    Colon,
    /// The first byte that is no slash.
    PastSlashes,
    /// A byte that ends the authority: a slash, `?` or `#`.
    AuthorityEnd,
}

/// Whether the byte is `/` or `\`.
pub open spec fn is_slash(b: u8) -> bool {
    b == 47 || b == 92
}

/// Whether the byte is what the scan looks for.
pub open spec fn marked(mark: Mark, b: u8) -> bool {
    match mark {
        Mark::Colon => b == 58,
        Mark::PastSlashes => !is_slash(b),
        Mark::AuthorityEnd => is_slash(b) || b == 63 || b == 35,
    }
}

/// The first place at or after `from` that holds what the scan looks for;
/// the length of the bytes where there is none.
pub open spec fn first_marked(bytes: Seq<u8>, from: int, mark: Mark) -> int
    decreases bytes.len() - from,
{
    if from < 0 || from >= bytes.len() {
        bytes.len() as int
    } else if marked(mark, bytes[from]) {
        from
    } else {
        first_marked(bytes, from + 1, mark)
    }
}

/// Where the authority begins: behind the first colon and the slashes that
/// follow it.
pub open spec fn authority_start(bytes: Seq<u8>) -> int {
    first_marked(bytes, first_marked(bytes, 0, Mark::Colon) + 1, Mark::PastSlashes)
}

/// Where the authority ends: at the first slash, `?` or `#` behind its
/// beginning, or with the bytes.
pub open spec fn authority_end(bytes: Seq<u8>) -> int {
    first_marked(bytes, authority_start(bytes), Mark::AuthorityEnd)
}

/// Whether the byte is a visible ASCII character other than `%`, `[`, `]`.
pub open spec fn plain_byte(b: u8) -> bool {
    33 <= b <= 126 && b != 37 && b != 91 && b != 93
}

/// Whether the place in an authority that begins at `from` is plain: it
/// holds a plain byte, and no dot where a host can begin.
pub open spec fn plain_at(bytes: Seq<u8>, from: int, i: int) -> bool {
    plain_byte(bytes[i]) && !(bytes[i] == 46 && (i == from || bytes[i - 1] == 64))
}

/// Whether `xn--` stands at the place, in small or capital letters.
pub open spec fn marks_punycode(bytes: Seq<u8>, i: int) -> bool {
    lower(bytes[i]) == 120 && lower(bytes[i + 1]) == 110 && bytes[i + 2] == 45 && bytes[i + 3]
        == 45
}

/// Whether every place from `from` up to `to` is plain and `xn--` stands at
/// none of them.
pub open spec fn plain_between(bytes: Seq<u8>, from: int, to: int) -> bool {
    &&& forall|i: int| from <= i < to ==> #[trigger] plain_at(bytes, from, i)
    &&& forall|i: int| from <= i && i + 3 < to ==> !#[trigger] marks_punycode(bytes, i)
}

/// Whether the authority of the text is plain.
pub open spec fn plain_authority(text: Seq<char>) -> bool {
    plain_between(
        encode_utf8(text),
        authority_start(encode_utf8(text)),
        authority_end(encode_utf8(text)),
    )
}

/// The domain that a request to the URL goes to: the domain that the parser
/// finds, where the authority of the text is plain and the domain is not
/// empty.
pub open spec fn target_domain(url: Seq<char>) -> Option<Seq<char>> {
    if !plain_authority(url) {
        None
    } else {
        match url_domain(url) {
            Some(domain) => if domain.len() > 0 {
                Some(domain)
            } else {
                None
            },
            None => None,
        }
    }
}

/// Whether the byte is what the scan looks for.
pub fn is_marked(mark: Mark, b: u8) -> (hit: bool)
    ensures
        hit == marked(mark, b),
{
    match mark {
        Mark::Colon => b == 58,
        Mark::PastSlashes => !(b == 47 || b == 92),
        Mark::AuthorityEnd => b == 47 || b == 92 || b == 63 || b == 35,
    }
}

/// The first place at or after `from` that holds what the scan looks for.
pub fn find_mark(bytes: &[u8], from: usize, mark: Mark) -> (at: usize)
    ensures
        at == first_marked(bytes@, from as int, mark),
        at <= bytes@.len(),
        from <= bytes@.len() ==> from <= at,
{
    let mut i: usize = from;
    while i < bytes.len()
        invariant
            from <= i,
            first_marked(bytes@, from as int, mark) == first_marked(bytes@, i as int, mark),
        decreases bytes.len() - i,
    {
        if is_marked(mark, bytes[i]) {
            return i;
        }
        i += 1;
    }
    bytes.len()
}

/// Whether the authority of the text is plain.
pub fn has_plain_authority(url: &str) -> (plain: bool)
    ensures
        plain == plain_authority(url@),
{
    let bytes = url.as_bytes();
    let colon = find_mark(bytes, 0, Mark::Colon);
    let start = if colon < bytes.len() {
        find_mark(bytes, colon + 1, Mark::PastSlashes)
    } else {
        bytes.len()
    };
    let end = find_mark(bytes, start, Mark::AuthorityEnd);
    let mut i: usize = start;
    while i < end
        invariant
            start <= i <= end <= bytes@.len(),
            bytes@ == encode_utf8(url@),
            start == authority_start(bytes@),
            end == authority_end(bytes@),
            forall|k: int| start <= k < i ==> #[trigger] plain_at(bytes@, start as int, k),
            forall|k: int|
                start <= k < i && k + 3 < end ==> !#[trigger] marks_punycode(bytes@, k),
        decreases end - i,
    {
        let b = bytes[i];
        if !(33 <= b && b <= 126 && b != 37 && b != 91 && b != 93) {
            assert(!plain_at(bytes@, start as int, i as int));
            return false;
        }
        if b == 46 && (i == start || bytes[i - 1] == 64) {
            assert(!plain_at(bytes@, start as int, i as int));
            return false;
        }
        if end - i > 3 {
            if lower_byte(b) == 120 && lower_byte(bytes[i + 1]) == 110 && bytes[i + 2] == 45
                && bytes[i + 3] == 45 {
                assert(marks_punycode(bytes@, i as int));
                return false;
            }
        }
        i += 1;
    }
    true
}

/// The domain that a request to the URL goes to, if there is one:
/// `target_domain` of the text. The parser sees the text only where its
/// authority is plain.
pub fn request_domain(url: &str) -> (out: Option<String>)
    ensures
        text_view(out) == target_domain(url@),
{
    if !has_plain_authority(url) {
        return None;
    }
    match domain_of_url(url) {
        Some(domain) => {
            if domain.as_str().is_empty() {
                None
            } else {
                Some(domain)
            }
        },
        None => None,
    }
}

} // verus!
