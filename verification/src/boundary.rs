//! The calls that leave this crate.
//!
//! Every function here hands its arguments to a function of another crate or
//! of the standard library, and turns the answer into plain values or hands
//! on hyper's map of header fields as it is. None of the contracts in this
//! file is proved: each states what the called function is taken to do.

use crate::address::plain_authority;
use crate::encoding::percent_encoded;
use crate::header::{folded, values_view};
use crate::jar::{jar_view, text_view, Cookie, CookieView};
use hyper::header::Header;
use vstd::prelude::*;
use vstd::utf8::*;

verus! {

/// The cookies that hyper reads out of the raw values of a `Set-Cookie`
/// header, or `None` where it reads none.
pub uninterp spec fn set_cookie_entries(raw: Seq<Seq<u8>>) -> Option<Seq<CookieView>>;

/// The cookies that hyper reads out of the raw values of a `Cookie` header,
/// or `None` where it cannot read them.
pub uninterp spec fn cookie_entries(raw: Seq<Seq<u8>>) -> Option<Seq<CookieView>>;

/// The domain of the URL that a text is parsed to: `None` where the text is
/// no absolute URL, and where the host of the URL is no domain name.
pub uninterp spec fn url_domain(text: Seq<char>) -> Option<Seq<char>>;

/// hyper's map of header fields, carried through as it is.
#[verifier::external_type_specification]
#[verifier::external_body]
pub struct ExHeaders(hyper::header::Headers);

/// What a map of header fields holds: for each header that it has, the raw
/// values that it gives out for the header's name. A name stands here as
/// `folded` gives it, since the map takes two names for one where they
/// differ only in the case of ASCII letters.
pub uninterp spec fn held(fields: hyper::header::Headers) -> Map<Seq<u8>, Seq<Seq<u8>>>;

/// The map of header fields that holds nothing.
pub open spec fn no_fields() -> Map<Seq<u8>, Seq<Seq<u8>>> {
    Map::empty()
}

/// The cookies of an optional list.
pub open spec fn listed(cookies: Option<Vec<Cookie>>) -> Option<Seq<CookieView>> {
    match cookies {
        Some(list) => Some(jar_view(list@)),
        None => None,
    }
}

/// `String::from_utf8`: the text that the bytes encode. The contract claims
/// that the call succeeds exactly on well-formed UTF-8, and that the text then
/// encodes to the very bytes given.
#[verifier::external_body]
pub(crate) fn text_of(bytes: Vec<u8>) -> (out: Option<String>)
    ensures
        out is Some <==> valid_utf8(bytes@),
        out matches Some(text) ==> encode_utf8(text@) == bytes@,
{
    match String::from_utf8(bytes) {
        Ok(text) => Some(text),
        Err(_) => None,
    }
}

/// `url::Url::parse`, read for the domain of the host. The contract claims
/// only that the answer depends on the text alone; `url_domain` is its name.
/// The domain is `None` where the parser refuses the text, where the scheme
/// is not a relative one, and where the host is an IP address.
///
/// The parser does not return on every text. A host that comes out of its
/// IDNA mapping empty makes it panic, and a host with one of the two last
/// code points makes the search of its mapping table run for ever. The first
/// takes a host of dots alone or a character that the mapping drops, the
/// second a character beyond ASCII; such a character is written as it is, as
/// a percent escape or in a label marked `xn--`. The parser takes the host
/// from the authority of the text, where it begins at the beginning or
/// behind an `@`. So the precondition leaves out every text whose authority
/// is not plain: with it the host is ASCII, is mapped character by
/// character, and does not begin with a dot.
#[verifier::external_body]
pub(crate) fn domain_of_url(text: &str) -> (out: Option<String>)
    requires
        plain_authority(text@),
    ensures
        text_view(out) == url_domain(text@),
{
    match url::Url::parse(text) {
        Ok(parsed) => match parsed.scheme_data {
            url::SchemeData::Relative(data) => match data.host {
                url::Host::Domain(domain) => Some(domain),
                url::Host::Ipv4(_) => None,
                url::Host::Ipv6(_) => None,
            },
            url::SchemeData::NonRelative(_) => None,
        },
        Err(_) => None,
    }
}

/// `parse_header` of hyper's `SetCookie`: each raw value that is UTF-8 and
/// that the cookie parser accepts gives one cookie, of which the name, the
/// value, the domain and the path are kept. The contract claims only that the
/// answer depends on the raw values alone; `set_cookie_entries` is its name.
#[verifier::external_body]
pub(crate) fn read_set_cookie(raw: &Vec<Vec<u8>>) -> (out: Option<Vec<Cookie>>)
    ensures
        listed(out) == set_cookie_entries(values_view(raw@)),
{
    match hyper::header::SetCookie::parse_header(raw) {
        Ok(header) => Some(
            header.0.into_iter().map(
                |p| Cookie { name: p.name, value: p.value, domain: p.domain, path: p.path },
            ).collect(),
        ),
        Err(_) => None,
    }
}

/// `parse_header` of hyper's `Cookie`: the pairs of a request's `Cookie`
/// header, of which the name, the value, the domain and the path are kept.
/// The contract claims only that the answer depends on the raw values alone;
/// `cookie_entries` is its name.
#[verifier::external_body]
pub(crate) fn read_cookie_header(raw: &Vec<Vec<u8>>) -> (out: Option<Vec<Cookie>>)
    ensures
        listed(out) == cookie_entries(values_view(raw@)),
{
    match hyper::header::Cookie::parse_header(raw) {
        Ok(header) => Some(
            header.0.into_iter().map(
                |p| Cookie { name: p.name, value: p.value, domain: p.domain, path: p.path },
            ).collect(),
        ),
        Err(_) => None,
    }
}

/// `Headers::new` of hyper: a map that holds no header.
#[verifier::external_body]
pub(crate) fn fresh_fields() -> (out: hyper::header::Headers)
    ensures
        held(out) == no_fields(),
{
    hyper::header::Headers::new()
}

/// `Headers::set_raw` of hyper, with a single value: the map then holds the
/// value alone under the name, in place of what it held under it, and every
/// other header as before.
#[verifier::external_body]
pub(crate) fn put_raw(fields: &mut hyper::header::Headers, name: String, value: Vec<u8>)
    ensures
        held(*final(fields)) == held(*old(fields)).insert(folded(name@), seq![value@]),
{
    fields.set_raw(name, vec![value]);
}

/// `clone` of hyper's `Headers`: a map that holds what the given one holds.
#[verifier::external_body]
pub(crate) fn copy_of(fields: &hyper::header::Headers) -> (out: hyper::header::Headers)
    ensures
        held(out) == held(*fields),
{
    fields.clone()
}

/// `url::percent_encoding::utf8_percent_encode` with the set
/// `FORM_URLENCODED_ENCODE_SET`: every byte of the text in UTF-8 is replaced
/// by the entry of the set's table for it, which is `escaped` of the byte.
#[verifier::external_body]
pub(crate) fn form_encode(text: &str) -> (out: String)
    ensures
        out@ == percent_encoded(encode_utf8(text@)),
{
    url::percent_encoding::utf8_percent_encode(
        text,
        url::percent_encoding::FORM_URLENCODED_ENCODE_SET,
    )
}

/// `cookie::Cookie::new`: a cookie of the given name and value that names
/// neither a domain nor a path.
#[verifier::external_body]
pub(crate) fn new_pair(name: String, value: String) -> (out: Cookie)
    ensures
        out@ == (CookieView { name: name@, value: value@, domain: None, path: None }),
{
    let pair = cookie::Cookie::new(name, value);
    Cookie { name: pair.name, value: pair.value, domain: pair.domain, path: pair.path }
}

} // verus!
