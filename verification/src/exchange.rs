//! One logical request and what a response does to it.
//!
//! A logical request may take several hops: a response of status 301 or 302
//! to a GET or a POST sends the same request on to the URL that its
//! `Location` header names. A DELETE is never sent on. No request is sent on
//! more than `MAX_REDIRECTS` times.

use crate::address::{request_domain, target_domain};
use crate::boundary::{held, text_of};
use crate::header::{FieldView, HeaderField, fields_view, raw_values, values_of, values_view};
use crate::jar::{copy_text, jar_view, text_view, Cookie, CookieView};
use vstd::prelude::*;
use vstd::utf8::*;

verus! {

/// How many times one logical request is sent on to another URL at most.
pub const MAX_REDIRECTS: u32 = 10;

/// The method of a request.
#[derive(Clone, Copy, Debug, PartialEq, Eq)]
pub enum Method {
    Get,
    Post,
    Delete,
}

/// Why a logical request failed.
#[derive(Debug, PartialEq, Eq)]
pub enum Error {
    /// The URL names no domain to go to: it cannot be parsed, has no domain
    /// or the empty one, or its authority is not plain.
    UrlError,
    /// The transport failed; the text says how.
    TransportError(String),
    /// A redirect came without a `Location` header, or with one that is not
    /// UTF-8.
    RedirectDecodeError,
    /// The request was sent on `MAX_REDIRECTS` times and met another redirect.
    TooManyRedirectsError,
}

/// What an [`Error`] stands for in contracts.
pub enum ErrorView {
    UrlError,
    TransportError(Seq<char>),
    RedirectDecodeError,
    TooManyRedirectsError,
}

impl View for Error {
    type V = ErrorView;

    open spec fn view(&self) -> ErrorView {
        match self {
            Error::UrlError => ErrorView::UrlError,
            Error::TransportError(cause) => ErrorView::TransportError(cause@),
            Error::RedirectDecodeError => ErrorView::RedirectDecodeError,
            Error::TooManyRedirectsError => ErrorView::TooManyRedirectsError,
        }
    }
}

/// What a transport is asked to send.
#[derive(Debug, PartialEq)]
pub struct Request {
    pub method: Method,
    pub url: String,
    /// The header fields of the client, as they stood when the request left.
    /// The `Cookie` header is not among them: it is to be made of `cookies`.
    pub headers: hyper::header::Headers,
    /// The cookies of the client, as they stood when the request left.
    pub cookies: Vec<Cookie>,
    pub body: Option<String>,
}

/// What a [`Request`] stands for in contracts.
pub struct RequestView {
    pub method: Method,
    pub url: Seq<char>,
    pub headers: Map<Seq<u8>, Seq<Seq<u8>>>,
    pub cookies: Seq<CookieView>,
    pub body: Option<Seq<char>>,
}

impl View for Request {
    type V = RequestView;

    open spec fn view(&self) -> RequestView {
        RequestView {
            method: self.method,
            url: self.url@,
            headers: held(self.headers),
            cookies: jar_view(self.cookies@),
            body: text_view(self.body),
        }
    }
}

/// What a transport hands back of one response.
#[derive(Debug, PartialEq, Eq)]
pub struct ResponseDigest {
    pub status: u16,
    pub headers: Vec<HeaderField>,
    pub body: Vec<u8>,
}

/// What a [`ResponseDigest`] stands for in contracts.
pub struct ResponseView {
    pub status: u16,
    pub headers: Seq<FieldView>,
    pub body: Seq<u8>,
}

impl View for ResponseDigest {
    type V = ResponseView;

    open spec fn view(&self) -> ResponseView {
        ResponseView {
            status: self.status,
            headers: fields_view(self.headers@),
            body: self.body@,
        }
    }
}

/// A logical request on its way: what is asked, of which URL, for which
/// domain the answer's cookies count, and how often it was sent on already.
#[derive(Debug, PartialEq, Eq)]
pub struct Exchange {
    pub method: Method,
    pub url: String,
    pub body: Option<String>,
    pub domain: String,
    pub hops: u32,
}

/// What an [`Exchange`] stands for in contracts.
pub struct ExchangeView {
    pub method: Method,
    pub url: Seq<char>,
    pub body: Option<Seq<char>>,
    pub domain: Seq<char>,
    pub hops: nat,
}

impl View for Exchange {
    type V = ExchangeView;

    open spec fn view(&self) -> ExchangeView {
        ExchangeView {
            method: self.method,
            url: self.url@,
            body: text_view(self.body),
            domain: self.domain@,
            hops: self.hops as nat,
        }
    }
}

/// What follows a response: the request goes on to another URL, or the
/// logical request is over.
#[derive(Debug, PartialEq, Eq)]
pub enum Step {
    Follow(Exchange),
    Done(Result<String, Error>),
}

/// What a [`Step`] stands for in contracts.
pub enum StepView {
    Follow(ExchangeView),
    Done(Result<Seq<char>, ErrorView>),
}

/// What the outcome of a logical request stands for in contracts.
pub open spec fn outcome_view(outcome: Result<String, Error>) -> Result<Seq<char>, ErrorView> {
    match outcome {
        Ok(text) => Ok(text@),
        Err(e) => Err(e@),
    }
}

impl View for Step {
    type V = StepView;

    open spec fn view(&self) -> StepView {
        match self {
            Step::Follow(next) => StepView::Follow(next@),
            Step::Done(outcome) => StepView::Done(outcome_view(*outcome)),
        }
    }
}

/// Whether the status asks to send the request on.
pub open spec fn is_redirect(status: u16) -> bool {
    status == 301 || status == 302
}

/// Whether requests of the method are sent on at a redirect.
pub open spec fn follows_redirects(method: Method) -> bool {
    match method {
        Method::Get => true,
        Method::Post => true,
        Method::Delete => false,
    }
}

/// What the failure says when a response's body is not UTF-8.
pub open spec fn body_not_text() -> Seq<char> {
    "response body is not valid UTF-8"@
}

/// The logical request as it begins: `Err` where the URL names no domain to
/// go to, else the exchange for that domain, not yet sent on.
pub open spec fn beginning(method: Method, url: Seq<char>, body: Option<Seq<char>>) -> Result<
    ExchangeView,
    ErrorView,
> {
    match target_domain(url) {
        Some(domain) => Ok(
            ExchangeView { method: method, url: url, body: body, domain: domain, hops: 0 },
        ),
        None => Err(ErrorView::UrlError),
    }
}

/// Where a redirect leads: the request goes on to the first raw value of the
/// `Location` header, for the domain of that URL. It fails where there is no
/// such value or it is not UTF-8, then where the request was sent on too
/// often already, then where the new URL names no domain.
pub open spec fn redirected(exchange: ExchangeView, headers: Seq<FieldView>) -> StepView {
    let raw = values_of(headers, "Location"@);
    if raw.len() == 0 || !valid_utf8(raw[0]) {
        StepView::Done(Err(ErrorView::RedirectDecodeError))
    } else if exchange.hops >= MAX_REDIRECTS {
        StepView::Done(Err(ErrorView::TooManyRedirectsError))
    } else {
        match target_domain(decode_utf8(raw[0])) {
            Some(domain) => StepView::Follow(
                ExchangeView {
                    url: decode_utf8(raw[0]),
                    domain: domain,
                    hops: exchange.hops + 1,
                    ..exchange
                },
            ),
            None => StepView::Done(Err(ErrorView::UrlError)),
        }
    }
}

/// What follows a response. A body that is not UTF-8 fails the request. A
/// redirect to a GET or a POST sends the request on, and its body is
/// dropped. Any other response ends the request with its body as text.
pub open spec fn next_step(exchange: ExchangeView, response: ResponseView) -> StepView {
    if !valid_utf8(response.body) {
        StepView::Done(Err(ErrorView::TransportError(body_not_text())))
    } else if follows_redirects(exchange.method) && is_redirect(response.status) {
        redirected(exchange, response.headers)
    } else {
        StepView::Done(Ok(decode_utf8(response.body)))
    }
}

/// The characters of an optional text.
pub open spec fn str_view(text: Option<&str>) -> Option<Seq<char>> {
    match text {
        Some(s) => Some(s@),
        None => None,
    }
}

/// What the beginning of a logical request stands for in contracts.
pub open spec fn begun_view(begun: Result<Exchange, Error>) -> Result<ExchangeView, ErrorView> {
    match begun {
        Ok(exchange) => Ok(exchange@),
        Err(e) => Err(e@),
    }
}

/// Begins a logical request: `beginning` of the method, the URL and the body.
pub fn begin(method: Method, url: &str, body: Option<&str>) -> (out: Result<Exchange, Error>)
    ensures
        begun_view(out) == beginning(method, url@, str_view(body)),
{
    match request_domain(url) {
        Some(domain) => Ok(
            Exchange {
                method: method,
                url: url.to_owned(),
                body: match body {
                    Some(b) => Some(b.to_owned()),
                    None => None,
                },
                domain: domain,
                hops: 0,
            },
        ),
        None => Err(Error::UrlError),
    }
}

/// Where a redirect leads: `redirected` of the exchange and the response's
/// headers.
pub fn redirect(exchange: &Exchange, headers: &Vec<HeaderField>) -> (step: Step)
    ensures
        step@ == redirected(exchange@, fields_view(headers@)),
{
    let mut raw = raw_values(headers, "Location");
    if raw.len() == 0 {
        return Step::Done(Err(Error::RedirectDecodeError));
    }
    let ghost first = raw@[0]@;
    assert(values_view(raw@)[0] == first);
    let target = match text_of(raw.swap_remove(0)) {
        Some(text) => text,
        None => {
            return Step::Done(Err(Error::RedirectDecodeError));
        },
    };
    proof {
        encode_utf8_decode_utf8(target@);
    }
    if exchange.hops >= MAX_REDIRECTS {
        return Step::Done(Err(Error::TooManyRedirectsError));
    }
    match request_domain(target.as_str()) {
        Some(domain) => Step::Follow(
            Exchange {
                method: exchange.method,
                url: target,
                body: copy_text(&exchange.body),
                domain: domain,
                hops: exchange.hops + 1,
            },
        ),
        None => Step::Done(Err(Error::UrlError)),
    }
}

/// What follows a response: `next_step` of the exchange and the response.
pub fn decide(exchange: &Exchange, response: ResponseDigest) -> (step: Step)
    ensures
        step@ == next_step(exchange@, response@),
{
    let ResponseDigest { status, headers, body } = response;
    let text = match text_of(body) {
        Some(text) => text,
        None => {
            return Step::Done(
                Err(Error::TransportError("response body is not valid UTF-8".to_owned())),
            );
        },
    };
    proof {
        encode_utf8_decode_utf8(text@);
    }
    let sent_on = match exchange.method {
        Method::Get => true,
        Method::Post => true,
        Method::Delete => false,
    };
    if sent_on && (status == 301 || status == 302) {
        redirect(exchange, &headers)
    } else {
        Step::Done(Ok(text))
    }
}

/// A DELETE is never sent on: whatever the status, a response with a UTF-8
/// body ends the request with that body.
pub proof fn law_delete_ends(exchange: ExchangeView, response: ResponseView)
    requires
        exchange.method == Method::Delete,
        valid_utf8(response.body),
    ensures
        next_step(exchange, response) == StepView::Done(Ok(decode_utf8(response.body))),
{
}

/// A request is sent on only while it was sent on fewer than `MAX_REDIRECTS`
/// times, and is then counted as sent on once more.
pub proof fn law_hops_bounded(exchange: ExchangeView, response: ResponseView)
    ensures
        next_step(exchange, response) matches StepView::Follow(next) ==> exchange.hops
            < MAX_REDIRECTS && next.hops == exchange.hops + 1 && next.method == exchange.method
            && next.body == exchange.body && target_domain(next.url) == Some(next.domain)
            && next.domain.len() > 0,
{
}

} // verus!
