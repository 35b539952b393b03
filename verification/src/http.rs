//! The client: the header fields and the cookies of one session, and the
//! requests made with them.
//!
//! The client does no input or output of its own. It hands each request to a
//! [`Transport`] and takes in what comes back: the cookies of every response
//! enter the jar before the next request leaves, and a redirect sends the
//! request on to its new URL. The transport must not follow redirects itself.

use crate::address::target_domain;
use crate::boundary::{
    cookie_entries,
    copy_of,
    fresh_fields,
    held,
    new_pair,
    no_fields,
    put_raw,
    read_cookie_header,
    read_set_cookie,
    set_cookie_entries,
};
use crate::exchange::{
    begin,
    beginning,
    is_redirect,
    str_view,
    decide,
    follows_redirects,
    next_step,
    outcome_view,
    Error,
    ErrorView,
    Exchange,
    ExchangeView,
    Method,
    Request,
    RequestView,
    ResponseDigest,
    ResponseView,
    Step,
    StepView,
    MAX_REDIRECTS,
};
use crate::header::{
    fields_view,
    folded,
    names_match,
    raw_values,
    same_name,
    values_of,
    values_view,
    FieldView,
    HeaderField,
};
use crate::jar::{
    copy_cookies,
    copy_text,
    domains_set,
    jar_view,
    law_domains_stay_set,
    law_names_stay_distinct,
    lemma_none_stays,
    merge_cookies,
    merged,
    names_distinct,
    Cookie,
    CookieView,
};
pub use crate::encoding::encode_uri_component;
use vstd::prelude::*;
use vstd::string::StrSliceExecFns;
use vstd::utf8::*;

verus! {

/// What sends a request and hands back the response. Nothing is asked of an
/// implementation but that it returns; what an implementation promises of its
/// answers, the client's requests promise of theirs.
pub trait Transport {
    /// Sends one request. `Err` says why no response came back.
    fn send(&self, request: &Request) -> Result<ResponseDigest, String>;
}

/// One hop of a logical request: the request that left, and what the
/// transport answered.
pub struct Hop {
    pub request: Request,
    pub outcome: Result<ResponseDigest, String>,
}

/// The header fields and the cookies of a session, with the transport that
/// its requests go through.
pub struct Client<T: Transport> {
    transport: T,
    fields: hyper::header::Headers,
    cookies: Vec<Cookie>,
}

/// What a [`Client`] stands for in contracts: the raw values of its header
/// fields, each under its name as `folded` gives it, and its cookies.
pub struct ClientView {
    pub fields: Map<Seq<u8>, Seq<Seq<u8>>>,
    pub jar: Seq<CookieView>,
}

impl<T: Transport> View for Client<T> {
    type V = ClientView;

    closed spec fn view(&self) -> ClientView {
        ClientView { fields: held(self.fields), jar: jar_view(self.cookies@) }
    }
}

/// Whether the fields are those of a client: each holds one value, one is
/// the `User-Agent`, and none is the `Cookie` header, which is the jar.
pub open spec fn fields_valid(fields: Map<Seq<u8>, Seq<Seq<u8>>>) -> bool {
    &&& fields.contains_key(folded("User-Agent"@))
    &&& !fields.contains_key(folded("Cookie"@))
    &&& forall|name: Seq<u8>| fields.contains_key(name) ==> (#[trigger] fields[name]).len() == 1
}

/// The cookies that the headers of a response issue: what hyper reads out
/// of the raw values of `Set-Cookie`, and none where there is no such value
/// or hyper reads none.
pub open spec fn issued_by(headers: Seq<FieldView>) -> Seq<CookieView> {
    let raw = values_of(headers, "Set-Cookie"@);
    if raw.len() == 0 {
        Seq::empty()
    } else {
        match set_cookie_entries(raw) {
            Some(list) => list,
            None => Seq::empty(),
        }
    }
}

/// The client after a header is set. Under any name but `Cookie` the value
/// is held as the only raw value of the name. Under the name `Cookie` the
/// jar becomes the cookies that the value lists; a value that hyper cannot
/// read as such a list changes nothing.
pub open spec fn header_set(state: ClientView, name: Seq<char>, value: Seq<char>) -> ClientView {
    if same_name(name, "Cookie"@) {
        match cookie_entries(seq![encode_utf8(value)]) {
            Some(list) => ClientView { jar: list, ..state },
            None => state,
        }
    } else {
        ClientView {
            fields: state.fields.insert(folded(name), seq![encode_utf8(value)]),
            ..state
        }
    }
}

/// The cookie that `set_cookie` issues.
pub open spec fn seeded(
    name: Seq<char>,
    value: Seq<char>,
    domain: Seq<char>,
    path: Seq<char>,
) -> CookieView {
    CookieView { name: name, value: value, domain: Some(domain), path: Some(path) }
}

/// What an outcome of the transport stands for in contracts.
pub open spec fn arrival_view(outcome: Result<ResponseDigest, String>) -> Result<
    ResponseView,
    Seq<char>,
> {
    match outcome {
        Ok(response) => Ok(response@),
        Err(cause) => Err(cause@),
    }
}

/// The client and the step after an outcome of the transport. A response
/// has its cookies taken into the jar for the domain of the exchange,
/// whatever its status, and `next_step` says what follows. A failure of the
/// transport leaves the client as it was and ends the request.
pub open spec fn absorbed(
    state: ClientView,
    exchange: ExchangeView,
    outcome: Result<ResponseView, Seq<char>>,
) -> (ClientView, StepView) {
    match outcome {
        Ok(response) => (
            ClientView {
                jar: merged(state.jar, issued_by(response.headers), exchange.domain),
                ..state
            },
            next_step(exchange, response),
        ),
        Err(cause) => (state, StepView::Done(Err(ErrorView::TransportError(cause)))),
    }
}

/// The client and the exchange after the transport's outcomes were taken in
/// one after the other and each of them sent the request on; `None` where
/// one of them ended the request.
pub open spec fn followed(
    state: ClientView,
    exchange: ExchangeView,
    arrivals: Seq<Result<ResponseView, Seq<char>>>,
) -> Option<(ClientView, ExchangeView)>
    decreases arrivals.len(),
{
    if arrivals.len() == 0 {
        Some((state, exchange))
    } else {
        match followed(state, exchange, arrivals.drop_last()) {
            Some((s, e)) => match absorbed(s, e, arrivals.last()).1 {
                StepView::Follow(next) => Some((absorbed(s, e, arrivals.last()).0, next)),
                StepView::Done(_) => None,
            },
            None => None,
        }
    }
}

/// Whether a logical request that took in `arrivals`, each of which sent it
/// on, and then `last` ended there with the client `after` and the result
/// `out`.
pub open spec fn concluded(
    before: ClientView,
    first: ExchangeView,
    arrivals: Seq<Result<ResponseView, Seq<char>>>,
    last: Result<ResponseView, Seq<char>>,
    after: ClientView,
    out: Result<Seq<char>, ErrorView>,
) -> bool {
    match followed(before, first, arrivals) {
        Some((s, e)) => absorbed(s, e, last) == (after, StepView::Done(out)),
        None => false,
    }
}

/// Whether a logical request can have gone from the client `before` to the
/// client `after` and the result `out`. Where the URL names no domain the
/// client is as it was and the result is `UrlError`. Otherwise there are
/// outcomes of the transport, one for the first request and one for each of
/// at most `MAX_REDIRECTS` times that the request was sent on, which taken in
/// hop by hop give that client and that result.
pub open spec fn explained(
    before: ClientView,
    method: Method,
    url: Seq<char>,
    body: Option<Seq<char>>,
    after: ClientView,
    out: Result<Seq<char>, ErrorView>,
) -> bool {
    match beginning(method, url, body) {
        Ok(first) => exists|
            arrivals: Seq<Result<ResponseView, Seq<char>>>,
            last: Result<ResponseView, Seq<char>>,
        |
            arrivals.len() <= MAX_REDIRECTS && #[trigger] concluded(
                before,
                first,
                arrivals,
                last,
                after,
                out,
            ),
        Err(e) => after == before && out == Err::<Seq<char>, ErrorView>(e),
    }
}

/// The request that an exchange asks for of a client: what the exchange
/// names, with the header fields and the cookies of the client.
pub open spec fn request_of(state: ClientView, exchange: ExchangeView) -> RequestView {
    RequestView {
        method: exchange.method,
        url: exchange.url,
        headers: state.fields,
        cookies: state.jar,
        body: exchange.body,
    }
}

/// Whether the outcome is one that the transport allows itself for the
/// request: what `send` of the transport promises of its result.
pub open spec fn answered<T: Transport>(
    transport: T,
    request: Request,
    outcome: Result<ResponseDigest, String>,
) -> bool {
    call_ensures(T::send, (&transport, &request), outcome)
}

/// The outcomes of the hops, in their order.
pub open spec fn arrivals_of(hops: Seq<Hop>) -> Seq<Result<ResponseView, Seq<char>>> {
    hops.map_values(|h: Hop| arrival_view(h.outcome))
}

/// Whether hop `i` went as it must: the hops before it each sent the request
/// on, its request is the one that the exchange then asked for of the client
/// as it then stood, and its outcome is the transport's answer to it.
pub open spec fn hop_sent<T: Transport>(
    transport: T,
    before: ClientView,
    first: ExchangeView,
    hops: Seq<Hop>,
    i: int,
) -> bool {
    match followed(before, first, arrivals_of(hops).take(i)) {
        Some((s, e)) => hops[i].request@ == request_of(s, e) && answered(
            transport,
            hops[i].request,
            hops[i].outcome,
        ),
        None => false,
    }
}

/// Whether a logical request went from the client `before` to the client
/// `after` and the result `out` by these hops. Where the URL names no domain
/// to go to there is no hop, the client is as it was and the result is
/// `UrlError`. Otherwise there are between one and `MAX_REDIRECTS` and one
/// hops, each went as it must, all but the last sent the request on, and the
/// last ended it with that client and that result.
pub open spec fn performed<T: Transport>(
    transport: T,
    before: ClientView,
    method: Method,
    url: Seq<char>,
    body: Option<Seq<char>>,
    hops: Seq<Hop>,
    after: ClientView,
    out: Result<Seq<char>, ErrorView>,
) -> bool {
    match beginning(method, url, body) {
        Ok(first) => {
            &&& 1 <= hops.len() <= MAX_REDIRECTS + 1
            &&& forall|i: int|
                0 <= i < hops.len() ==> #[trigger] hop_sent(transport, before, first, hops, i)
            &&& concluded(
                before,
                first,
                arrivals_of(hops).drop_last(),
                arrival_view(hops.last().outcome),
                after,
                out,
            )
        },
        Err(e) => hops.len() == 0 && after == before && out == Err::<Seq<char>, ErrorView>(e),
    }
}

/// Whether a logical request went from the client `before` to the client
/// `after` and the result `out`: by some hops it was `performed`.
pub open spec fn carried_out<T: Transport>(
    transport: T,
    before: ClientView,
    method: Method,
    url: Seq<char>,
    body: Option<Seq<char>>,
    after: ClientView,
    out: Result<Seq<char>, ErrorView>,
) -> bool {
    exists|hops: Seq<Hop>| #[trigger]
        performed(transport, before, method, url, body, hops, after, out)
}

/// `User-Agent` and `Cookie` are two header names.
proof fn lemma_user_agent_apart()
    ensures
        !same_name("User-Agent"@, "Cookie"@),
{
    reveal_strlit("User-Agent");
    reveal_strlit("Cookie");
    is_ascii_chars_encode_utf8("User-Agent"@);
    is_ascii_chars_encode_utf8("Cookie"@);
    assert(folded("User-Agent"@).len() == 10);
    assert(folded("Cookie"@).len() == 6);
}

impl<T: Transport> Client<T> {
    /// Whether the client is well formed: `fields_valid` of its fields.
    pub open spec fn wf(&self) -> bool {
        fields_valid(self@.fields)
    }

    /// The transport, as contracts speak of it.
    pub closed spec fn carrier(&self) -> T {
        self.transport
    }

    /// A client over the transport, with the user agent `hyper-ex` and no
    /// cookie.
    pub fn new(transport: T) -> (client: Client<T>)
        ensures
            client.wf(),
            client.carrier() == transport,
            client@.jar == Seq::<CookieView>::empty(),
            client@.fields == no_fields().insert(
                folded("User-Agent"@),
                seq![encode_utf8("hyper-ex"@)],
            ),
    {
        let mut fields = fresh_fields();
        put_raw(&mut fields, "User-Agent".to_owned(), "hyper-ex".as_bytes_vec());
        let client = Client { transport: transport, fields: fields, cookies: Vec::new() };
        proof {
            lemma_user_agent_apart();
            assert(client@.jar =~= Seq::<CookieView>::empty());
        }
        client
    }

    /// The transport.
    pub fn transport(&self) -> (transport: &T)
        ensures
            *transport == self.carrier(),
    {
        &self.transport
    }

    /// Sets a header: `header_set` of the client, the name and the value.
    pub fn set_header(&mut self, name: &str, value: &str)
        requires
            old(self).wf(),
        ensures
            final(self).wf(),
            final(self).carrier() == old(self).carrier(),
            final(self)@ == header_set(old(self)@, name@, value@),
    {
        let bytes = value.as_bytes_vec();
        if names_match(name, "Cookie") {
            let mut raw: Vec<Vec<u8>> = Vec::new();
            raw.push(bytes);
            assert(values_view(raw@) =~= seq![encode_utf8(value@)]);
            match read_cookie_header(&raw) {
                Some(list) => {
                    self.cookies = list;
                },
                None => {},
            }
        } else {
            put_raw(&mut self.fields, name.to_owned(), bytes);
        }
    }

    /// Sets the user agent: its text becomes the only value of `User-Agent`.
    pub fn change_useragent(&mut self, useragent: String)
        requires
            old(self).wf(),
        ensures
            final(self).wf(),
            final(self).carrier() == old(self).carrier(),
            final(self)@ == (ClientView {
                fields: old(self)@.fields.insert(
                    folded("User-Agent"@),
                    seq![encode_utf8(useragent@)],
                ),
                ..old(self)@
            }),
    {
        let bytes = useragent.as_str().as_bytes_vec();
        proof {
            lemma_user_agent_apart();
        }
        put_raw(&mut self.fields, "User-Agent".to_owned(), bytes);
    }

    /// A copy of the cookies, in the order of the jar.
    pub fn get_cookies(&self) -> (cookies: Vec<Cookie>)
        ensures
            jar_view(cookies@) == self@.jar,
    {
        copy_cookies(&self.cookies)
    }

    /// Puts a cookie into the jar as if a server had issued it alone, in
    /// answer to a request to its own domain.
    pub fn set_cookie(&mut self, name: String, value: String, domain: String, path: String)
        requires
            old(self).wf(),
        ensures
            final(self).wf(),
            final(self).carrier() == old(self).carrier(),
            final(self)@ == (ClientView {
                jar: merged(
                    old(self)@.jar,
                    seq![seeded(name@, value@, domain@, path@)],
                    domain@,
                ),
                ..old(self)@
            }),
    {
        let mut cookie = new_pair(name, value);
        cookie.path = Some(path);
        cookie.domain = Some(domain.clone());
        let mut issued: Vec<Cookie> = Vec::new();
        issued.push(cookie);
        assert(jar_view(issued@) =~= seq![seeded(name@, value@, domain@, path@)]);
        self.cookies = merge_cookies(&self.cookies, &issued, domain.as_str());
    }

    /// Takes the cookies of a response into the jar: the jar becomes
    /// `merged` of itself, the cookies that the headers issue and the domain.
    pub fn cookie_sync(&mut self, response_headers: &Vec<HeaderField>, domain: &str)
        requires
            old(self).wf(),
        ensures
            final(self).wf(),
            final(self).carrier() == old(self).carrier(),
            final(self)@ == (ClientView {
                jar: merged(old(self)@.jar, issued_by(fields_view(response_headers@)), domain@),
                ..old(self)@
            }),
    {
        let raw = raw_values(response_headers, "Set-Cookie");
        if raw.len() == 0 {
            return ;
        }
        match read_set_cookie(&raw) {
            Some(issued) => {
                self.cookies = merge_cookies(&self.cookies, &issued, domain);
            },
            None => {},
        }
    }

    /// The request that the exchange asks for next, with the headers and the
    /// cookies of the client as they stand.
    pub fn request(&self, exchange: &Exchange) -> (request: Request)
        ensures
            request@ == request_of(self@, exchange@),
    {
        Request {
            method: exchange.method,
            url: exchange.url.clone(),
            headers: copy_of(&self.fields),
            cookies: copy_cookies(&self.cookies),
            body: copy_text(&exchange.body),
        }
    }

    /// Takes in what the transport answered to the request of the exchange:
    /// `absorbed` of the client, the exchange and the outcome.
    pub fn absorb(&mut self, exchange: &Exchange, outcome: Result<ResponseDigest, String>) -> (step:
        Step)
        requires
            old(self).wf(),
        ensures
            final(self).wf(),
            final(self).carrier() == old(self).carrier(),
            (final(self)@, step@) == absorbed(old(self)@, exchange@, arrival_view(outcome)),
    {
        match outcome {
            Ok(response) => {
                self.cookie_sync(&response.headers, exchange.domain.as_str());
                decide(exchange, response)
            },
            Err(cause) => Step::Done(Err(Error::TransportError(cause))),
        }
    }

    /// Runs one logical request to its end.
    fn perform(&mut self, method: Method, url: &str, body: Option<&str>) -> (out: Result<
        String,
        Error,
    >)
        requires
            old(self).wf(),
        ensures
            final(self).wf(),
            final(self).carrier() == old(self).carrier(),
            carried_out(
                old(self).carrier(),
                old(self)@,
                method,
                url@,
                str_view(body),
                final(self)@,
                outcome_view(out),
            ),
            final(self)@.fields == old(self)@.fields,
            domains_set(old(self)@.jar) ==> domains_set(final(self)@.jar),
            method == Method::Delete && target_domain(url@) is Some ==> out is Ok || (
            out matches Err(e) && e is TransportError),
    {
        let ghost before = self@;
        let ghost none = Seq::<Hop>::empty();
        let mut exchange = match begin(method, url, body) {
            Ok(exchange) => exchange,
            Err(e) => {
                assert(performed(
                    self.carrier(),
                    before,
                    method,
                    url@,
                    str_view(body),
                    none,
                    before,
                    Err::<Seq<char>, ErrorView>(e@),
                ));
                return Err(e);
            },
        };
        let ghost first = exchange@;
        let ghost mut hops = none;
        assert(arrivals_of(hops) =~= Seq::empty());
        loop
            invariant
                self.wf(),
                self.carrier() == old(self).carrier(),
                self@.fields == before.fields,
                domains_set(before.jar) ==> domains_set(self@.jar),
                exchange.method == method,
                exchange.hops <= MAX_REDIRECTS,
                hops.len() == exchange.hops,
                followed(before, first, arrivals_of(hops)) == Some((self@, exchange@)),
                forall|i: int|
                    0 <= i < hops.len() ==> #[trigger] hop_sent(
                        self.carrier(),
                        before,
                        first,
                        hops,
                        i,
                    ),
                beginning(method, url@, str_view(body)) == Ok::<ExchangeView, ErrorView>(first),
                before == old(self)@,
            decreases MAX_REDIRECTS - exchange.hops,
        {
            let request = self.request(&exchange);
            let outcome = self.transport.send(&request);
            let ghost hop = Hop { request: request, outcome: outcome };
            let ghost longer = hops.push(hop);
            let ghost at = self@;
            proof {
                if outcome is Ok {
                    law_domains_stay_set(
                        self@.jar,
                        issued_by(outcome->Ok_0@.headers),
                        exchange@.domain,
                    );
                }
                assert(arrivals_of(longer).drop_last() =~= arrivals_of(hops));
                assert(arrivals_of(longer).last() == arrival_view(outcome));
                assert forall|i: int| 0 <= i < longer.len() implies #[trigger] hop_sent(
                    self.carrier(),
                    before,
                    first,
                    longer,
                    i,
                ) by {
                    if i < hops.len() {
                        assert(arrivals_of(longer).take(i) =~= arrivals_of(hops).take(i));
                        assert(hop_sent(self.carrier(), before, first, hops, i));
                    } else {
                        assert(arrivals_of(longer).take(i) =~= arrivals_of(hops));
                    }
                }
            }
            match self.absorb(&exchange, outcome) {
                Step::Done(out) => {
                    proof {
                        assert(longer.last() == hop);
                        assert(performed(
                            self.carrier(),
                            before,
                            method,
                            url@,
                            str_view(body),
                            longer,
                            self@,
                            outcome_view(out),
                        ));
                    }
                    return out;
                },
                Step::Follow(next) => {
                    proof {
                        assert(absorbed(at, exchange@, arrival_view(hop.outcome)) == (
                            self@,
                            StepView::Follow(next@),
                        ));
                        hops = longer;
                    }
                    exchange = next;
                },
            }
        }
    }

    /// The body of the answer to a GET of the URL, redirects followed.
    ///
    /// Fails with `UrlError`, and sends nothing, where the URL names no
    /// domain to go to. What else comes out lies with the transport: every
    /// request is the one that `request` gives, every outcome is the
    /// transport's answer to it and is taken in as `absorbed` says, and the
    /// step that ends the request is the result.
    pub fn get_body(&mut self, url: &str) -> (out: Result<String, Error>)
        requires
            old(self).wf(),
        ensures
            final(self).wf(),
            final(self)@.fields == old(self)@.fields,
            domains_set(old(self)@.jar) ==> domains_set(final(self)@.jar),
            final(self).carrier() == old(self).carrier(),
            carried_out(
                old(self).carrier(),
                old(self)@,
                Method::Get,
                url@,
                None::<Seq<char>>,
                final(self)@,
                outcome_view(out),
            ),
    {
        self.perform(Method::Get, url, None)
    }

    /// The body of the answer to a POST of the body to the URL, redirects
    /// followed with the same body.
    ///
    /// Fails with `UrlError`, and sends nothing, where the URL names no
    /// domain to go to. What else comes out lies with the transport, as for
    /// `get_body`.
    pub fn post_body(&mut self, url: &str, request_body: &str) -> (out: Result<String, Error>)
        requires
            old(self).wf(),
        ensures
            final(self).wf(),
            final(self)@.fields == old(self)@.fields,
            domains_set(old(self)@.jar) ==> domains_set(final(self)@.jar),
            final(self).carrier() == old(self).carrier(),
            carried_out(
                old(self).carrier(),
                old(self)@,
                Method::Post,
                url@,
                Some(request_body@),
                final(self)@,
                outcome_view(out),
            ),
    {
        self.perform(Method::Post, url, Some(request_body))
    }

    /// The body of the answer to a DELETE of the URL, whatever its status:
    /// no redirect is followed.
    ///
    /// Fails with `UrlError`, and sends nothing, where the URL names no
    /// domain to go to. Otherwise one request is sent, and it fails only
    /// where the transport does or the body of the answer is not UTF-8.
    pub fn delete(&mut self, url: &str) -> (out: Result<String, Error>)
        requires
            old(self).wf(),
        ensures
            final(self).wf(),
            final(self)@.fields == old(self)@.fields,
            domains_set(old(self)@.jar) ==> domains_set(final(self)@.jar),
            final(self).carrier() == old(self).carrier(),
            carried_out(
                old(self).carrier(),
                old(self)@,
                Method::Delete,
                url@,
                None::<Seq<char>>,
                final(self)@,
                outcome_view(out),
            ),
            target_domain(url@) is Some ==> out is Ok || (out matches Err(e)
                && e is TransportError),
    {
        self.perform(Method::Delete, url, None)
    }
}

/// A cookie put into an empty jar is then the jar.
pub proof fn law_first_cookie(
    name: Seq<char>,
    value: Seq<char>,
    domain: Seq<char>,
    path: Seq<char>,
)
    ensures
        merged(Seq::empty(), seq![seeded(name, value, domain, path)], domain) == seq![
            seeded(name, value, domain, path),
        ],
{
    let one = seq![seeded(name, value, domain, path)];
    lemma_none_stays(Seq::empty(), one);
    assert(merged(Seq::empty(), one, domain) =~= one);
}

/// What every outcome keeps of a client: its header fields; that every
/// cookie names a domain, where every cookie did; and that no two cookies
/// share a name, where none did and the response issued no name twice.
pub proof fn law_absorbed_keeps(
    state: ClientView,
    exchange: ExchangeView,
    outcome: Result<ResponseView, Seq<char>>,
)
    ensures
        absorbed(state, exchange, outcome).0.fields == state.fields,
        domains_set(state.jar) ==> domains_set(absorbed(state, exchange, outcome).0.jar),
        names_distinct(state.jar) && (outcome matches Ok(response) ==> names_distinct(
            issued_by(response.headers),
        )) ==> names_distinct(absorbed(state, exchange, outcome).0.jar),
{
    if let Ok(response) = outcome {
        law_domains_stay_set(state.jar, issued_by(response.headers), exchange.domain);
        if names_distinct(state.jar) && names_distinct(issued_by(response.headers)) {
            law_names_stay_distinct(state.jar, issued_by(response.headers), exchange.domain);
        }
    }
}

/// However often a request is sent on, it keeps its method and its body, the
/// client keeps its header fields, every cookie names a domain where every
/// cookie did, and the hops count the outcomes taken in.
pub proof fn law_followed_keeps(
    state: ClientView,
    exchange: ExchangeView,
    arrivals: Seq<Result<ResponseView, Seq<char>>>,
)
    ensures
        followed(state, exchange, arrivals) matches Some((s, e)) ==> {
            &&& s.fields == state.fields
            &&& domains_set(state.jar) ==> domains_set(s.jar)
            &&& e.method == exchange.method
            &&& e.body == exchange.body
            &&& e.hops == exchange.hops + arrivals.len()
            &&& e.hops <= MAX_REDIRECTS || arrivals.len() == 0
        },
    decreases arrivals.len(),
{
    if arrivals.len() > 0 {
        law_followed_keeps(state, exchange, arrivals.drop_last());
        if let Some((s, e)) = followed(state, exchange, arrivals.drop_last()) {
            law_absorbed_keeps(s, e, arrivals.last());
        }
    }
}

/// What every logical request keeps of a client, however it ends: its
/// header fields, and that every cookie names a domain, where every cookie
/// did.
pub proof fn law_explained_keeps(
    before: ClientView,
    method: Method,
    url: Seq<char>,
    body: Option<Seq<char>>,
    after: ClientView,
    out: Result<Seq<char>, ErrorView>,
)
    requires
        explained(before, method, url, body, after, out),
    ensures
        after.fields == before.fields,
        domains_set(before.jar) ==> domains_set(after.jar),
        target_domain(url) is None ==> after == before && out == Err::<Seq<char>, ErrorView>(
            ErrorView::UrlError,
        ),
{
    if let Ok(first) = beginning(method, url, body) {
        let (arrivals, last) = choose|
            arrivals: Seq<Result<ResponseView, Seq<char>>>,
            last: Result<ResponseView, Seq<char>>,
        |
            arrivals.len() <= MAX_REDIRECTS && #[trigger] concluded(
                before,
                first,
                arrivals,
                last,
                after,
                out,
            );
        law_followed_keeps(before, first, arrivals);
        let (s, e) = followed(before, first, arrivals)->Some_0;
        law_absorbed_keeps(s, e, last);
    }
}

/// A DELETE takes one hop: whatever the transport answers to its one
/// request ends it.
pub proof fn law_delete_takes_one_hop(
    before: ClientView,
    url: Seq<char>,
    body: Option<Seq<char>>,
    after: ClientView,
    out: Result<Seq<char>, ErrorView>,
)
    requires
        explained(before, Method::Delete, url, body, after, out),
        target_domain(url) is Some,
    ensures
        exists|last: Result<ResponseView, Seq<char>>| #[trigger]
            absorbed(before, beginning(Method::Delete, url, body)->Ok_0, last) == (
                after,
                StepView::Done(out),
            ),
{
    let first = beginning(Method::Delete, url, body)->Ok_0;
    let (arrivals, last) = choose|
        arrivals: Seq<Result<ResponseView, Seq<char>>>,
        last: Result<ResponseView, Seq<char>>,
    |
        arrivals.len() <= MAX_REDIRECTS && #[trigger] concluded(
            before,
            first,
            arrivals,
            last,
            after,
            out,
        );
    if arrivals.len() > 0 {
        law_followed_keeps(before, first, arrivals.drop_last());
        assert(followed(before, first, arrivals) is None);
    }
    assert(absorbed(before, first, last) == (after, StepView::Done(out)));
}

/// What was performed by hops is explained by their outcomes.
pub proof fn law_performed_explained<T: Transport>(
    transport: T,
    before: ClientView,
    method: Method,
    url: Seq<char>,
    body: Option<Seq<char>>,
    hops: Seq<Hop>,
    after: ClientView,
    out: Result<Seq<char>, ErrorView>,
)
    requires
        performed(transport, before, method, url, body, hops, after, out),
    ensures
        explained(before, method, url, body, after, out),
{
    if let Ok(first) = beginning(method, url, body) {
        assert(concluded(
            before,
            first,
            arrivals_of(hops).drop_last(),
            arrival_view(hops.last().outcome),
            after,
            out,
        ));
    }
}

/// A DELETE sends one request: the one that the client asks for as it
/// stands, to the URL given. What the transport answers to it ends the
/// request, whatever its status and wherever it points.
pub proof fn law_delete_sends_once<T: Transport>(
    transport: T,
    before: ClientView,
    url: Seq<char>,
    body: Option<Seq<char>>,
    hops: Seq<Hop>,
    after: ClientView,
    out: Result<Seq<char>, ErrorView>,
)
    requires
        performed(transport, before, Method::Delete, url, body, hops, after, out),
        target_domain(url) is Some,
    ensures
        hops.len() == 1,
        hops[0].request@ == request_of(before, beginning(Method::Delete, url, body)->Ok_0),
        hops[0].request@.method == Method::Delete,
        hops[0].request@.url == url,
        answered(transport, hops[0].request, hops[0].outcome),
        absorbed(
            before,
            beginning(Method::Delete, url, body)->Ok_0,
            arrival_view(hops[0].outcome),
        ) == (after, StepView::Done(out)),
{
    let first = beginning(Method::Delete, url, body)->Ok_0;
    let arrivals = arrivals_of(hops);
    assert(hop_sent(transport, before, first, hops, 0));
    assert(arrivals.take(0) =~= Seq::empty());
    if hops.len() > 1 {
        assert(hop_sent(transport, before, first, hops, 1));
        assert(arrivals.take(1).drop_last() =~= Seq::empty());
        assert(arrivals.take(1).last() == arrivals[0]);
        assert(followed(before, first, arrivals.take(1)) is None);
    }
    assert(arrivals.drop_last() =~= Seq::empty());
}

/// Two hops: where the transport answers the request to the URL with a
/// redirect to a second URL, and the request to the second URL with a
/// response that is no redirect, a GET or a POST takes exactly these two
/// hops. Its result is the body of the second answer, and the jar has taken
/// in the cookies of the first answer for the first domain and then those of
/// the second for the second, so that a name issued by both is held as the
/// second issued it.
pub proof fn law_two_hops<T: Transport>(
    transport: T,
    before: ClientView,
    method: Method,
    url: Seq<char>,
    body: Option<Seq<char>>,
    hops: Seq<Hop>,
    after: ClientView,
    out: Result<Seq<char>, ErrorView>,
    first_answer: ResponseView,
    second_url: Seq<char>,
    second_answer: ResponseView,
)
    requires
        performed(transport, before, method, url, body, hops, after, out),
        follows_redirects(method),
        target_domain(url) is Some,
        target_domain(second_url) is Some,
        forall|request: Request, outcome: Result<ResponseDigest, String>| #[trigger]
            answered(transport, request, outcome) && request@.url == url ==> arrival_view(outcome)
                == Ok::<ResponseView, Seq<char>>(first_answer),
        forall|request: Request, outcome: Result<ResponseDigest, String>| #[trigger]
            answered(transport, request, outcome) && request@.url == second_url ==> arrival_view(
                outcome,
            ) == Ok::<ResponseView, Seq<char>>(second_answer),
        is_redirect(first_answer.status),
        valid_utf8(first_answer.body),
        values_of(first_answer.headers, "Location"@).len() > 0,
        valid_utf8(values_of(first_answer.headers, "Location"@)[0]),
        decode_utf8(values_of(first_answer.headers, "Location"@)[0]) == second_url,
        !is_redirect(second_answer.status),
        valid_utf8(second_answer.body),
    ensures
        hops.len() == 2,
        hops[0].request@.url == url,
        hops[1].request@.url == second_url,
        hops[1].request@.cookies == merged(
            before.jar,
            issued_by(first_answer.headers),
            target_domain(url)->0,
        ),
        out == Ok::<Seq<char>, ErrorView>(decode_utf8(second_answer.body)),
        after.fields == before.fields,
        after.jar == merged(
            merged(before.jar, issued_by(first_answer.headers), target_domain(url)->0),
            issued_by(second_answer.headers),
            target_domain(second_url)->0,
        ),
{
    let first = beginning(method, url, body)->Ok_0;
    let arrivals = arrivals_of(hops);
    assert(hop_sent(transport, before, first, hops, 0));
    assert(arrivals.take(0) =~= Seq::empty());
    assert(answered(transport, hops[0].request, hops[0].outcome));
    assert(arrivals[0] == Ok::<ResponseView, Seq<char>>(first_answer));
    let (s1, step1) = absorbed(before, first, arrivals[0]);
    assert(step1 is Follow);
    let e1 = step1->Follow_0;
    if hops.len() == 1 {
        assert(arrivals.drop_last() =~= Seq::empty());
        assert(hops.last() == hops[0]);
    }
    assert(arrivals.take(1).drop_last() =~= Seq::empty());
    assert(arrivals.take(1).last() == arrivals[0]);
    assert(followed(before, first, arrivals.take(1)) == Some((s1, e1)));
    assert(hop_sent(transport, before, first, hops, 1));
    assert(answered(transport, hops[1].request, hops[1].outcome));
    assert(arrivals[1] == Ok::<ResponseView, Seq<char>>(second_answer));
    let (s2, step2) = absorbed(s1, e1, arrivals[1]);
    assert(step2 is Done);
    if hops.len() > 2 {
        assert(hop_sent(transport, before, first, hops, 2));
        assert(arrivals.take(2).drop_last() =~= arrivals.take(1));
        assert(arrivals.take(2).last() == arrivals[1]);
        assert(followed(before, first, arrivals.take(2)) is None);
    }
    assert(arrivals.drop_last() =~= arrivals.take(1));
    assert(hops.last() == hops[1]);
}

/// A header set under any name but `Cookie` is afterwards held under that
/// name with the given value alone, and under every other name the client
/// holds what it held; its cookies are as they were.
pub proof fn law_header_overwrites(
    state: ClientView,
    name: Seq<char>,
    value: Seq<char>,
    other: Seq<char>,
)
    requires
        !same_name(name, "Cookie"@),
        !same_name(other, name),
    ensures
        header_set(state, name, value).fields[folded(name)] == seq![encode_utf8(value)],
        header_set(state, name, value).fields.contains_key(folded(name)),
        header_set(state, name, value).fields.contains_key(folded(other))
            == state.fields.contains_key(folded(other)),
        header_set(state, name, value).fields[folded(other)] == state.fields[folded(other)],
        header_set(state, name, value).jar == state.jar,
{
}

/// A client always sends exactly one user agent.
pub proof fn law_one_user_agent(fields: Map<Seq<u8>, Seq<Seq<u8>>>)
    requires
        fields_valid(fields),
    ensures
        fields.contains_key(folded("User-Agent"@)),
        fields[folded("User-Agent"@)].len() == 1,
{
}

} // verus!
