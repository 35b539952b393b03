use std::cell::RefCell;

use hyper_ex::exchange::MAX_REDIRECTS;
use hyper_ex::{Client, Cookie, Error, HeaderField, Method, Request, ResponseDigest, Transport};

struct Answer {
    url: String,
    status: u16,
    headers: Vec<(String, Vec<Vec<u8>>)>,
    body: Vec<u8>,
}

struct Sent {
    method: Method,
    url: String,
    body: Option<String>,
    cookies: Vec<Cookie>,
}

struct Scripted {
    answers: Vec<Answer>,
    sent: RefCell<Vec<Sent>>,
}

impl Transport for Scripted {
    fn send(&self, request: &Request) -> Result<ResponseDigest, String> {
        self.sent.borrow_mut().push(Sent {
            method: request.method,
            url: request.url.clone(),
            body: request.body.clone(),
            cookies: request.cookies.clone(),
        });
        for answer in self.answers.iter() {
            if answer.url == request.url {
                return Ok(ResponseDigest {
                    status: answer.status,
                    headers: answer
                        .headers
                        .iter()
                        .map(|(n, v)| HeaderField { name: n.clone(), values: v.clone() })
                        .collect(),
                    body: answer.body.clone(),
                });
            }
        }
        Err(format!("connection refused: {}", request.url))
    }
}

fn answer(url: &str, status: u16, headers: &[(&str, &[&str])], body: &str) -> Answer {
    Answer {
        url: url.to_string(),
        status: status,
        headers: headers
            .iter()
            .map(|(n, v)| (n.to_string(), v.iter().map(|x| x.as_bytes().to_vec()).collect()))
            .collect(),
        body: body.as_bytes().to_vec(),
    }
}

fn client(answers: Vec<Answer>) -> Client<Scripted> {
    Client::new(Scripted { answers: answers, sent: RefCell::new(vec![]) })
}

fn cookie(name: &str, value: &str, domain: &str) -> Cookie {
    Cookie {
        name: name.to_string(),
        value: value.to_string(),
        domain: Some(domain.to_string()),
        path: None,
    }
}

#[test]
fn test_client() {
    let mut client = client(vec![answer("http://google.com", 200, &[], "<html></html>")]);
    client.change_useragent("Mozilla/5.0 (Macintosh; Intel Mac OS X 10_11_0) AppleWebKit/537.36 \
                             (KHTML, like Gecko) Chrome/46.0.2490.80 Safari/537.36"
                                .to_owned());
    let body = client.get_body("http://google.com").unwrap();
    println!("{}", body);
    let body = client.post_body("http://google.com", "data").unwrap();
    println!("{}", body);
}

#[test]
fn plain_answer_gives_its_body() {
    let mut client = client(vec![answer("http://a.example/", 200, &[], "hello")]);
    assert_eq!(client.get_body("http://a.example/"), Ok("hello".to_string()));
    let sent = client.transport().sent.borrow();
    assert_eq!(sent.len(), 1);
    assert_eq!(sent[0].method, Method::Get);
    assert_eq!(sent[0].url, "http://a.example/");
    assert_eq!(sent[0].body, None);
}

#[test]
fn statuses_other_than_redirects_end_the_request() {
    let mut client = client(vec![
        answer("http://a.example/missing", 404, &[("Location", &["http://b.example/"])], "gone"),
        answer("http://a.example/other", 303, &[("Location", &["http://b.example/"])], "see"),
    ]);
    assert_eq!(client.get_body("http://a.example/missing"), Ok("gone".to_string()));
    assert_eq!(client.get_body("http://a.example/other"), Ok("see".to_string()));
    assert_eq!(client.transport().sent.borrow().len(), 2);
}

#[test]
fn redirect_is_followed_and_both_hops_issue_cookies() {
    let mut client = client(vec![
        answer(
            "https://a.example/",
            302,
            &[("Location", &["https://b.example/x"]), ("Set-Cookie", &["sid=one", "hop=first"])],
            "moved",
        ),
        answer("https://b.example/x", 200, &[("Set-Cookie", &["sid=two"])], "final"),
    ]);
    assert_eq!(client.get_body("https://a.example/"), Ok("final".to_string()));
    assert_eq!(
        client.get_cookies(),
        vec![cookie("sid", "two", "b.example"), cookie("hop", "first", "a.example")]
    );
    let sent = client.transport().sent.borrow();
    assert_eq!(sent.len(), 2);
    assert_eq!(sent[0].url, "https://a.example/");
    assert_eq!(sent[0].cookies, Vec::<Cookie>::new());
    assert_eq!(sent[1].url, "https://b.example/x");
    assert_eq!(
        sent[1].cookies,
        vec![cookie("sid", "one", "a.example"), cookie("hop", "first", "a.example")]
    );
}

#[test]
fn permanent_redirect_is_followed_too() {
    let mut client = client(vec![
        answer("http://a.example/", 301, &[("location", &["http://b.example/"])], ""),
        answer("http://b.example/", 200, &[], "there"),
    ]);
    assert_eq!(client.get_body("http://a.example/"), Ok("there".to_string()));
}

#[test]
fn post_is_sent_on_with_its_body() {
    let mut client = client(vec![
        answer("http://a.example/form", 302, &[("Location", &["http://b.example/form"])], ""),
        answer("http://b.example/form", 200, &[], "stored"),
    ]);
    assert_eq!(client.post_body("http://a.example/form", "k=v"), Ok("stored".to_string()));
    let sent = client.transport().sent.borrow();
    assert_eq!(sent.len(), 2);
    assert_eq!(sent[0].method, Method::Post);
    assert_eq!(sent[0].body, Some("k=v".to_string()));
    assert_eq!(sent[1].method, Method::Post);
    assert_eq!(sent[1].url, "http://b.example/form");
    assert_eq!(sent[1].body, Some("k=v".to_string()));
}

#[test]
fn delete_returns_the_redirect_body() {
    let mut client = client(vec![
        answer(
            "http://a.example/item",
            301,
            &[("Location", &["http://b.example/item"]), ("Set-Cookie", &["seen=1"])],
            "moved permanently",
        ),
        answer("http://b.example/item", 200, &[], "deleted"),
    ]);
    assert_eq!(client.delete("http://a.example/item"), Ok("moved permanently".to_string()));
    let sent = client.transport().sent.borrow();
    assert_eq!(sent.len(), 1);
    assert_eq!(sent[0].method, Method::Delete);
    assert_eq!(client.get_cookies(), vec![cookie("seen", "1", "a.example")]);
}

#[test]
fn delete_returns_a_found_body_too() {
    let mut client =
        client(vec![answer("http://a.example/item", 302, &[], "found elsewhere")]);
    assert_eq!(client.delete("http://a.example/item"), Ok("found elsewhere".to_string()));
}

#[test]
fn malformed_url_is_refused_and_nothing_is_sent() {
    let mut client = client(vec![answer("not a url", 200, &[], "never")]);
    client.set_cookie("id".to_string(), "42".to_string(), "a.example".to_string(), "/".to_string());
    assert_eq!(client.get_body("not a url"), Err(Error::UrlError));
    assert_eq!(client.post_body("not a url", "data"), Err(Error::UrlError));
    assert_eq!(client.delete("not a url"), Err(Error::UrlError));
    assert_eq!(client.transport().sent.borrow().len(), 0);
    assert_eq!(client.get_cookies().len(), 1);
}

#[test]
fn url_without_a_domain_is_refused() {
    let mut client = client(vec![]);
    assert_eq!(client.get_body("example.com/path"), Err(Error::UrlError));
    assert_eq!(client.get_body("/path"), Err(Error::UrlError));
    assert_eq!(client.get_body(""), Err(Error::UrlError));
    assert_eq!(client.get_body("mailto:someone@a.example"), Err(Error::UrlError));
    assert_eq!(client.get_body("http://[::1]/"), Err(Error::UrlError));
    assert_eq!(client.transport().sent.borrow().len(), 0);
}

#[test]
fn url_with_the_empty_domain_is_refused() {
    let mut client = client(vec![
        answer("file:///tmp/x", 200, &[("Set-Cookie", &["a=1"])], "never"),
        answer("data:text/plain,hi", 200, &[], "never"),
    ]);
    client.set_header("Accept", "*/*");
    client.set_cookie("id".to_string(), "42".to_string(), "a.example".to_string(), "/".to_string());
    let jar = client.get_cookies();
    assert_eq!(client.get_body("file:///tmp/x"), Err(Error::UrlError));
    assert_eq!(client.get_body("data:text/plain,hi"), Err(Error::UrlError));
    assert_eq!(client.post_body("file:///tmp/x", "d"), Err(Error::UrlError));
    assert_eq!(client.delete("file:/tmp/x"), Err(Error::UrlError));
    assert_eq!(client.transport().sent.borrow().len(), 0);
    assert_eq!(client.get_cookies(), jar);
}

#[test]
fn url_that_the_parser_cannot_take_is_refused() {
    let mut client = client(vec![]);
    assert_eq!(client.get_body("http://%C2%AD/"), Err(Error::UrlError));
    assert_eq!(client.get_body("http://\u{ad}/"), Err(Error::UrlError));
    assert_eq!(client.post_body("http://\u{10ffff}/", "d"), Err(Error::UrlError));
    assert_eq!(client.delete("http://%F4%8F%BF%BF/"), Err(Error::UrlError));
    assert_eq!(client.get_body("http://xn--bcher-kva.example/"), Err(Error::UrlError));
    assert_eq!(client.transport().sent.borrow().len(), 0);
}

#[test]
fn redirect_to_a_url_that_the_parser_cannot_take_fails() {
    for location in ["http://%C2%AD/", "http://\u{10ffff}/", "http://xn--a.example/", "file:///x"] {
        let mut client = client(vec![Answer {
            url: "http://a.example/".to_string(),
            status: 302,
            headers: vec![
                ("Location".to_string(), vec![location.as_bytes().to_vec()]),
                ("Set-Cookie".to_string(), vec![b"a=1".to_vec()]),
            ],
            body: vec![],
        }]);
        assert_eq!(client.get_body("http://a.example/"), Err(Error::UrlError));
        assert_eq!(client.transport().sent.borrow().len(), 1);
        assert_eq!(client.get_cookies(), vec![cookie("a", "1", "a.example")]);
    }
}

#[test]
fn transport_failure_is_handed_on() {
    let mut client = client(vec![]);
    client.set_cookie("id".to_string(), "42".to_string(), "a.example".to_string(), "/".to_string());
    assert_eq!(
        client.get_body("http://down.example/"),
        Err(Error::TransportError("connection refused: http://down.example/".to_string()))
    );
    assert_eq!(client.transport().sent.borrow().len(), 1);
    assert_eq!(client.get_cookies().len(), 1);
}

#[test]
fn transport_failure_after_a_redirect_keeps_the_first_hop_cookies() {
    let mut client = client(vec![answer(
        "http://a.example/",
        302,
        &[("Location", &["http://down.example/"]), ("Set-Cookie", &["a=1"])],
        "",
    )]);
    assert_eq!(
        client.get_body("http://a.example/"),
        Err(Error::TransportError("connection refused: http://down.example/".to_string()))
    );
    assert_eq!(client.get_cookies(), vec![cookie("a", "1", "a.example")]);
}

#[test]
fn body_that_is_not_text_fails_the_request() {
    let mut client = client(vec![Answer {
        url: "http://a.example/".to_string(),
        status: 200,
        headers: vec![("Set-Cookie".to_string(), vec![b"a=1".to_vec()])],
        body: vec![0x66, 0xff, 0x6f],
    }]);
    assert_eq!(
        client.get_body("http://a.example/"),
        Err(Error::TransportError("response body is not valid UTF-8".to_string()))
    );
    assert_eq!(client.get_cookies(), vec![cookie("a", "1", "a.example")]);
}

#[test]
fn body_text_is_decoded_from_utf8() {
    let mut client = client(vec![answer("http://a.example/", 200, &[], "grüße, 世界")]);
    assert_eq!(client.get_body("http://a.example/"), Ok("grüße, 世界".to_string()));
}

#[test]
fn redirect_without_location_fails() {
    let mut client =
        client(vec![answer("http://a.example/", 302, &[("Set-Cookie", &["a=1"])], "x")]);
    assert_eq!(client.get_body("http://a.example/"), Err(Error::RedirectDecodeError));
    assert_eq!(client.transport().sent.borrow().len(), 1);
    assert_eq!(client.get_cookies(), vec![cookie("a", "1", "a.example")]);
}

#[test]
fn redirect_with_an_empty_location_field_fails() {
    let mut client = client(vec![answer("http://a.example/", 301, &[("Location", &[])], "x")]);
    assert_eq!(client.post_body("http://a.example/", "d"), Err(Error::RedirectDecodeError));
}

#[test]
fn redirect_with_a_location_that_is_not_text_fails() {
    let mut client = client(vec![Answer {
        url: "http://a.example/".to_string(),
        status: 302,
        headers: vec![("Location".to_string(), vec![vec![0x68, 0x74, 0xc3, 0x28]])],
        body: vec![],
    }]);
    assert_eq!(client.get_body("http://a.example/"), Err(Error::RedirectDecodeError));
    assert_eq!(client.transport().sent.borrow().len(), 1);
}

#[test]
fn redirect_goes_to_the_first_location() {
    let mut client = client(vec![
        answer(
            "http://a.example/",
            302,
            &[("Location", &["http://first.example/", "http://second.example/"])],
            "",
        ),
        answer("http://first.example/", 200, &[], "first"),
        answer("http://second.example/", 200, &[], "second"),
    ]);
    assert_eq!(client.get_body("http://a.example/"), Ok("first".to_string()));
}

#[test]
fn redirect_to_a_url_without_domain_fails() {
    let mut client = client(vec![
        answer("http://a.example/", 302, &[("Location", &["/next"])], ""),
        answer("/next", 200, &[], "never"),
    ]);
    assert_eq!(client.get_body("http://a.example/"), Err(Error::UrlError));
    assert_eq!(client.transport().sent.borrow().len(), 1);
}

#[test]
fn redirect_cycle_ends_with_too_many_redirects() {
    let mut client = client(vec![
        answer("http://a.example/", 302, &[("Location", &["http://b.example/"])], ""),
        answer("http://b.example/", 302, &[("Location", &["http://a.example/"])], ""),
    ]);
    assert_eq!(client.get_body("http://a.example/"), Err(Error::TooManyRedirectsError));
    assert_eq!(client.transport().sent.borrow().len(), 11);
    assert_eq!(MAX_REDIRECTS, 10);
}

#[test]
fn as_many_redirects_as_allowed_are_followed() {
    let mut answers = vec![];
    for i in 0..10 {
        let target = format!("http://h{}.example/", i + 1);
        answers.push(Answer {
            url: format!("http://h{}.example/", i),
            status: 302,
            headers: vec![("Location".to_string(), vec![target.into_bytes()])],
            body: vec![],
        });
    }
    answers.push(answer("http://h10.example/", 200, &[], "end of the road"));
    let mut client = client(answers);
    assert_eq!(client.post_body("http://h0.example/", "x"), Ok("end of the road".to_string()));
    assert_eq!(client.transport().sent.borrow().len(), 11);
}

#[test]
fn one_redirect_more_than_allowed_fails() {
    let mut answers = vec![];
    for i in 0..11 {
        let target = format!("http://h{}.example/", i + 1);
        answers.push(Answer {
            url: format!("http://h{}.example/", i),
            status: 301,
            headers: vec![("Location".to_string(), vec![target.into_bytes()])],
            body: vec![],
        });
    }
    answers.push(answer("http://h11.example/", 200, &[], "too far"));
    let mut client = client(answers);
    assert_eq!(client.get_body("http://h0.example/"), Err(Error::TooManyRedirectsError));
    assert_eq!(client.transport().sent.borrow().len(), 11);
}

#[test]
fn cookies_count_for_the_domain_of_their_hop() {
    let mut client = client(vec![
        answer(
            "http://a.example/",
            302,
            &[("Location", &["http://b.example/"]), ("Set-Cookie", &["first=1"])],
            "",
        ),
        answer("http://b.example/", 200, &[("Set-Cookie", &["second=2; Domain=c.example"])], "ok"),
    ]);
    assert_eq!(client.get_body("http://a.example/"), Ok("ok".to_string()));
    assert_eq!(
        client.get_cookies(),
        vec![cookie("second", "2", "c.example"), cookie("first", "1", "a.example")]
    );
}

#[test]
fn cookies_of_one_request_go_out_with_the_next() {
    let mut client = client(vec![
        answer("http://a.example/login", 200, &[("Set-Cookie", &["sid=s3cr3t; Path=/"])], "in"),
        answer("http://a.example/home", 200, &[], "home"),
    ]);
    assert_eq!(client.post_body("http://a.example/login", "u=me"), Ok("in".to_string()));
    assert_eq!(client.get_body("http://a.example/home"), Ok("home".to_string()));
    let sent = client.transport().sent.borrow();
    assert_eq!(sent[0].cookies, Vec::<Cookie>::new());
    assert_eq!(
        sent[1].cookies,
        vec![Cookie {
            name: "sid".to_string(),
            value: "s3cr3t".to_string(),
            domain: Some("a.example".to_string()),
            path: Some("/".to_string()),
        }]
    );
}
