//! Redirects and cookies.

use http::{HeaderMap, HeaderValue};
use iroh::SecretKey;
use iroh_h3_client::error::Error;
use iroh_h3_client::middleware::cookie_jar::{cookie_header, set_cookie_field, CookieJar};
use iroh_h3_client::middleware::follow_redirects::{FollowRedirects, Hop, RedirectChase};
use iroh_h3_client::peer::PeerId;
use iroh_h3_client::request::{Body, Method, Request, RequestBuilder};
use iroh_h3_client::uri::Uri;

fn redirect_to(location: &[u8]) -> HeaderMap<HeaderValue> {
    let mut headers = HeaderMap::new();
    headers.insert("location", HeaderValue::from_bytes(location).unwrap());
    headers
}

fn upload() -> Request {
    RequestBuilder::new(Method::Post, "iroh+h3://a/upload")
        .header("content-length", b"4")
        .header("x-kept", b"yes")
        .text("data")
        .unwrap()
}

fn resend(hop: Result<Hop, Error>) -> (RedirectChase, Request) {
    match hop {
        Ok(Hop::Resend(chase, request)) => (chase, request),
        Ok(Hop::Deliver) => panic!("delivered"),
        Err(error) => panic!("{:?}", error),
    }
}

fn message(hop: Result<Hop, Error>) -> String {
    match hop {
        Err(Error::Other(text)) => text,
        _ => panic!("no message"),
    }
}

#[test]
fn other_statuses_are_delivered() {
    let middleware = FollowRedirects::new(0);
    assert_eq!(middleware.max_redirects, 0);
    for status in [200, 204, 300, 304, 305, 306, 309, 404, 500] {
        let (chase, sent) = middleware.begin(upload());
        assert_eq!(sent.head.uri.as_str(), "iroh+h3://a/upload");
        assert_eq!(chase.followed(), 0);
        let hop = middleware.on_response(chase, status, &HeaderMap::new());
        assert!(matches!(hop, Ok(Hop::Deliver)), "{}", status);
    }
}

#[test]
fn redirects_that_drop_the_body() {
    let middleware = FollowRedirects::new(1);
    for status in [301, 302, 303] {
        let (chase, _) = middleware.begin(upload());
        let hop = middleware.on_response(chase, status, &redirect_to(b"iroh+h3://b/other"));
        let (chase, request) = resend(hop);
        assert_eq!(chase.followed(), 1);
        assert_eq!(request.head.method.as_str(), "GET");
        assert_eq!(request.head.uri.as_str(), "iroh+h3://b/other");
        assert_eq!(request.head.uri.authority(), Some("b"));
        assert_eq!(request.head.headers.get("content-type"), None);
        assert_eq!(request.head.headers.get("content-length"), None);
        assert_eq!(request.head.headers.get("x-kept").unwrap(), "yes");
        assert!(matches!(request.body, Body::Empty));
    }
}

#[test]
fn redirects_that_keep_the_body() {
    let middleware = FollowRedirects::new(5);
    for status in [307, 308] {
        let (mut chase, _) = middleware.begin(upload());
        for hop in 1..=3 {
            let target = format!("iroh+h3://b/{}", hop);
            let outcome = middleware.on_response(chase, status, &redirect_to(target.as_bytes()));
            let (next, request) = resend(outcome);
            assert_eq!(next.followed(), hop);
            assert_eq!(request.head.method.as_str(), "POST");
            assert_eq!(request.head.uri.as_str(), target);
            assert_eq!(
                request.head.headers.get("content-type").unwrap(),
                "text/plain; charset=utf-8"
            );
            assert_eq!(request.head.headers.get("content-length").unwrap(), "4");
            assert!(matches!(request.body, Body::Bytes(bytes) if bytes == b"data"));
            chase = next;
        }
        // A redirect that drops the body drops it for those that come after.
        let (chase, _) = resend(middleware.on_response(chase, 303, &redirect_to(b"/c")));
        let (_, request) = resend(middleware.on_response(chase, status, &redirect_to(b"/d")));
        assert_eq!(request.head.method.as_str(), "GET");
        assert!(matches!(request.body, Body::Empty));
    }
}

#[test]
fn too_many_redirects() {
    let middleware = FollowRedirects::new(12);
    let (mut chase, _) = middleware.begin(upload());
    for _ in 0..12 {
        chase = resend(middleware.on_response(chase, 302, &redirect_to(b"/again"))).0;
    }
    assert_eq!(chase.followed(), 12);
    let hop = middleware.on_response(chase, 302, &redirect_to(b"/again"));
    assert_eq!(message(hop), "Too many redirects (> 12)");

    let middleware = FollowRedirects::new(0);
    let (chase, _) = middleware.begin(upload());
    let hop = middleware.on_response(chase, 308, &HeaderMap::new());
    assert_eq!(message(hop), "Too many redirects (> 0)");
}

#[test]
fn redirects_without_a_target() {
    let middleware = FollowRedirects::new(3);
    let (chase, _) = middleware.begin(upload());
    let hop = middleware.on_response(chase, 301, &HeaderMap::new());
    assert_eq!(message(hop), "Redirect missing Location header");

    let (chase, _) = middleware.begin(upload());
    let hop = middleware.on_response(chase, 301, &redirect_to(b"/caf\xe9"));
    assert_eq!(message(hop), "Invalid Location header");

    let (chase, _) = middleware.begin(upload());
    let hop = middleware.on_response(chase, 301, &redirect_to(b"a b"));
    assert!(matches!(hop, Err(Error::Http(_))));

    let target = middleware.redirect_target(2, 307, &redirect_to(b"/x"));
    assert!(matches!(target, Ok(Some(text)) if text == "/x"));
    assert!(matches!(middleware.redirect_target(2, 200, &redirect_to(b"/x")), Ok(None)));
}

#[test]
fn streaming_bodies_are_not_sent_twice() {
    let middleware = FollowRedirects::new(3);
    let stream = || {
        RequestBuilder::new(Method::Put, "iroh+h3://a/").body(Body::Streaming).unwrap()
    };
    let (chase, sent) = middleware.begin(stream());
    assert!(matches!(sent.body, Body::Streaming));
    let hop = middleware.on_response(chase, 307, &redirect_to(b"/x"));
    assert_eq!(message(hop), "Cannot follow 307/308 redirect: body not cloneable");

    let (chase, _) = middleware.begin(stream());
    let (chase, _) = resend(middleware.on_response(chase, 303, &redirect_to(b"/x")));
    let hop = middleware.follow(chase, 308, Uri::parse("/y").unwrap());
    let (_, request) = resend(hop);
    assert_eq!(request.head.uri.as_str(), "/y");
    assert!(matches!(request.body, Body::Empty));
}

fn peer(seed: u8) -> PeerId {
    PeerId { bytes: *SecretKey::from_bytes(&[seed; 32]).public().as_bytes() }
}

fn request_to(seed: u8) -> Request {
    let id = SecretKey::from_bytes(&[seed; 32]).public();
    RequestBuilder::new(Method::Get, &format!("iroh+h3://{}/", id)).build().unwrap()
}

fn set_cookies(values: &[&[u8]]) -> HeaderMap<HeaderValue> {
    let mut headers = HeaderMap::new();
    for value in values {
        headers.append("set-cookie", HeaderValue::from_bytes(value).unwrap());
    }
    headers
}

/// The cookies that a jar attaches to a request to a peer, in order of their text.
fn attached(jar: &CookieJar, seed: u8) -> Vec<String> {
    let mut request = request_to(seed);
    let to = jar.attach(&mut request.head).unwrap();
    assert!(to.same_as(&peer(seed)));
    let mut cookies: Vec<String> = match request.head.headers.get("cookie") {
        Some(value) => value.to_str().unwrap().split("; ").map(str::to_owned).collect(),
        None => Vec::new(),
    };
    cookies.sort();
    cookies
}

#[test]
fn cookies_are_sent_back() {
    let mut jar = CookieJar::new();
    assert!(attached(&jar, 1).is_empty());
    jar.store(&peer(1), &set_cookies(&[b"a=1", b"b=2"]));
    assert_eq!(attached(&jar, 1), vec!["a=1", "b=2"]);
    jar.store(&peer(1), &set_cookies(&[b"a=3"]));
    assert_eq!(attached(&jar, 1), vec!["a=3", "b=2"]);
    jar.store(&peer(1), &HeaderMap::new());
    assert_eq!(attached(&jar, 1), vec!["a=3", "b=2"]);
}

#[test]
fn cookies_belong_to_their_peer() {
    let mut jar = CookieJar::new();
    jar.store(&peer(1), &set_cookies(&[b"a=1"]));
    jar.store(&peer(2), &set_cookies(&[b"a=2", b"c=3"]));
    assert_eq!(attached(&jar, 1), vec!["a=1"]);
    assert_eq!(attached(&jar, 2), vec!["a=2", "c=3"]);
    assert!(attached(&jar, 3).is_empty());
}

#[test]
fn last_cookie_of_a_name_counts() {
    let mut jar = CookieJar::new();
    jar.store(&peer(1), &set_cookies(&[b"a=1", b"b=2", b"a=4"]));
    assert_eq!(attached(&jar, 1), vec!["a=4", "b=2"]);
    jar.remember(&peer(1), "b".to_owned(), "b=5".to_owned());
    assert_eq!(attached(&jar, 1), vec!["a=4", "b=5"]);
}

#[test]
fn malformed_cookies_are_passed_over() {
    let mut jar = CookieJar::new();
    jar.store(&peer(1), &set_cookies(&[b"no cookie", b"=x", b"a=\xff", b"ok=1"]));
    assert_eq!(attached(&jar, 1), vec!["ok=1"]);
}

#[test]
fn cookies_are_written_encoded() {
    let mut jar = CookieJar::new();
    jar.store(&peer(1), &set_cookies(&[b"my%20name=a%3Bb"]));
    assert_eq!(attached(&jar, 1), vec!["my%20name=a%3Bb"]);
    jar.store(&peer(2), &set_cookies(&[b"a=1;path=/x"]));
    assert_eq!(attached(&jar, 2), vec!["Path=/x", "a=1"]);
}

#[test]
fn cookie_field_is_replaced() {
    let mut jar = CookieJar::new();
    jar.store(&peer(1), &set_cookies(&[b"a=1"]));
    let mut request = request_to(1);
    request.head.headers.append("cookie", HeaderValue::from_static("old=1"));
    request.head.headers.append("cookie", HeaderValue::from_static("old=2"));
    jar.attach(&mut request.head).unwrap();
    let values: Vec<_> = request.head.headers.get_all("cookie").iter().collect();
    assert_eq!(values, vec!["a=1"]);
}

#[test]
fn requests_without_a_peer_get_no_cookies() {
    let mut jar = CookieJar::new();
    jar.store(&peer(1), &set_cookies(&[b"a=1"]));
    let mut request = RequestBuilder::new(Method::Get, "/").build().unwrap();
    assert!(matches!(jar.attach(&mut request.head), Err(Error::MissingAuthority)));
    let mut request = RequestBuilder::new(Method::Get, "iroh+h3://nobody/").build().unwrap();
    assert!(matches!(jar.attach(&mut request.head), Err(Error::BadPeerId(_))));
    assert!(request.head.headers.is_empty());
}

#[test]
fn text_of_the_cookie_field() {
    let pair = |name: &str, encoded: &str| (name.to_owned(), encoded.to_owned());
    assert_eq!(cookie_header(&Vec::new()), "");
    assert_eq!(cookie_header(&vec![pair("a", "a=1")]), "a=1");
    let three = vec![pair("a", "a=1"), pair("b", "b=2"), pair("c", "c=3")];
    assert_eq!(cookie_header(&three), "a=1; b=2; c=3");
    let mut request = request_to(1);
    assert!(matches!(set_cookie_field(&mut request.head, "a\nb"), Err(Error::Http(_))));
    assert!(request.head.headers.is_empty());
    assert!(set_cookie_field(&mut request.head, "a=1").is_ok());
    assert_eq!(request.head.headers.get("cookie").unwrap(), "a=1");
}
