//! Building requests.

use iroh_h3_client::client::IrohH3Client;
use iroh_h3_client::error::Error;
use iroh_h3_client::request::{
    Body, Method, Request, RequestBuilder, Version, MIME_BIN, MIME_JSON, MIME_TEXT,
};
use iroh_h3_client::uri::Uri;

const TARGET: &str = "iroh+h3://peer/path?query";

fn bytes_of(request: &Request) -> &[u8] {
    match &request.body {
        Body::Empty => &[],
        Body::Bytes(bytes) => bytes,
        Body::Streaming => panic!("a body that is not held"),
    }
}

fn values(request: &Request, name: &str) -> Vec<String> {
    request
        .head
        .headers
        .get_all(name)
        .iter()
        .map(|value| value.to_str().unwrap().to_owned())
        .collect()
}

#[test]
fn methods_of_the_client() {
    let client = IrohH3Client::new(b"h3".to_vec());
    assert_eq!(client.alpn(), b"h3");
    let built = vec![
        (client.head(TARGET), "HEAD"),
        (client.get(TARGET), "GET"),
        (client.post(TARGET), "POST"),
        (client.put(TARGET), "PUT"),
        (client.patch(TARGET), "PATCH"),
        (client.delete(TARGET), "DELETE"),
        (client.request(Method::Other("PURGE".to_owned()), TARGET), "PURGE"),
    ];
    for (builder, method) in built {
        let request = builder.build().unwrap();
        assert_eq!(request.head.method.as_str(), method);
        assert_eq!(request.head.method.clone().as_str(), method);
        assert_eq!(request.head.uri.as_str(), TARGET);
        assert_eq!(request.head.uri.authority(), Some("peer"));
        assert_eq!(request.head.version, Version::Http11);
        assert!(request.head.headers.is_empty());
        assert!(matches!(request.body, Body::Empty));
    }
}

#[test]
fn bodies_set_their_type() {
    let text = RequestBuilder::new(Method::Post, TARGET).text("h\u{e9}").unwrap();
    assert_eq!(values(&text, "content-type"), vec![MIME_TEXT]);
    assert_eq!(MIME_TEXT, "text/plain; charset=utf-8");
    assert_eq!(bytes_of(&text), b"h\xc3\xa9");

    let bytes = RequestBuilder::new(Method::Post, TARGET).bytes(vec![0, 255]).unwrap();
    assert_eq!(values(&bytes, "content-type"), vec![MIME_BIN]);
    assert_eq!(MIME_BIN, "application/octet-stream");
    assert_eq!(bytes_of(&bytes), [0, 255]);

    let json = RequestBuilder::new(Method::Post, TARGET)
        .json(serde_json::to_vec(&vec![1, 2]))
        .unwrap();
    assert_eq!(values(&json, "content-type"), vec![MIME_JSON]);
    assert_eq!(MIME_JSON, "application/json");
    assert_eq!(bytes_of(&json), b"[1,2]");

    let streaming = RequestBuilder::new(Method::Post, TARGET).body(Body::Streaming).unwrap();
    assert!(values(&streaming, "content-type").is_empty());
    assert!(matches!(streaming.body, Body::Streaming));
}

#[test]
fn given_type_is_kept() {
    let request = RequestBuilder::new(Method::Post, TARGET)
        .header("Content-Type", b"text/csv")
        .text("a,b")
        .unwrap();
    assert_eq!(values(&request, "content-type"), vec!["text/csv"]);
    assert_eq!(bytes_of(&request), b"a,b");
}

#[test]
fn type_is_ensured_once() {
    let builder = RequestBuilder::new(Method::Post, TARGET)
        .header("x-kept", b"yes")
        .ensure_content_type("text/csv")
        .ensure_content_type("text/html");
    let request = builder.build().unwrap();
    assert_eq!(values(&request, "content-type"), vec!["text/csv"]);
    assert_eq!(values(&request, "x-kept"), vec!["yes"]);
    assert_eq!(request.head.headers.len(), 2);
    let bad = RequestBuilder::new(Method::Post, TARGET).ensure_content_type("a\nb").build();
    assert!(matches!(bad, Err(Error::Http(_))));
}

#[test]
fn fields_are_appended() {
    let request = RequestBuilder::new(Method::Get, TARGET)
        .header("X-One", b"1")
        .header("x-two", b"2")
        .header("x-ONE", b"one")
        .build()
        .unwrap();
    assert_eq!(values(&request, "x-one"), vec!["1", "one"]);
    assert_eq!(values(&request, "x-two"), vec!["2"]);
    assert_eq!(request.head.headers.len(), 3);
    let copy = request.head.clone();
    assert_eq!(copy.headers, request.head.headers);
}

#[test]
fn first_failure_stays() {
    let bad_uri = RequestBuilder::new(Method::Get, "not a uri").header("x", b"1").build();
    assert!(matches!(bad_uri, Err(Error::Http(_))));

    let bad_name = RequestBuilder::new(Method::Get, TARGET).header("b\u{e4}d", b"1").text("x");
    assert!(matches!(bad_name, Err(Error::Http(_))));

    let empty_name = RequestBuilder::new(Method::Get, TARGET).header("", b"1").build();
    assert!(matches!(empty_name, Err(Error::Http(_))));

    let bad_value = RequestBuilder::new(Method::Get, TARGET)
        .header("x", b"a\nb")
        .header("x", b"fine")
        .build();
    assert!(matches!(bad_value, Err(Error::Http(_))));

    let kept = RequestBuilder::with_uri(Method::Get, Err(Error::Other("kept".to_owned())))
        .header("", b"\n")
        .bytes(Vec::new());
    assert!(matches!(kept, Err(Error::Other(text)) if text == "kept"));
}

#[test]
fn unwritable_json_is_reported_first() {
    let error = serde_json::from_str::<u8>("no").unwrap_err();
    let built = RequestBuilder::new(Method::Get, "not a uri").json(Err(error));
    assert!(matches!(built, Err(Error::Json(_))));
}

#[test]
fn bodies_that_can_be_sent_again() {
    assert!(matches!(Body::empty().try_clone(), Some(Body::Empty)));
    match Body::bytes(vec![1, 2, 3]).try_clone() {
        Some(Body::Bytes(bytes)) => assert_eq!(bytes, [1, 2, 3]),
        _ => panic!("no copy"),
    }
    assert!(Body::Streaming.try_clone().is_none());
}

#[test]
fn uris() {
    let uri = Uri::parse("HTTP://example.com:80/a?b").unwrap();
    assert_eq!(uri.as_str(), "http://example.com:80/a?b");
    assert_eq!(uri.authority(), Some("example.com:80"));
    assert_eq!(uri.clone().authority(), Some("example.com:80"));
    let path = Uri::parse("/only/path").unwrap();
    assert_eq!(path.as_str(), "/only/path");
    assert_eq!(path.authority(), None);
    assert!(matches!(Uri::parse(""), Err(Error::Http(_))));
    assert!(matches!(Uri::parse("a b"), Err(Error::Http(_))));
}
