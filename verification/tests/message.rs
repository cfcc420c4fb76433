use usrv::extract::Path;
use usrv::message::header_value_str;
use usrv::{Body, FromRequestParts, HeaderMap, IntoResponse, Method, Request, Uri, Version};

#[test]
fn first_field_of_a_name_wins_and_names_ignore_case() {
    let mut h = HeaderMap::new();
    h.append("X-Id", b"one");
    h.append("x-id", b"two");
    h.append("Other", b"three");
    assert_eq!(h.get("x-ID").map(|v| v.as_slice()), Some(&b"one"[..]));
    assert_eq!(h.get("other").map(|v| v.as_slice()), Some(&b"three"[..]));
    assert_eq!(h.get("missing"), None);
}

#[test]
fn header_text_needs_visible_ascii() {
    assert_eq!(header_value_str(b"a b\tc"), Some("a b\tc".to_string()));
    assert_eq!(header_value_str(b"line\nbreak"), None);
    assert_eq!(header_value_str(&[0xC3, 0xA9]), None);
    assert_eq!(header_value_str(b""), Some(String::new()));
}

#[test]
fn uri_components_and_text() {
    let u = Uri::parse("http://example.org:8080/a/b?x=1&y=2").unwrap();
    assert_eq!(u.scheme(), Some("http"));
    assert_eq!(u.authority(), Some("example.org:8080"));
    assert_eq!(u.path(), "/a/b");
    assert_eq!(u.query(), Some("x=1&y=2"));
    assert_eq!(u.to_text(), "http://example.org:8080/a/b?x=1&y=2");
    let r = Uri::parse("/only/path").unwrap();
    assert_eq!(r.scheme(), None);
    assert_eq!(r.authority(), None);
    assert_eq!(r.query(), None);
    assert_eq!(r.to_text(), "/only/path");
    assert!(Uri::parse("not a uri").is_none());
}

#[test]
fn method_names() {
    assert_eq!(Method::Get.as_str(), "GET");
    assert_eq!(Method::Options.as_str(), "OPTIONS");
    assert_eq!(Method::Other("PURGE".to_string()).as_str(), "PURGE");
    assert!(Method::Patch.clone().same(&Method::Patch));
}

#[test]
fn request_accessors_and_parts() {
    let mut h = HeaderMap::new();
    h.append("Host", b"example.com");
    let req = Request::new(
        Method::Delete,
        Uri::parse("/r?q").unwrap(),
        Version::Http10,
        h,
        Body::empty(),
    );
    assert!(req.method().same(&Method::Delete));
    assert_eq!(req.uri().path(), "/r");
    assert_eq!(req.version(), Version::Http10);
    assert!(req.headers().get("host").is_some());
    let (parts, body) = req.into_parts();
    assert!(parts.path_params.is_none());
    assert_eq!(body.content_length(), Some(0));
}

#[test]
fn path_of_an_unrouted_request_is_rejected() {
    let req =
        Request::new(Method::Get, Uri::parse("/p/1").unwrap(), Version::Http11, HeaderMap::new(), Body::empty());
    let (mut parts, _body) = req.into_parts();
    let r = <Path<Vec<String>> as FromRequestParts<()>>::from_request_parts(&mut parts, &());
    assert_eq!(r.err().unwrap().into_response().status(), 400);
}
