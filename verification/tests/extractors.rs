use std::collections::{BTreeMap, HashMap};

use usrv::extract::{Bytes, Extension, Host, Json, Path, Text};
use usrv::message::{header_value_str, Parts};
use usrv::{
    Body, FromRequest, FromRequestParts, Handler, HeaderMap, IntoResponse, Method, NotFound, Query,
    Request, Response, SendBody, Service, Uri, Version,
};

#[derive(Clone)]
struct H(fn((), Request) -> Response);

impl Handler<()> for H {
    fn call(&self, state: (), request: Request) -> Response {
        (self.0)(state, request)
    }
}

fn request(method: Method, uri: &str, headers: &[(&str, &str)], body: Body) -> Request {
    let mut h = HeaderMap::new();
    for (k, v) in headers {
        h.append(k, v.as_bytes());
    }
    Request::new(method, Uri::parse(uri).unwrap(), Version::Http11, h, body)
}

fn read_body_string(mut resp: Response) -> String {
    let mut bytes = Vec::new();
    let mut buf = [0u8; 1024];
    loop {
        let n = resp.body.read(&mut buf);
        if n == 0 {
            break;
        }
        bytes.extend_from_slice(&buf[..n]);
    }
    String::from_utf8_lossy(&bytes).into_owned()
}

fn get(path: &str, handler: fn((), Request) -> Response, req: Request) -> Response {
    Service::router().get(path, H(handler)).build().call((), req)
}

fn post(path: &str, handler: fn((), Request) -> Response, req: Request) -> Response {
    Service::router().post(path, H(handler)).build().call((), req)
}

fn query_pairs(req: Request) -> Vec<(String, String)> {
    match <Query<Vec<(String, String)>> as FromRequest<()>>::from_request(&(), req) {
        Ok(q) => q.0,
        Err(_) => panic!("a query always parses into pairs"),
    }
}

fn joined(pairs: Vec<(String, String)>) -> String {
    pairs.into_iter().map(|(k, v)| format!("{k}={v}")).collect::<Vec<_>>().join("&")
}

fn json_field(req: Request, name: &str) -> Response {
    match Json::<(), 10485760>::read_payload(req) {
        Err(rej) => rej.into_response(),
        Ok(bytes) => match serde_json::from_slice::<serde_json::Value>(&bytes) {
            Ok(v) => v[name].to_string().into_response(),
            Err(_) => Response::with_status(400, SendBody::none()),
        },
    }
}

fn host_handler(_s: (), req: Request) -> Response {
    let (mut parts, _body) = req.into_parts();
    match <Host as FromRequestParts<()>>::from_request_parts(&mut parts, &()) {
        Ok(h) => h.0.into_response(),
        Err(r) => r.into_response(),
    }
}

#[derive(Clone)]
struct XId(String);

impl<S> FromRequestParts<S> for XId {
    type Rejection = NotFound;

    fn from_request_parts(parts: &mut Parts, _state: &S) -> Result<Self, Self::Rejection> {
        match parts.headers.get("x-id").and_then(|h| header_value_str(h.as_slice())) {
            Some(v) => Ok(XId(v)),
            None => Err(NotFound),
        }
    }
}

#[test]
fn extract_body_ok() {
    fn handler(_s: (), req: Request) -> Response {
        let mut b = <Body as FromRequest<()>>::from_request(&(), req).unwrap();
        match b.read_to_string() {
            Ok(s) => s.into_response(),
            Err(_) => Response::with_status(500, SendBody::none()),
        }
    }
    let req = request(Method::Post, "/body", &[], Body::builder().data(b"hello".to_vec()));
    let resp = post("/body", handler, req);
    assert_eq!(resp.status(), 200);
    assert_eq!(read_body_string(resp), "hello");
}

#[test]
fn bytes_ok() {
    fn handler(_s: (), req: Request) -> Response {
        match <Bytes<10485760> as FromRequest<()>>::from_request(&(), req) {
            Ok(b) => b.0.len().to_string().into_response(),
            Err(r) => r.into_response(),
        }
    }
    let req = request(Method::Post, "/b", &[], Body::builder().data(vec![1, 2, 3, 4]));
    let resp = post("/b", handler, req);
    assert_eq!(resp.status(), 200);
    assert_eq!(read_body_string(resp), "4");
}

#[test]
fn bytes_limit_rejected() {
    fn handler(_s: (), req: Request) -> Response {
        match <Bytes<2> as FromRequest<()>>::from_request(&(), req) {
            Ok(_) => "ok".into_response(),
            Err(r) => r.into_response(),
        }
    }
    let req = request(Method::Post, "/bl", &[], Body::builder().data(vec![1, 2, 3]));
    let resp = post("/bl", handler, req);
    assert_eq!(resp.status(), 400);
}

#[derive(Clone)]
struct Ctx(&'static str);

#[test]
fn extension_ok() {
    fn handler(_s: (), req: Request) -> Response {
        let (mut parts, _body) = req.into_parts();
        match <Extension<Ctx> as FromRequestParts<()>>::from_request_parts(&mut parts, &()) {
            Ok(Extension(ctx)) => ctx.0.to_string().into_response(),
            Err(r) => r.into_response(),
        }
    }
    let mut req = request(Method::Get, "/e", &[], Body::empty());
    req.parts.insert_extension(Ctx("ctx"));
    let resp = get("/e", handler, req);
    assert_eq!(resp.status(), 200);
    assert_eq!(read_body_string(resp), "ctx");
}

#[test]
fn extension_missing_is_500() {
    fn handler(_s: (), req: Request) -> Response {
        let (mut parts, _body) = req.into_parts();
        match <Extension<Ctx> as FromRequestParts<()>>::from_request_parts(&mut parts, &()) {
            Ok(_) => "ok".into_response(),
            Err(r) => r.into_response(),
        }
    }
    let resp = get("/e", handler, request(Method::Get, "/e", &[], Body::empty()));
    assert_eq!(resp.status(), 500);
}

#[test]
fn host_from_header() {
    let req = request(Method::Get, "/h", &[("Host", "example.com:8080")], Body::empty());
    let resp = get("/h", host_handler, req);
    assert_eq!(resp.status(), 200);
    assert_eq!(read_body_string(resp), "example.com:8080");
}

#[test]
fn host_from_uri_authority() {
    let req = request(Method::Get, "http://example.org/u", &[], Body::empty());
    let resp = get("/u", host_handler, req);
    assert_eq!(resp.status(), 200);
    assert_eq!(read_body_string(resp), "example.org");
}

#[test]
fn host_missing_rejected() {
    let resp = get("/m", host_handler, request(Method::Get, "/m", &[], Body::empty()));
    assert_eq!(resp.status(), 400);
}

#[test]
fn json_json_ok_with_content_type() {
    fn handler(_s: (), req: Request) -> Response {
        json_field(req, "a")
    }
    let req = request(
        Method::Post,
        "/j",
        &[("Content-Type", "application/json; charset=utf-8")],
        Body::builder().data(b"{\"a\":42}".to_vec()),
    );
    let resp = post("/j", handler, req);
    assert_eq!(resp.status(), 200);
    assert_eq!(read_body_string(resp), "42");
}

#[test]
fn json_json_ok_without_content_type() {
    fn handler(_s: (), req: Request) -> Response {
        json_field(req, "a")
    }
    let req = request(Method::Post, "/j2", &[], Body::builder().data(b"{\"a\":7}".to_vec()));
    let resp = post("/j2", handler, req);
    assert_eq!(resp.status(), 200);
    assert_eq!(read_body_string(resp), "7");
}

#[test]
fn json_json_reject_wrong_content_type() {
    fn handler(_s: (), req: Request) -> Response {
        json_field(req, "a")
    }
    let req = request(
        Method::Post,
        "/j3",
        &[("Content-Type", "text/plain")],
        Body::builder().data(b"{\"a\":1}".to_vec()),
    );
    let resp = post("/j3", handler, req);
    assert_eq!(resp.status(), 400);
}

#[test]
fn json_json_reject_invalid_json() {
    fn handler(_s: (), req: Request) -> Response {
        json_field(req, "a")
    }
    let req = request(
        Method::Post,
        "/j4",
        &[("Content-Type", "application/json")],
        Body::builder().data(b"not-json".to_vec()),
    );
    let resp = post("/j4", handler, req);
    assert_eq!(resp.status(), 400);
}

#[test]
fn json_json_limit_10kb_reject_large() {
    fn handler(_s: (), req: Request) -> Response {
        match Json::<(), { 10 * 1024 }>::read_payload(req) {
            Err(rej) => rej.into_response(),
            Ok(_) => "ok".into_response(),
        }
    }
    let big = format!("{{\"s\":\"{}\"}}", "a".repeat(12 * 1024));
    let req = request(
        Method::Post,
        "/jl",
        &[("Content-Type", "application/json")],
        Body::builder().data(big.into_bytes()),
    );
    let resp = post("/jl", handler, req);
    assert_eq!(resp.status(), 400);
}

#[test]
fn path_path_positional_tuple() {
    fn handler(_s: (), req: Request) -> Response {
        let (mut parts, _body) = req.into_parts();
        match <Path<Vec<String>> as FromRequestParts<()>>::from_request_parts(&mut parts, &()) {
            Ok(Path(v)) => format!("{}-{}", v[0], v[1]).into_response(),
            Err(r) => r.into_response(),
        }
    }
    let resp = get("/p/{a}/{b}", handler, request(Method::Get, "/p/10/20", &[], Body::empty()));
    assert_eq!(resp.status(), 200);
    assert_eq!(read_body_string(resp), "10-20");
}

#[test]
fn query_extract_query_vec() {
    fn handler(_s: (), req: Request) -> Response {
        let mut parts: Vec<String> =
            query_pairs(req).into_iter().map(|(k, v)| format!("{k}={v}")).collect();
        parts.sort();
        parts.join("&").into_response()
    }
    let resp = get("/qv", handler, request(Method::Get, "/qv?b=2&a=1", &[], Body::empty()));
    assert_eq!(resp.status(), 200);
    assert_eq!(read_body_string(resp), "a=1&b=2");
}

#[test]
fn query_extract_query_hashmap() {
    fn handler(_s: (), req: Request) -> Response {
        let q: HashMap<String, String> = query_pairs(req).into_iter().collect();
        (q.get("a").unwrap().to_string() + q.get("b").unwrap()).into_response()
    }
    let resp = get("/qh", handler, request(Method::Get, "/qh?a=1&b=2", &[], Body::empty()));
    assert_eq!(resp.status(), 200);
    assert_eq!(read_body_string(resp), "12");
}

#[test]
fn query_extract_query_btreemap() {
    fn handler(_s: (), req: Request) -> Response {
        let q: BTreeMap<String, String> = query_pairs(req).into_iter().collect();
        q.iter().map(|(k, v)| format!("{k}={v}")).collect::<Vec<_>>().join(",").into_response()
    }
    let resp = get("/qb", handler, request(Method::Get, "/qb?b=2&a=1", &[], Body::empty()));
    assert_eq!(resp.status(), 200);
    assert_eq!(read_body_string(resp), "a=1,b=2");
}

#[test]
fn query_extract_single_named_query_param() {
    fn handler(_s: (), req: Request) -> Response {
        let foo = query_pairs(req).into_iter().find(|(k, _)| k == "foo").map(|(_, v)| v);
        foo.unwrap().into_response()
    }
    let resp =
        get("/one", handler, request(Method::Get, "/one?foo=bar&ignore=1", &[], Body::empty()));
    assert_eq!(resp.status(), 200);
    assert_eq!(read_body_string(resp), "bar");
}

#[test]
fn query_query_percent_encoded_not_decoded() {
    fn handler(_s: (), req: Request) -> Response {
        joined(query_pairs(req)).into_response()
    }
    let resp = get("/qp", handler, request(Method::Get, "/qp?name=%20123", &[], Body::empty()));
    assert_eq!(resp.status(), 200);
    assert_eq!(read_body_string(resp), "name= 123");
}

#[test]
fn query_query_plus_not_space() {
    fn handler(_s: (), req: Request) -> Response {
        joined(query_pairs(req)).into_response()
    }
    let resp = get("/qplus", handler, request(Method::Get, "/qplus?abc=a+b", &[], Body::empty()));
    assert_eq!(resp.status(), 200);
    assert_eq!(read_body_string(resp), "abc=a b");
}

#[test]
fn request_extract_request_arg() {
    fn handler(_s: (), req: Request) -> Response {
        let r = <Request as FromRequest<()>>::from_request(&(), req).unwrap();
        r.uri().path().to_string().into_response()
    }
    let resp = get("/req", handler, request(Method::Get, "/req", &[], Body::empty()));
    assert_eq!(resp.status(), 200);
    assert_eq!(read_body_string(resp), "/req");
}

#[test]
fn result_wrapper_err() {
    fn handler(_s: (), req: Request) -> Response {
        let (mut parts, _body) = req.into_parts();
        let x = <Result<XId, NotFound> as FromRequestParts<()>>::from_request_parts(&mut parts, &())
            .unwrap();
        if x.is_err() { "no" } else { "yes" }.into_response()
    }
    let resp = get("/res", handler, request(Method::Get, "/res", &[], Body::empty()));
    assert_eq!(resp.status(), 200);
    assert_eq!(read_body_string(resp), "no");
}

#[test]
fn result_wrapper_ok() {
    fn handler(_s: (), req: Request) -> Response {
        let (mut parts, _body) = req.into_parts();
        let x = <Result<XId, NotFound> as FromRequestParts<()>>::from_request_parts(&mut parts, &())
            .unwrap();
        match x {
            Ok(XId(s)) => s,
            Err(_) => "no".to_string(),
        }
        .into_response()
    }
    let req = request(Method::Get, "/res2", &[("x-id", "xyz")], Body::empty());
    let resp = get("/res2", handler, req);
    assert_eq!(resp.status(), 200);
    assert_eq!(read_body_string(resp), "xyz");
}

fn text_handler<const MAX: u64>(req: Request) -> Response {
    match <Text<MAX> as FromRequest<()>>::from_request(&(), req) {
        Ok(t) => t.0.into_response(),
        Err(r) => r.into_response(),
    }
}

#[test]
fn text_ok() {
    fn handler(_s: (), req: Request) -> Response {
        text_handler::<10485760>(req)
    }
    let req = request(Method::Post, "/t", &[], Body::builder().data(b"hello".to_vec()));
    let resp = post("/t", handler, req);
    assert_eq!(resp.status(), 200);
    assert_eq!(read_body_string(resp), "hello");
}

#[test]
fn text_invalid_utf8_rejected() {
    fn handler(_s: (), req: Request) -> Response {
        text_handler::<10485760>(req)
    }
    let req = request(Method::Post, "/ti", &[], Body::builder().data(vec![0xFF, 0xFE, 0xFD]));
    let resp = post("/ti", handler, req);
    assert_eq!(resp.status(), 400);
}

#[test]
fn text_limit_rejected() {
    fn handler(_s: (), req: Request) -> Response {
        text_handler::<4>(req)
    }
    let req = request(Method::Post, "/tl", &[], Body::builder().data(b"12345".to_vec()));
    let resp = post("/tl", handler, req);
    assert_eq!(resp.status(), 400);
}

#[test]
fn uri_extract_uri() {
    fn handler(_s: (), req: Request) -> Response {
        let (mut parts, _body) = req.into_parts();
        let u = <Uri as FromRequestParts<()>>::from_request_parts(&mut parts, &()).unwrap();
        u.to_text().into_response()
    }
    let resp = get("/u", handler, request(Method::Get, "/u", &[], Body::empty()));
    assert_eq!(resp.status(), 200);
    assert_eq!(read_body_string(resp), "/u");
}

#[test]
fn make_route() {
    fn root(_s: (), _r: Request) -> Response {
        ().into_response()
    }
    fn root_ret(_s: (), _r: Request) -> Response {
        "hi".into_response()
    }
    let router = Service::with_state::<(), H>()
        .get("/", H(root))
        .get("/x", H(root_ret))
        .get("/req", H(root))
        .get("/req_x", H(root_ret))
        .get("/app", H(root))
        .get("/app_x", H(root_ret))
        .get("/app_req", H(root))
        .get("/app_req_x", H(root_ret))
        .get("free", H(root))
        .build();
    let resp = router.call((), request(Method::Get, "/", &[], Body::empty()));
    assert_eq!(resp.status(), 200);
    fn is_send<T: Send>(_t: T) {}
    is_send(router);
}
