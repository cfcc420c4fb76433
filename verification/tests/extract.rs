use std::collections::{BTreeMap, HashMap};

use usrv::extract::{Json, Path};
use usrv::message::header_value_str;
use usrv::{
    Body, FromRequest, FromRequestParts, Handler, HeaderMap, IntoResponse, Method, Query, Request,
    Response, Service, Uri, Version,
};

#[derive(Clone)]
struct H(fn((), Request) -> Response);

impl Handler<()> for H {
    fn call(&self, state: (), request: Request) -> Response {
        (self.0)(state, request)
    }
}

fn request(method: Method, uri: &str, headers: &[(&str, &str)], body: Body) -> Request {
    let mut h = HeaderMap::new();
    for (k, v) in headers {
        h.append(k, v.as_bytes());
    }
    Request::new(method, Uri::parse(uri).unwrap(), Version::Http11, h, body)
}

fn read_body_string(mut resp: Response) -> String {
    let mut bytes = Vec::new();
    let mut buf = [0u8; 1024];
    loop {
        let n = resp.body.read(&mut buf);
        if n == 0 {
            break;
        }
        bytes.extend_from_slice(&buf[..n]);
    }
    String::from_utf8_lossy(&bytes).into_owned()
}

fn get(path: &str, handler: fn((), Request) -> Response, req: Request) -> Response {
    Service::router().get(path, H(handler)).build().call((), req)
}

fn post(path: &str, handler: fn((), Request) -> Response, req: Request) -> Response {
    Service::router().post(path, H(handler)).build().call((), req)
}

fn query_pairs(req: Request) -> Vec<(String, String)> {
    let (mut parts, _body) = req.into_parts();
    let q = <Query<Vec<(String, String)>> as FromRequestParts<()>>::from_request_parts(
        &mut parts,
        &(),
    )
    .unwrap_or_else(|_| panic!("a query always parses into pairs"));
    q.0
}

fn joined(pairs: Vec<(String, String)>) -> String {
    pairs.into_iter().map(|(k, v)| format!("{k}={v}")).collect::<Vec<_>>().join("&")
}

/// Parses the JSON payload as the test's handlers do and answers with the
/// field `name`, or with the rejection.
fn json_field(req: Request, name: &str) -> Response {
    match Json::<(), 10485760>::read_payload(req) {
        Err(rej) => rej.into_response(),
        Ok(bytes) => match serde_json::from_slice::<serde_json::Value>(&bytes) {
            Ok(v) => v[name].to_string().into_response(),
            Err(_) => Response::with_status(400, usrv::SendBody::none()),
        },
    }
}

#[test]
fn extract_path_positional_tuple() {
    fn handler(_s: (), req: Request) -> Response {
        let (mut parts, _body) = req.into_parts();
        match <Path<Vec<String>> as FromRequestParts<()>>::from_request_parts(&mut parts, &()) {
            Ok(Path(v)) => format!("{}-{}", v[0], v[1]).into_response(),
            Err(r) => r.into_response(),
        }
    }
    let resp = get("/p/{a}/{b}", handler, request(Method::Get, "/p/10/20", &[], Body::empty()));
    assert_eq!(resp.status(), 200);
    assert_eq!(read_body_string(resp), "10-20");
}

#[test]
fn extract_extract_request_arg() {
    fn handler(_s: (), req: Request) -> Response {
        let _r = <Request as FromRequest<()>>::from_request(&(), req).unwrap();
        "ok".into_response()
    }
    let resp = get("/req", handler, request(Method::Get, "/req", &[], Body::empty()));
    assert_eq!(resp.status(), 200);
    assert_eq!(read_body_string(resp), "ok");
}

#[test]
fn extract_extract_method() {
    fn handler(_s: (), req: Request) -> Response {
        let (mut parts, _body) = req.into_parts();
        let m = <Method as FromRequestParts<()>>::from_request_parts(&mut parts, &()).unwrap();
        m.as_str().to_string().into_response()
    }
    let resp = get("/m", handler, request(Method::Get, "/m", &[], Body::empty()));
    assert_eq!(resp.status(), 200);
    assert_eq!(read_body_string(resp), "GET");
}

#[test]
fn extract_extract_uri() {
    fn handler(_s: (), req: Request) -> Response {
        let (mut parts, _body) = req.into_parts();
        let u = <Uri as FromRequestParts<()>>::from_request_parts(&mut parts, &()).unwrap();
        u.to_text().into_response()
    }
    let resp = get("/u", handler, request(Method::Get, "/u", &[], Body::empty()));
    assert_eq!(resp.status(), 200);
    assert_eq!(read_body_string(resp), "/u");
}

#[test]
fn extract_extract_version() {
    fn handler(_s: (), req: Request) -> Response {
        let (mut parts, _body) = req.into_parts();
        let v = <Version as FromRequestParts<()>>::from_request_parts(&mut parts, &()).unwrap();
        if v == Version::Http11 { "ok" } else { "bad" }.into_response()
    }
    let resp = get("/v", handler, request(Method::Get, "/v", &[], Body::empty()));
    assert_eq!(resp.status(), 200);
    assert_eq!(read_body_string(resp), "ok");
}

#[test]
fn extract_extract_headers() {
    fn handler(_s: (), req: Request) -> Response {
        let (mut parts, _body) = req.into_parts();
        let h = <HeaderMap as FromRequestParts<()>>::from_request_parts(&mut parts, &()).unwrap();
        h.get("X-Unit")
            .and_then(|v| header_value_str(v.as_slice()))
            .unwrap_or_default()
            .into_response()
    }
    let resp = get("/h", handler, request(Method::Get, "/h", &[("X-Unit", "ok")], Body::empty()));
    assert_eq!(resp.status(), 200);
    assert_eq!(read_body_string(resp), "ok");
}

#[test]
fn extract_extract_query_vec() {
    fn handler(_s: (), req: Request) -> Response {
        let mut parts: Vec<String> =
            query_pairs(req).into_iter().map(|(k, v)| format!("{k}={v}")).collect();
        parts.sort();
        parts.join("&").into_response()
    }
    let resp = get("/qv", handler, request(Method::Get, "/qv?b=2&a=1", &[], Body::empty()));
    assert_eq!(resp.status(), 200);
    assert_eq!(read_body_string(resp), "a=1&b=2");
}

#[test]
fn extract_extract_query_hashmap() {
    fn handler(_s: (), req: Request) -> Response {
        let q: HashMap<String, String> = query_pairs(req).into_iter().collect();
        (q.get("a").unwrap().to_string() + q.get("b").unwrap()).into_response()
    }
    let resp = get("/qh", handler, request(Method::Get, "/qh?a=1&b=2", &[], Body::empty()));
    assert_eq!(resp.status(), 200);
    assert_eq!(read_body_string(resp), "12");
}

#[test]
fn extract_extract_query_btreemap() {
    fn handler(_s: (), req: Request) -> Response {
        let q: BTreeMap<String, String> = query_pairs(req).into_iter().collect();
        q.iter().map(|(k, v)| format!("{k}={v}")).collect::<Vec<_>>().join(",").into_response()
    }
    let resp = get("/qb", handler, request(Method::Get, "/qb?b=2&a=1", &[], Body::empty()));
    assert_eq!(resp.status(), 200);
    assert_eq!(read_body_string(resp), "a=1,b=2");
}

#[test]
fn extract_extract_single_named_query_param() {
    fn handler(_s: (), req: Request) -> Response {
        let foo = query_pairs(req).into_iter().find(|(k, _)| k == "foo").map(|(_, v)| v);
        foo.unwrap().into_response()
    }
    let resp =
        get("/one", handler, request(Method::Get, "/one?foo=bar&ignore=1", &[], Body::empty()));
    assert_eq!(resp.status(), 200);
    assert_eq!(read_body_string(resp), "bar");
}

#[test]
fn extract_query_percent_encoded_not_decoded() {
    fn handler(_s: (), req: Request) -> Response {
        joined(query_pairs(req)).into_response()
    }
    let resp = get("/qp", handler, request(Method::Get, "/qp?name=%20123", &[], Body::empty()));
    assert_eq!(resp.status(), 200);
    assert_eq!(read_body_string(resp), "name= 123");
}

#[test]
fn extract_query_plus_not_space() {
    fn handler(_s: (), req: Request) -> Response {
        joined(query_pairs(req)).into_response()
    }
    let resp = get("/qplus", handler, request(Method::Get, "/qplus?abc=a+b", &[], Body::empty()));
    assert_eq!(resp.status(), 200);
    assert_eq!(read_body_string(resp), "abc=a b");
}

#[test]
fn extract_json_ok_with_content_type() {
    fn handler(_s: (), req: Request) -> Response {
        json_field(req, "a")
    }
    let req = request(
        Method::Post,
        "/j",
        &[("Content-Type", "application/json; charset=utf-8")],
        Body::builder().data(b"{\"a\":42}".to_vec()),
    );
    let resp = post("/j", handler, req);
    assert_eq!(resp.status(), 200);
    assert_eq!(read_body_string(resp), "42");
}

#[test]
fn extract_json_ok_without_content_type() {
    fn handler(_s: (), req: Request) -> Response {
        json_field(req, "a")
    }
    let req = request(Method::Post, "/j2", &[], Body::builder().data(b"{\"a\":7}".to_vec()));
    let resp = post("/j2", handler, req);
    assert_eq!(resp.status(), 200);
    assert_eq!(read_body_string(resp), "7");
}

#[test]
fn extract_json_reject_wrong_content_type() {
    fn handler(_s: (), req: Request) -> Response {
        json_field(req, "a")
    }
    let req = request(
        Method::Post,
        "/j3",
        &[("Content-Type", "text/plain")],
        Body::builder().data(b"{\"a\":1}".to_vec()),
    );
    let resp = post("/j3", handler, req);
    assert_eq!(resp.status(), 400);
}

#[test]
fn extract_json_reject_invalid_json() {
    fn handler(_s: (), req: Request) -> Response {
        json_field(req, "a")
    }
    let req = request(
        Method::Post,
        "/j4",
        &[("Content-Type", "application/json")],
        Body::builder().data(b"not-json".to_vec()),
    );
    let resp = post("/j4", handler, req);
    assert_eq!(resp.status(), 400);
}

#[test]
fn extract_json_limit_10kb_reject_large() {
    fn handler(_s: (), req: Request) -> Response {
        match Json::<(), { 10 * 1024 }>::read_payload(req) {
            Err(rej) => rej.into_response(),
            Ok(_) => "ok".into_response(),
        }
    }
    let big = format!("{{\"s\":\"{}\"}}", "a".repeat(12 * 1024));
    let req = request(
        Method::Post,
        "/jl",
        &[("Content-Type", "application/json")],
        Body::builder().data(big.into_bytes()),
    );
    let resp = post("/jl", handler, req);
    assert_eq!(resp.status(), 400);
}
