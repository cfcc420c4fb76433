use usrv::arg::{Arg, RefArg};
use usrv::message::header_value_str;
use usrv::{
    Body, Handler, HeaderMap, IntoResponse, Method, Query, Request, Response, Service, Uri, Version,
};

#[derive(Clone)]
struct H(fn((), Request) -> Response);

impl Handler<()> for H {
    fn call(&self, state: (), request: Request) -> Response {
        (self.0)(state, request)
    }
}

fn request(method: Method, uri: &str, headers: &[(&str, &str)]) -> Request {
    let mut h = HeaderMap::new();
    for (k, v) in headers {
        h.append(k, v.as_bytes());
    }
    Request::new(method, Uri::parse(uri).unwrap(), Version::Http11, h, Body::empty())
}

fn read_body_string(mut resp: Response) -> String {
    let mut bytes = Vec::new();
    let mut buf = [0u8; 1024];
    loop {
        let n = resp.body.read(&mut buf);
        if n == 0 {
            break;
        }
        bytes.extend_from_slice(&buf[..n]);
    }
    String::from_utf8_lossy(&bytes).into_owned()
}

fn serve(path: &str, handler: fn((), Request) -> Response, req: Request) -> Response {
    let svc = Service::router().get(path, H(handler)).build();
    svc.call((), req)
}

fn pairs_joined(q: Query<Vec<(String, String)>>) -> String {
    q.0.into_iter().map(|(k, v)| format!("{k}={v}")).collect::<Vec<_>>().join("&")
}

#[test]
fn arg_extract_request_arg() {
    fn handler(_s: (), req: Request) -> Response {
        let _r = <Request as Arg<()>>::from_request(&(), req).unwrap();
        "ok".into_response()
    }
    let resp = serve("/req", handler, request(Method::Get, "/req", &[]));
    assert_eq!(resp.status(), 200);
    assert_eq!(read_body_string(resp), "ok");
}

#[test]
fn arg_extract_method() {
    fn handler(_s: (), req: Request) -> Response {
        let m = <Method as RefArg<()>>::from_request(&(), &req).unwrap();
        m.as_str().to_string().into_response()
    }
    let resp = serve("/m", handler, request(Method::Get, "/m", &[]));
    assert_eq!(resp.status(), 200);
    assert_eq!(read_body_string(resp), "GET");
}

#[test]
fn arg_extract_uri() {
    fn handler(_s: (), req: Request) -> Response {
        let u = <Uri as RefArg<()>>::from_request(&(), &req).unwrap();
        u.to_text().into_response()
    }
    let resp = serve("/u", handler, request(Method::Get, "/u", &[]));
    assert_eq!(resp.status(), 200);
    assert_eq!(read_body_string(resp), "/u");
}

#[test]
fn arg_extract_version() {
    fn handler(_s: (), req: Request) -> Response {
        let v = <Version as RefArg<()>>::from_request(&(), &req).unwrap();
        if v == Version::Http11 { "ok" } else { "bad" }.into_response()
    }
    let resp = serve("/v", handler, request(Method::Get, "/v", &[]));
    assert_eq!(resp.status(), 200);
    assert_eq!(read_body_string(resp), "ok");
}

#[test]
fn arg_extract_headers() {
    fn handler(_s: (), req: Request) -> Response {
        let h = <HeaderMap as RefArg<()>>::from_request(&(), &req).unwrap();
        h.get("X-Unit")
            .and_then(|v| header_value_str(v.as_slice()))
            .unwrap_or_default()
            .into_response()
    }
    let resp = serve("/h", handler, request(Method::Get, "/h", &[("X-Unit", "ok")]));
    assert_eq!(resp.status(), 200);
    assert_eq!(read_body_string(resp), "ok");
}

#[test]
fn arg_extract_query_vec() {
    fn handler(_s: (), req: Request) -> Response {
        let q = <Query<Vec<(String, String)>> as RefArg<()>>::from_request(&(), &req).unwrap();
        let mut parts: Vec<String> = q.0.into_iter().map(|(k, v)| format!("{k}={v}")).collect();
        parts.sort();
        parts.join("&").into_response()
    }
    let resp = serve("/qv", handler, request(Method::Get, "/qv?b=2&a=1", &[]));
    assert_eq!(resp.status(), 200);
    assert_eq!(read_body_string(resp), "a=1&b=2");
}

#[test]
fn arg_query_percent_encoded_not_decoded() {
    fn handler(_s: (), req: Request) -> Response {
        let q = <Query<Vec<(String, String)>> as Arg<()>>::from_request(&(), req).unwrap();
        pairs_joined(q).into_response()
    }
    let resp = serve("/qp", handler, request(Method::Get, "/qp?name=%20123", &[]));
    assert_eq!(resp.status(), 200);
    assert_eq!(read_body_string(resp), "name= 123");
}

#[test]
fn arg_query_plus_not_space() {
    fn handler(_s: (), req: Request) -> Response {
        let q = <Query<Vec<(String, String)>> as Arg<()>>::from_request(&(), req).unwrap();
        pairs_joined(q).into_response()
    }
    let resp = serve("/qplus", handler, request(Method::Get, "/qplus?abc=a+b", &[]));
    assert_eq!(resp.status(), 200);
    assert_eq!(read_body_string(resp), "abc=a b");
}

#[test]
fn arg_extract_query_hashmap() {
    fn handler(_s: (), req: Request) -> Response {
        let q = <Query<Vec<(String, String)>> as RefArg<()>>::from_request(&(), &req).unwrap();
        let m: std::collections::HashMap<String, String> = q.0.into_iter().collect();
        (m.get("a").unwrap().to_string() + m.get("b").unwrap()).into_response()
    }
    let resp = serve("/qh", handler, request(Method::Get, "/qh?a=1&b=2", &[]));
    assert_eq!(resp.status(), 200);
    assert_eq!(read_body_string(resp), "12");
}

#[test]
fn arg_extract_query_btreemap() {
    fn handler(_s: (), req: Request) -> Response {
        let q = <Query<Vec<(String, String)>> as Arg<()>>::from_request(&(), req).unwrap();
        let m: std::collections::BTreeMap<String, String> = q.0.into_iter().collect();
        m.iter().map(|(k, v)| format!("{k}={v}")).collect::<Vec<_>>().join(",").into_response()
    }
    let resp = serve("/qb", handler, request(Method::Get, "/qb?b=2&a=1", &[]));
    assert_eq!(resp.status(), 200);
    assert_eq!(read_body_string(resp), "a=1,b=2");
}
