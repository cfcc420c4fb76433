use usrv::{
    Body, Handler, HeaderMap, IntoResponse, Method, Request, Response,
    Service, Uri, Version,
};

#[derive(Clone)]
struct Tag(&'static str);

impl Handler<()> for Tag {
    fn call(&self, _state: (), _request: Request) -> Response {
        self.0.into_response()
    }
}

#[derive(Clone)]
struct Count;

impl Handler<u32> for Count {
    fn call(&self, state: u32, _request: Request) -> Response {
        (state + 1).to_string().into_response()
    }
}

fn request(method: Method, uri: &str) -> Request {
    Request::new(method, Uri::parse(uri).unwrap(), Version::Http11, HeaderMap::new(), Body::empty())
}

fn read_body_string(mut resp: Response) -> String {
    let mut bytes = Vec::new();
    let mut buf = [0u8; 3];
    loop {
        let n = resp.body.read(&mut buf);
        if n == 0 {
            break;
        }
        bytes.extend_from_slice(&buf[..n]);
    }
    String::from_utf8_lossy(&bytes).into_owned()
}

#[test]
fn unmatched_path_is_404_with_no_body() {
    let svc = Service::router().get("/a", Tag("a")).build();
    let resp = svc.call((), request(Method::Get, "/b"));
    assert_eq!(resp.status(), 404);
    assert_eq!(read_body_string(resp), "");
}

#[test]
fn known_path_with_another_method_is_405_naming_the_methods() {
    let svc = Service::router().post("/p", Tag("p")).build();
    let resp = svc.call((), request(Method::Get, "/p"));
    assert_eq!(resp.status(), 405);
    assert_eq!(resp.headers.get("Allow").map(|v| v.as_slice()), Some(&b"POST"[..]));
    assert_eq!(read_body_string(resp), "");
    let svc = Service::router()
        .get("/a", Tag("g"))
        .post("/a", Tag("p"))
        .get("/a", Tag("g2"))
        .get("/b", Tag("b"))
        .build();
    let resp = svc.call((), request(Method::Delete, "/a"));
    assert_eq!(resp.status(), 405);
    assert_eq!(resp.headers.get("allow").map(|v| v.as_slice()), Some(&b"GET, POST"[..]));
    assert_eq!(svc.call((), request(Method::Delete, "/c")).status(), 404);
}

#[test]
fn first_registered_route_wins() {
    let svc = Service::router()
        .get("/a", Tag("first"))
        .post("/a", Tag("post"))
        .get("/a", Tag("second"))
        .build();
    let resp = svc.call((), request(Method::Get, "/a"));
    assert_eq!(resp.status(), 200);
    assert_eq!(read_body_string(resp), "first");
    let resp = svc.call((), request(Method::Post, "/a"));
    assert_eq!(read_body_string(resp), "post");
}

#[test]
fn every_method_helper_registers_its_method() {
    let svc = Service::router()
        .get("/x", Tag("GET"))
        .post("/x", Tag("POST"))
        .put("/x", Tag("PUT"))
        .delete("/x", Tag("DELETE"))
        .head("/x", Tag("HEAD"))
        .options("/x", Tag("OPTIONS"))
        .connect("/x", Tag("CONNECT"))
        .patch("/x", Tag("PATCH"))
        .trace("/x", Tag("TRACE"))
        .handle(Method::Other("PURGE".to_string()), "/x", Tag("PURGE"))
        .build();
    let methods = [
        Method::Get,
        Method::Post,
        Method::Put,
        Method::Delete,
        Method::Head,
        Method::Options,
        Method::Connect,
        Method::Patch,
        Method::Trace,
        Method::Other("PURGE".to_string()),
    ];
    for m in methods {
        let name = m.as_str().to_string();
        let resp = svc.call((), request(m, "/x"));
        assert_eq!(resp.status(), 200);
        assert_eq!(read_body_string(resp), name);
    }
}

#[derive(Clone)]
struct Captures;

impl Handler<()> for Captures {
    fn call(&self, _state: (), request: Request) -> Response {
        let pairs = request.parts.path_params.unwrap_or_default();
        pairs.into_iter().map(|(k, v)| format!("{k}={v}")).collect::<Vec<_>>().join(",").into_response()
    }
}

#[test]
fn captures_are_set_in_pattern_order() {
    let svc = Service::router().get("/u/{user}/books/{book}", Captures).build();
    let resp = svc.call((), request(Method::Get, "/u/alice/books/xyz"));
    assert_eq!(read_body_string(resp), "user=alice,book=xyz");
}

#[test]
fn cloned_service_serves_the_same_routes() {
    let svc = Service::router().get("/a", Tag("a")).build();
    let cloned = svc.clone();
    assert_eq!(read_body_string(cloned.call((), request(Method::Get, "/a"))), "a");
    assert_eq!(cloned.call((), request(Method::Get, "/b")).status(), 404);
}

#[test]
fn state_is_handed_to_the_handler() {
    let svc = Service::with_state::<u32, Count>().get("/n", Count).build();
    let resp = svc.call(41, request(Method::Get, "/n"));
    assert_eq!(read_body_string(resp), "42");
}

#[test]
fn invalid_pattern_is_skipped() {
    let svc = Service::router().get("/a/{", Tag("bad")).get("/b", Tag("b")).build();
    assert_eq!(svc.call((), request(Method::Get, "/a/{")).status(), 404);
    assert_eq!(read_body_string(svc.call((), request(Method::Get, "/b"))), "b");
}

#[test]
fn a_standard_name_is_the_standard_method() {
    assert!(Method::Other("GET".to_string()).same(&Method::Get));
    assert!(!Method::Other("get".to_string()).same(&Method::Get));
    assert!(Method::Other("PURGE".to_string()).same(&Method::Other("PURGE".to_string())));
    assert!(!Method::Put.same(&Method::Post));
    let svc = Service::router().get("/a", Tag("a")).build();
    let resp = svc.call((), request(Method::Other("GET".to_string()), "/a"));
    assert_eq!(read_body_string(resp), "a");
}

#[test]
fn routers_built_from_the_same_routes_dispatch_alike() {
    let build = || {
        Service::router()
            .get("/a", Tag("a"))
            .get("/b/{x}", Tag("b"))
            .post("/a", Tag("pa"))
            .build()
    };
    let (s1, s2) = (build(), build());
    for (m, p) in [(Method::Get, "/a"), (Method::Get, "/b/1"), (Method::Post, "/a"), (Method::Put, "/a")] {
        let r1 = s1.call((), request(m.clone(), p));
        let r2 = s2.call((), request(m, p));
        assert_eq!(r1.status(), r2.status());
        assert_eq!(read_body_string(r1), read_body_string(r2));
    }
}

#[test]
fn a_static_path_reaches_its_route_whatever_came_before() {
    let cases: [(&str, &str); 6] = [
        ("/{*p}", "/x"),
        ("/{id}", "/a"),
        ("/img{id}.png", "/img1.png"),
        ("/a/{b}/c", "/a/x/c"),
        ("/{*p}", "/"),
        ("/{a}/{b}", "/x/y"),
    ];
    for (dynamic, literal) in cases {
        let svc = Service::router()
            .get(dynamic, Tag("dynamic"))
            .get(literal, Tag("static"))
            .build();
        let resp = svc.call((), request(Method::Get, literal));
        assert_eq!(resp.status(), 200, "{dynamic} then {literal}");
        assert_eq!(read_body_string(resp), "static", "{dynamic} then {literal}");
    }
}

#[test]
fn try_build_refuses_conflicting_or_invalid_patterns() {
    let conflicting = Service::router().get("/users/{id}", Tag("id")).post("/users/{name}", Tag("name"));
    assert!(conflicting.try_build().is_none());
    let invalid = Service::router().get("/a/{*rest}/b", Tag("rest"));
    assert!(invalid.try_build().is_none());
    let unnamed = Service::router().get("/x/{}", Tag("x"));
    assert!(unnamed.try_build().is_none());
}

#[test]
fn try_build_builds_routes_that_compile() {
    let svc = Service::router()
        .get("/users/{id}", Tag("id"))
        .get("/users/me", Tag("me"))
        .post("/users/{id}", Tag("post"))
        .try_build()
        .unwrap();
    let resp = svc.call((), request(Method::Get, "/users/me"));
    assert_eq!(read_body_string(resp), "me");
    let resp = svc.call((), request(Method::Get, "/users/7"));
    assert_eq!(read_body_string(resp), "id");
    let resp = svc.call((), request(Method::Post, "/users/7"));
    assert_eq!(read_body_string(resp), "post");
}
