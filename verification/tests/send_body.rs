use usrv::extract::content_type_is_json;
use usrv::{HeaderMap, IntoResponse, IntoSendBody, NotFound, SendBody};

fn drain(mut b: SendBody, chunk: usize) -> Vec<u8> {
    let mut out = Vec::new();
    let mut buf = vec![0u8; chunk];
    loop {
        let n = b.read(&mut buf);
        if n == 0 {
            break;
        }
        out.extend_from_slice(&buf[..n]);
    }
    out
}

#[test]
fn send_body_gives_its_bytes_in_order() {
    assert_eq!(drain(SendBody::from_owned_reader(b"abcdefg".to_vec()), 3), b"abcdefg");
    assert_eq!(drain("xyz".into_body(), 1), b"xyz");
    assert_eq!(drain(String::from("s").into_body(), 4), b"s");
    assert_eq!(drain(vec![1u8, 2].into_body(), 4), vec![1, 2]);
    assert_eq!(drain((&[7u8, 8, 9]).into_body(), 2), vec![7, 8, 9]);
    assert_eq!(drain(().into_body(), 4), b"");
}

#[test]
fn ended_body_stays_ended() {
    let mut b = SendBody::from_owned_reader(b"ab".to_vec());
    let mut buf = [0u8; 4];
    assert_eq!(b.read(&mut buf), 2);
    assert_eq!(b.read(&mut buf), 0);
    assert_eq!(b.read(&mut buf), 0);
}

#[test]
fn no_body_reads_nothing() {
    let mut b = SendBody::none();
    let mut buf = [9u8; 4];
    assert_eq!(b.read(&mut buf), 0);
    assert_eq!(buf, [9u8; 4]);
}

#[test]
fn read_adapter_reads_as_the_body_does() {
    let mut r = SendBody::from_owned_reader(b"hey".to_vec()).into_reader();
    let mut buf = [0u8; 2];
    assert_eq!(r.read(&mut buf), 2);
    assert_eq!(&buf, b"he");
    assert_eq!(r.read(&mut buf), 1);
    assert_eq!(r.read(&mut buf), 0);
}

#[test]
fn plain_values_answer_ok() {
    let resp = "hi".into_response();
    assert_eq!(resp.status(), 200);
    assert_eq!(NotFound.into_response().status(), 404);
}

fn headers(content_type: Option<&str>) -> HeaderMap {
    let mut h = HeaderMap::new();
    if let Some(v) = content_type {
        h.append("Content-Type", v.as_bytes());
    }
    h
}

#[test]
fn json_content_types() {
    assert!(content_type_is_json(&headers(None)).unwrap());
    assert!(content_type_is_json(&headers(Some("application/json"))).unwrap());
    assert!(content_type_is_json(&headers(Some(" Application/JSON ; charset=utf-8"))).unwrap());
    assert!(content_type_is_json(&headers(Some("application/vnd.api+json"))).unwrap());
    assert!(content_type_is_json(&headers(Some("text/plain"))).is_err());
    assert!(content_type_is_json(&headers(Some("text/x+json"))).is_err());
    assert!(content_type_is_json(&headers(Some("application/json5"))).is_err());
    assert!(content_type_is_json(&headers(Some("application/+jsonx"))).is_err());
}
