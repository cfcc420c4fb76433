//! The host a request was sent to.
use vstd::prelude::*;
use vstd::string::*;

use super::FromRequestParts;
use crate::into_res::{bare_response, IntoResponse};
use crate::message::{all_visible, field_value, header_value_str, Parts, Response};
use crate::send_body::SendBody;
use crate::text::{ascii_chars, lower_seq};

verus! {

/// Host extractor.
///
/// The `Host` header when it is present and readable as text, otherwise the
/// URI's authority (if any); for example `"example.com"` or
/// `"example.com:8080"`.
pub struct Host(pub String);

/// The host of a request with header fields `headers` and URI authority
/// `authority`: the `Host` field's text when it can be read as text, else the
/// authority.
pub open spec fn host_outcome(
    headers: Seq<(Seq<u8>, Seq<u8>)>,
    authority: Option<Seq<char>>,
) -> Option<Seq<char>> {
    match field_value(headers, lower_seq("host".spec_bytes())) {
        Some(v) => if all_visible(v) {
            Some(ascii_chars(v))
        } else {
            authority
        },
        None => authority,
    }
}

impl<S> FromRequestParts<S> for Host {
    type Rejection = HostRejection;

    /// The host, or a rejection when neither the header nor the URI gives one.
    fn from_request_parts(parts: &mut Parts, _state: &S) -> (r: Result<Self, Self::Rejection>)
        ensures
            match host_outcome(old(parts).headers@, old(parts).uri@.authority) {
                Some(h) => r matches Ok(x) && x.0@ == h,
                None => r is Err,
            },
            *final(parts) == *old(parts),
    {
        match parts.headers.get("host") {
            Some(v) => match header_value_str(v.as_slice()) {
                Some(s) => {
                    return Ok(Host(s));
                },
                None => {},
            },
            None => {},
        }
        match parts.uri.authority() {
            Some(a) => Ok(Host(a.to_owned())),
            None => Err(HostRejection),
        }
    }
}

/// Error returned when no host can be determined; a `400 Bad Request`.
#[derive(Debug)]
pub struct HostRejection;

impl IntoResponse for HostRejection {
    fn into_response(self) -> (r: Response)
        ensures
            r@ == bare_response(400),
    {
        Response::with_status(400, SendBody::none())
    }
}

} // verus!
