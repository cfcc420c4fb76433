//! The query string, parsed as `application/x-www-form-urlencoded`.
use vstd::prelude::*;
use vstd::string::*;
use vstd::utf8::*;

use super::{FromRequest, FromRequestParts};
use crate::into_res::{bare_response, IntoResponse};
use crate::message::{pairs_view, Parts, Request, Response};
use crate::send_body::SendBody;

verus! {

/// The name/value pairs that `form_urlencoded::parse` gives for a byte
/// string.
pub uninterp spec fn form_parse(input: Seq<u8>) -> Seq<(Seq<char>, Seq<char>)>;

/// Calls `form_urlencoded::parse` and collects its pairs. The pairs are named
/// by `form_parse`; the source shows that empty input yields none.
#[verifier::external_body]
fn form_pairs(input: &[u8]) -> (r: Vec<(String, String)>)
    ensures
        pairs_view(r@) == form_parse(input@),
        input@.len() == 0 ==> r@.len() == 0,
{
    form_urlencoded::parse(input).into_owned().collect()
}

/// The bytes of an optional query string; no query is the empty string.
pub open spec fn query_bytes(q: Option<Seq<char>>) -> Seq<u8> {
    match q {
        Some(s) => encode_utf8(s),
        None => Seq::empty(),
    }
}

/// The view of an optional string slice.
pub open spec fn opt_str_view(q: Option<&str>) -> Option<Seq<char>> {
    match q {
        Some(s) => Some(s@),
        None => None,
    }
}

/// Query string extractor.
///
/// Parses the URI query string with `application/x-www-form-urlencoded`
/// semantics (percent-decodes and treats `+` as space).
pub struct Query<T>(pub T);

/// Builds a value from an optional raw query string.
pub trait FromQuery: Sized {
    /// Whether a value is built from the query.
    spec fn accepts(query: Option<Seq<char>>) -> bool;

    /// Whether `value` is what the query gives.
    spec fn parsed(query: Option<Seq<char>>, value: Self) -> bool;

    /// Parses an optional raw query string into `Self`.
    fn from_query(query: Option<&str>) -> (r: Result<Self, QueryRejection>)
        ensures
            (r is Ok) == Self::accepts(opt_str_view(query)),
            r matches Ok(v) ==> Self::parsed(opt_str_view(query), v),
    ;
}

impl FromQuery for Vec<(String, String)> {
    open spec fn accepts(query: Option<Seq<char>>) -> bool {
        true
    }

    open spec fn parsed(query: Option<Seq<char>>, value: Self) -> bool {
        pairs_view(value@) == form_parse(query_bytes(query))
    }

    /// The decoded name/value pairs in order; this never fails.
    fn from_query(query: Option<&str>) -> (r: Result<Self, QueryRejection>) {
        match query {
            Some(q) => Ok(form_pairs(q.as_bytes())),
            None => {
                let empty: Vec<u8> = Vec::new();
                Ok(form_pairs(empty.as_slice()))
            },
        }
    }
}

impl<S, T: FromQuery> FromRequestParts<S> for Query<T> {
    type Rejection = QueryRejection;

    /// The value the URI's query gives.
    fn from_request_parts(parts: &mut Parts, _state: &S) -> (r: Result<Self, Self::Rejection>)
        ensures
            (r is Ok) == T::accepts(old(parts).uri@.query),
            r matches Ok(q) ==> T::parsed(old(parts).uri@.query, q.0),
            *final(parts) == *old(parts),
    {
        match T::from_query(parts.uri.query()) {
            Ok(value) => Ok(Query(value)),
            Err(e) => Err(e),
        }
    }
}

impl<S, T: FromQuery> FromRequest<S> for Query<T> {
    type Rejection = QueryRejection;

    /// The value the URI's query gives.
    fn from_request(_state: &S, request: Request) -> (r: Result<Self, Self::Rejection>)
        ensures
            (r is Ok) == T::accepts(request.parts.uri@.query),
            r matches Ok(q) ==> T::parsed(request.parts.uri@.query, q.0),
    {
        match T::from_query(request.uri().query()) {
            Ok(value) => Ok(Query(value)),
            Err(e) => Err(e),
        }
    }
}

/// Error returned when the query cannot be parsed; a `400 Bad Request`.
#[derive(Debug)]
pub struct QueryRejection;

impl IntoResponse for QueryRejection {
    fn into_response(self) -> (r: Response)
        ensures
            r@ == bare_response(400),
    {
        Response::with_status(400, SendBody::none())
    }
}

} // verus!
