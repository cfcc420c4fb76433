//! Arguments read from a borrowed request.
use vstd::prelude::*;

use crate::extract::query::QueryRejection;
use crate::extract::{FromQuery, Query};
use crate::into_res::IntoResponse;
use crate::message::{HeaderMap, Method, Request, Uri, Version};

verus! {

/// A handler argument read from a borrowed request.
pub trait RefArg<S>: Sized {
    /// The error when the argument cannot be built; it becomes a response.
    type Rejection: IntoResponse;

    /// Builds the argument from the application state and the request.
    fn from_request(state: &S, request: &Request) -> Result<Self, Self::Rejection>;
}

impl<S> RefArg<S> for Method {
    type Rejection = std::convert::Infallible;

    /// The request method.
    fn from_request(_state: &S, request: &Request) -> (r: Result<Self, Self::Rejection>)
        ensures
            r matches Ok(m) && m@ == request.parts.method@,
    {
        Ok(request.parts.method.clone())
    }
}

impl<S> RefArg<S> for Uri {
    type Rejection = std::convert::Infallible;

    /// The request target.
    fn from_request(_state: &S, request: &Request) -> (r: Result<Self, Self::Rejection>)
        ensures
            r matches Ok(u) && u@ == request.parts.uri@,
    {
        Ok(request.parts.uri.clone())
    }
}

impl<S> RefArg<S> for Version {
    type Rejection = std::convert::Infallible;

    /// The protocol version.
    fn from_request(_state: &S, request: &Request) -> (r: Result<Self, Self::Rejection>)
        ensures
            r == Ok::<Version, std::convert::Infallible>(request.parts.version),
    {
        Ok(request.parts.version)
    }
}

impl<S> RefArg<S> for HeaderMap {
    type Rejection = std::convert::Infallible;

    /// A copy of the header fields.
    fn from_request(_state: &S, request: &Request) -> (r: Result<Self, Self::Rejection>)
        ensures
            r matches Ok(h) && h@ == request.parts.headers@,
    {
        Ok(request.parts.headers.clone())
    }
}

impl<S, T: FromQuery> RefArg<S> for Query<T> {
    type Rejection = QueryRejection;

    /// The value the URI's query gives.
    fn from_request(_state: &S, request: &Request) -> (r: Result<Self, Self::Rejection>)
        ensures
            (r is Ok) == T::accepts(request.parts.uri@.query),
            r matches Ok(q) ==> T::parsed(request.parts.uri@.query, q.0),
    {
        let q = request.parts.uri.query();
        match T::from_query(q) {
            Ok(value) => Ok(Query(value)),
            Err(e) => Err(e),
        }
    }
}

} // verus!
