//! Arguments that consume the request.
use vstd::prelude::*;

use crate::extract::query::{opt_str_view, QueryRejection};
use crate::extract::{FromQuery, Query};
use crate::into_res::IntoResponse;
use crate::message::Request;

verus! {


/// A handler argument that consumes the request.
pub trait Arg<S>: Sized {
    /// The error when the argument cannot be built; it becomes a response.
    type Rejection: IntoResponse;

    /// Builds the argument from the application state and the request.
    fn from_request(state: &S, request: Request) -> Result<Self, Self::Rejection>;
}

impl<S> Arg<S> for Request {
    type Rejection = std::convert::Infallible;

    /// The request itself, unchanged.
    fn from_request(_state: &S, request: Request) -> (r: Result<Self, Self::Rejection>)
        ensures
            r == Ok::<Request, std::convert::Infallible>(request),
    {
        Ok(request)
    }
}

impl<S, T: FromQuery> Arg<S> for Query<T> {
    type Rejection = QueryRejection;

    /// The value the URI's query gives.
    fn from_request(_state: &S, request: Request) -> (r: Result<Self, Self::Rejection>)
        ensures
            (r is Ok) == T::accepts(request.parts.uri@.query),
            r matches Ok(q) ==> T::parsed(request.parts.uri@.query, q.0),
    {
        let q = request.uri().query();
        assert(opt_str_view(q) == request.parts.uri@.query);
        match T::from_query(q) {
            Ok(value) => Ok(Query(value)),
            Err(e) => Err(e),
        }
    }
}

} // verus!
