//! The request body as an extractor.
use vstd::prelude::*;

use super::FromRequest;
use crate::body::Body;
use crate::message::Request;

verus! {

impl<S> FromRequest<S> for Body {
    type Rejection = std::convert::Infallible;

    /// The request's body.
    fn from_request(_state: &S, request: Request) -> (r: Result<Self, Self::Rejection>)
        ensures
            r == Ok::<Body, std::convert::Infallible>(request.body),
    {
        let (_parts, body) = request.into_parts();
        Ok(body)
    }
}

} // verus!
