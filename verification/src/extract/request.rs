//! The whole request as an extractor.
use vstd::prelude::*;

use super::FromRequest;
use crate::message::Request;

verus! {

impl<S> FromRequest<S> for Request {
    type Rejection = std::convert::Infallible;

    /// The request itself.
    fn from_request(_state: &S, request: Request) -> (r: Result<Self, Self::Rejection>)
        ensures
            r == Ok::<Request, std::convert::Infallible>(request),
    {
        Ok(request)
    }
}

} // verus!
