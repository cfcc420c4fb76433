//! The request head's own fields as extractors.
use vstd::prelude::*;

use super::FromRequestParts;
use crate::message::{HeaderMap, Method, Parts, Uri, Version};

verus! {

impl<S> FromRequestParts<S> for Method {
    type Rejection = std::convert::Infallible;

    /// The request method.
    fn from_request_parts(parts: &mut Parts, _state: &S) -> (r: Result<Self, Self::Rejection>)
        ensures
            r matches Ok(m) && m@ == old(parts).method@,
            *final(parts) == *old(parts),
    {
        Ok(parts.method.clone())
    }
}

impl<S> FromRequestParts<S> for Uri {
    type Rejection = std::convert::Infallible;

    /// The request target.
    fn from_request_parts(parts: &mut Parts, _state: &S) -> (r: Result<Self, Self::Rejection>)
        ensures
            r matches Ok(u) && u@ == old(parts).uri@,
            *final(parts) == *old(parts),
    {
        Ok(parts.uri.clone())
    }
}

impl<S> FromRequestParts<S> for Version {
    type Rejection = std::convert::Infallible;

    /// The protocol version.
    fn from_request_parts(parts: &mut Parts, _state: &S) -> (r: Result<Self, Self::Rejection>)
        ensures
            r == Ok::<Version, std::convert::Infallible>(old(parts).version),
            *final(parts) == *old(parts),
    {
        Ok(parts.version)
    }
}

impl<S> FromRequestParts<S> for HeaderMap {
    type Rejection = std::convert::Infallible;

    /// A copy of the header fields.
    fn from_request_parts(parts: &mut Parts, _state: &S) -> (r: Result<Self, Self::Rejection>)
        ensures
            r matches Ok(h) && h@ == old(parts).headers@,
            *final(parts) == *old(parts),
    {
        Ok(parts.headers.clone())
    }
}

} // verus!
