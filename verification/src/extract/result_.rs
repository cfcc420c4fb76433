//! Extraction that hands its failure to the handler instead of rejecting.
use vstd::prelude::*;

use super::{FromRequest, FromRequestParts};
use crate::message::{Parts, Request};

verus! {

impl<S, T> FromRequestParts<S> for Result<T, <T as FromRequestParts<S>>::Rejection> where
    T: FromRequestParts<S>,
 {
    type Rejection = std::convert::Infallible;

    /// `Ok` of what the inner extraction gives, success or failure, on the
    /// same parts, which it may change as it does; this never rejects.
    fn from_request_parts(parts: &mut Parts, state: &S) -> (r: Result<Self, Self::Rejection>)
        ensures
            r matches Ok(inner) && exists|a: &mut Parts|
                *a == *old(parts) && *final(a) == *final(parts) && call_ensures(
                    T::from_request_parts,
                    (a, state),
                    inner,
                ),
    {
        let x = T::from_request_parts(parts, state);
        Ok(x)
    }
}

impl<S, T> FromRequest<S> for Result<T, <T as FromRequest<S>>::Rejection> where
    T: FromRequest<S>,
 {
    type Rejection = std::convert::Infallible;

    /// `Ok` of what the inner extraction gives, success or failure, on the
    /// same state and request; this never rejects.
    fn from_request(state: &S, request: Request) -> (r: Result<Self, Self::Rejection>)
        ensures
            r matches Ok(inner) && call_ensures(T::from_request, (state, request), inner),
    {
        Ok(T::from_request(state, request))
    }
}

} // verus!
