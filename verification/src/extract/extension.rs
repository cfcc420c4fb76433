//! Typed values attached to a request.
use vstd::prelude::*;

use super::FromRequestParts;
use crate::into_res::{bare_response, IntoResponse};
use crate::message::{extensions_get, Parts, Response};
use crate::send_body::SendBody;

verus! {

/// Extract a copy of the value of type `T` attached to the request.
///
/// A missing value is a `500 Internal Server Error`.
pub struct Extension<T>(pub T);

impl<T: Clone> Extension<T> {
    /// The extractor's answer to a lookup: a copy of what was found, or the
    /// rejection when nothing was.
    pub fn from_lookup(found: Option<&T>) -> (r: Result<Extension<T>, ExtensionRejection>)
        ensures
            (r is Ok) == (found is Some),
            found matches Some(v) ==> r matches Ok(e) && cloned::<T>(*v, e.0),
    {
        match found {
            Some(v) => Ok(Extension(v.clone())),
            None => Err(ExtensionRejection),
        }
    }
}

impl<S, T> FromRequestParts<S> for Extension<T> where T: Clone + Send + Sync + 'static {
    type Rejection = ExtensionRejection;

    /// A copy of the value of type `T` attached to the request, or the
    /// rejection when there is none; which of the two comes is decided by
    /// the typed map, which the contract cannot name, so only that the head
    /// is unchanged is stated.
    fn from_request_parts(parts: &mut Parts, _state: &S) -> (r: Result<Self, Self::Rejection>)
        ensures
            *final(parts) == *old(parts),
    {
        Extension::from_lookup(extensions_get::<T>(&parts.extensions))
    }
}

/// Returned when a required extension is missing; a `500 Internal Server
/// Error`.
#[derive(Debug)]
pub struct ExtensionRejection;

impl IntoResponse for ExtensionRejection {
    fn into_response(self) -> (r: Response)
        ensures
            r@ == bare_response(500),
    {
        Response::with_status(500, SendBody::none())
    }
}

} // verus!
