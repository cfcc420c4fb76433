//! The body's bytes, under a size limit.
use vstd::prelude::*;

use super::FromRequest;
use crate::into_res::{bare_response, IntoResponse};
use crate::message::{Request, Response};
use crate::send_body::SendBody;

verus! {

/// Raw bytes body extractor with a size limit.
///
/// Reads the entire request body, enforcing a maximum of `MAX` bytes. Bodies
/// larger than the limit are rejected with a `400 Bad Request`.
pub struct Bytes<const MAX: u64>(pub Vec<u8>);

impl<S, const MAX: u64> FromRequest<S> for Bytes<MAX> {
    type Rejection = BytesRejection;

    /// The body's bytes when there are at most `MAX` of them.
    fn from_request(_state: &S, request: Request) -> (r: Result<Self, Self::Rejection>)
        ensures
            request.body.remaining().len() <= MAX ==> (r matches Ok(b) && b.0@
                == request.body.remaining()),
            request.body.remaining().len() > MAX ==> r is Err,
    {
        let (_parts, mut body) = request.into_parts();
        match body.with_config().limit(MAX).read_to_vec() {
            Ok(bytes) => Ok(Bytes(bytes)),
            Err(_) => Err(BytesRejection),
        }
    }
}

/// Error returned when reading a bytes body fails; a `400 Bad Request`.
#[derive(Debug)]
pub struct BytesRejection;

impl IntoResponse for BytesRejection {
    fn into_response(self) -> (r: Response)
        ensures
            r@ == bare_response(400),
    {
        Response::with_status(400, SendBody::none())
    }
}

} // verus!
