//! The body as UTF-8 text, under a size limit.
use vstd::prelude::*;
use vstd::utf8::*;

use super::FromRequest;
use crate::into_res::{bare_response, IntoResponse};
use crate::message::{Request, Response};
use crate::send_body::SendBody;

verus! {

/// UTF-8 text body extractor with a size limit.
///
/// Reads the entire request body as text, enforcing a maximum of `MAX`
/// bytes. Invalid UTF-8 or bodies larger than the limit are rejected with a
/// `400 Bad Request`.
pub struct Text<const MAX: u64>(pub String);

impl<S, const MAX: u64> FromRequest<S> for Text<MAX> {
    type Rejection = TextRejection;

    /// The body's text when it has at most `MAX` bytes and they are valid
    /// UTF-8.
    fn from_request(_state: &S, request: Request) -> (r: Result<Self, Self::Rejection>)
        ensures
            request.body.remaining().len() <= MAX && valid_utf8(request.body.remaining()) ==> (r matches Ok(t)
                && t.0@ == decode_utf8(request.body.remaining())),
            request.body.remaining().len() > MAX || !valid_utf8(request.body.remaining()) ==> r is Err,
    {
        let (_parts, mut body) = request.into_parts();
        match body.with_config().limit(MAX).read_to_string() {
            Ok(text) => Ok(Text(text)),
            Err(_) => Err(TextRejection),
        }
    }
}

/// Error returned when reading a text body fails; a `400 Bad Request`.
#[derive(Debug)]
pub struct TextRejection;

impl IntoResponse for TextRejection {
    fn into_response(self) -> (r: Response)
        ensures
            r@ == bare_response(400),
    {
        Response::with_status(400, SendBody::none())
    }
}

} // verus!
