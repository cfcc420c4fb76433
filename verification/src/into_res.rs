//! Conversion of handler results and rejections into responses.
use vstd::prelude::*;

use crate::message::{HeaderMap, Response, ResponseView};
use crate::send_body::{IntoSendBody, SendBody, SendBodyView};

verus! {

/// A response of the given status with no header fields and no body.
pub open spec fn bare_response(status: u16) -> ResponseView {
    ResponseView {
        status,
        headers: Seq::empty(),
        body: SendBodyView { content: None, ended: false },
    }
}

/// Convert a value into an HTTP response.
pub trait IntoResponse {
    /// The value as a response.
    fn into_response(self) -> Response;
}

/// A 404 Not Found response; the answer when no route matches.
#[derive(Debug)]
pub struct NotFound;

impl IntoResponse for NotFound {
    fn into_response(self) -> (r: Response)
        ensures
            r@ == bare_response(404),
    {
        Response::with_status(404, SendBody::none())
    }
}

impl IntoResponse for std::convert::Infallible {
    /// No value of this type exists, so this is never called.
    fn into_response(self) -> (r: Response) {
        Response::with_status(500, SendBody::none())
    }
}

impl<T: IntoSendBody> IntoResponse for T {
    fn into_response(self) -> (r: Response)
        ensures
            r@ == (ResponseView {
                status: 200,
                headers: Seq::empty(),
                body: SendBodyView { content: self.send_content(), ended: false },
            }),
    {
        Response::with_status(200, self.into_body())
    }
}

} // verus!
