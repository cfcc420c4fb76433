//! Request handlers.
use vstd::prelude::*;

use crate::message::{Request, Response};

verus! {

/// Something that answers a request, given the application state.
pub trait Handler<S> {
    /// Answers `request`.
    fn call(&self, state: S, request: Request) -> Response;
}

} // verus!
