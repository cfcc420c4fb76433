//! Extractors for building handlers.
//!
//! Two traits build values from a request:
//!
//! - [`FromRequestParts`] for head-only data (method, uri, headers, query,
//!   route captures, ...).
//! - [`FromRequest`] for extractors that consume the whole request.
use vstd::prelude::*;

use crate::into_res::IntoResponse;
use crate::message::{params_view, pairs_view, Parts, Request};

mod body;
mod bytes;
mod extension;
mod host;
pub mod json;
mod parts;
mod path;
pub mod query;
mod request;
mod result_;
mod text;

pub mod rejection;

pub use bytes::Bytes;
pub use extension::Extension;
pub use host::{host_outcome, Host};
pub use json::{content_type_is_json, json_content_type_ok, Json};
pub use path::Path;
pub use query::{form_parse, query_bytes, FromQuery, Query};
pub use text::Text;

verus! {

/// Builds a value from the head of a request and the application state.
///
/// The body is not accessible here.
pub trait FromRequestParts<S>: Sized {
    /// The error when extraction fails; it becomes a response.
    type Rejection: IntoResponse;

    /// Builds `Self` from the request head and the application state.
    fn from_request_parts(parts: &mut Parts, state: &S) -> Result<Self, Self::Rejection>;
}

/// Builds a value by consuming the whole request.
///
/// Used for extractors that read the body, and to take the request itself.
pub trait FromRequest<S>: Sized {
    /// The error when extraction fails; it becomes a response.
    type Rejection: IntoResponse;

    /// Builds `Self` from the application state and the request.
    fn from_request(state: &S, request: Request) -> Result<Self, Self::Rejection>;
}

/// Stores the captures of the matched route pattern on the request, where
/// the `Path` extractor finds them; nothing else of the request changes.
pub(crate) fn prepare_extractors(params: Vec<(String, String)>, request: &mut Request)
    ensures
        params_view(final(request).parts.path_params) == Some(pairs_view(params@)),
        final(request).parts.method == old(request).parts.method,
        final(request).parts.uri == old(request).parts.uri,
        final(request).parts.version == old(request).parts.version,
        final(request).parts.headers == old(request).parts.headers,
        final(request).parts.extensions == old(request).parts.extensions,
        final(request).body == old(request).body,
{
    request.parts.path_params = Some(params);
}

} // verus!
