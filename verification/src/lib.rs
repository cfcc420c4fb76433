//! Minimal, synchronous HTTP/1.1 request routing and extraction.
mod handler;
mod matcher;
mod sealed;

pub mod arg;
pub mod body;
pub mod error;
pub mod extract;
pub mod into_res;
pub mod message;
pub mod router;
pub mod send_body;
pub mod service;
pub mod text;
pub mod trie;

pub use body::{Body, BodyBuilder, BodyReader, BodyWithConfig, MAX_BODY_SIZE};
pub use error::Error;
pub use extract::{FromQuery, FromRequest, FromRequestParts, Query};
pub use handler::Handler;
pub use into_res::{IntoResponse, NotFound};
pub use message::{HeaderMap, Method, Parts, Request, Response, Uri, Version};
pub use router::{BuiltRouter, CallResult, Callable, Router};
pub use send_body::{IntoSendBody, SendBody};
pub use service::Service;
