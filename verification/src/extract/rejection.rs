//! Rejection types returned by extractors.
//!
//! These types implement [`IntoResponse`](crate::IntoResponse) and are
//! returned when an extractor fails to build its value.
pub use super::bytes::BytesRejection;
pub use super::extension::ExtensionRejection;
pub use super::host::HostRejection;
pub use super::json::JsonRejection;
pub use super::path::PathRejection;
pub use super::query::QueryRejection;
pub use super::text::TextRejection;
