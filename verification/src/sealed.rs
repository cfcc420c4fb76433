//! A marker that keeps the body conversions to the types this crate lists.
use vstd::prelude::*;

verus! {

/// Implemented only by the types that may become a response body.
pub trait Private {}

} // verus!
