//! Extra request conditions checked after a route matches.
use vstd::prelude::*;

use crate::message::{Method, Request};

verus! {

/// Whether a request that matched a route on `method` and `path` is to be
/// served by it; no further condition is checked, so it always is.
pub(crate) fn request_matcher(_request: &Request, _method: &Method, _path: &str) -> (r: bool)
    ensures
        r,
{
    true
}

} // verus!
