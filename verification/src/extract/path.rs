//! The captures of the matched route pattern.
use vstd::prelude::*;

use super::FromRequestParts;
use crate::into_res::{bare_response, IntoResponse};
use crate::message::{Parts, Response};
use crate::send_body::SendBody;

verus! {

/// Extract the captures of the matched route pattern.
///
/// As a list of strings it holds the captured values in the order the pattern
/// names them.
pub struct Path<T>(pub T);

/// The captured values, in order, of a list of captures.
pub open spec fn capture_values(ps: Seq<(String, String)>) -> Seq<Seq<char>> {
    ps.map_values(|p: (String, String)| p.1@)
}

/// The views of a list of strings.
pub open spec fn strings_view(v: Seq<String>) -> Seq<Seq<char>> {
    v.map_values(|s: String| s@)
}

impl<S> FromRequestParts<S> for Path<Vec<String>> {
    type Rejection = PathRejection;

    /// The captured values in order, or a rejection when the request was not
    /// routed.
    fn from_request_parts(parts: &mut Parts, _state: &S) -> (r: Result<Self, Self::Rejection>)
        ensures
            match old(parts).path_params {
                None => r is Err,
                Some(ps) => r matches Ok(p) && strings_view(p.0@) == capture_values(ps@),
            },
            *final(parts) == *old(parts),
    {
        match &parts.path_params {
            None => Err(PathRejection),
            Some(ps) => {
                let mut values: Vec<String> = Vec::new();
                let mut i: usize = 0;
                while i < ps.len()
                    invariant
                        0 <= i <= ps@.len(),
                        values@.len() == i,
                        forall|j: int| 0 <= j < i ==> (#[trigger] values@[j])@ == ps@[j].1@,
                    decreases ps@.len() - i,
                {
                    values.push(ps[i].1.clone());
                    i = i + 1;
                }
                assert(strings_view(values@) =~= capture_values(ps@));
                Ok(Path(values))
            },
        }
    }
}

/// Error returned when the captures cannot be extracted; a `400 Bad Request`.
#[derive(Debug)]
pub struct PathRejection;

impl IntoResponse for PathRejection {
    fn into_response(self) -> (r: Response)
        ensures
            r@ == bare_response(400),
    {
        Response::with_status(400, SendBody::none())
    }
}

} // verus!
