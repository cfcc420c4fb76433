//! The path matcher: `matchit`'s router, keyed by route index.
use vstd::prelude::*;

use crate::message::pairs_view;
use crate::router::{is_static_path, named_params};
use matchit::Router as Matcher;

verus! {

/// Declared so that the compiled router can hold `matchit`'s router.
#[verifier::external_type_specification]
#[verifier::external_body]
#[verifier::reject_recursive_types(T)]
pub struct ExMatchitRouter<T>(Matcher<T>);

/// The insertions, in order, that built a matcher: each route pattern with
/// the value stored under it, whether or not `matchit` accepted it.
pub uninterp spec fn trie_inserts(t: Matcher<usize>) -> Seq<(Seq<char>, usize)>;

/// What `matchit::Router::at` finds for a path in the matcher built by the
/// given insertions: the stored value and the captures, in pattern order.
pub uninterp spec fn trie_match(
    inserts: Seq<(Seq<char>, usize)>,
    path: Seq<char>,
) -> Option<(usize, Seq<(Seq<char>, Seq<char>)>)>;

/// Whether `matchit::Router::insert` takes pattern `route` into the matcher
/// built by the given insertions; it refuses a pattern that conflicts with
/// one it holds, and an invalid one.
pub uninterp spec fn trie_accepts(inserts: Seq<(Seq<char>, usize)>, route: Seq<char>) -> bool;

/// The value of the first insertion of pattern `p`, if any.
pub open spec fn first_insert_of(inserts: Seq<(Seq<char>, usize)>, p: Seq<char>) -> Option<usize>
    decreases inserts.len(),
{
    if inserts.len() == 0 {
        None
    } else if inserts[0].0 == p {
        Some(inserts[0].1)
    } else {
        first_insert_of(inserts.drop_first(), p)
    }
}

/// Calls `matchit::Router::new`: a matcher with no insertions.
#[verifier::external_body]
pub(crate) fn trie_new() -> (t: Matcher<usize>)
    ensures
        trie_inserts(t) == Seq::<(Seq<char>, usize)>::empty(),
{
    Matcher::new()
}

/// Calls `matchit::Router::insert` and tells whether it took the pattern
/// (named by `trie_accepts`). The insertion is recorded either way, as what
/// `at` finds afterwards is named over all insertions. `matchit` panics on a
/// pattern with 26 or more named parameters, so such patterns are left out.
#[verifier::external_body]
pub(crate) fn trie_insert(t: &mut Matcher<usize>, route: &str, id: usize) -> (accepted: bool)
    requires
        named_params(route@) <= 25,
    ensures
        trie_inserts(*final(t)) == trie_inserts(*old(t)).push((route@, id)),
        accepted == trie_accepts(trie_inserts(*old(t)), route@),
{
    t.insert(route, id).is_ok()
}

/// Calls `matchit::Router::at` and copies the value and the captures out of
/// the match; the result is named by `trie_match`. The value found is one
/// that an insertion stored, as only `insert` stores values. A static path
/// that was inserted matches itself, with no captures, and gives the value
/// of its first insertion: static segments never conflict with dynamic ones
/// and take priority over them, and a second insertion of the same pattern
/// is refused as a conflict.
#[verifier::external_body]
pub(crate) fn trie_at(t: &Matcher<usize>, path: &str) -> (r: Option<
    (usize, Vec<(String, String)>),
>)
    ensures
        match r {
            None => trie_match(trie_inserts(*t), path@) is None,
            Some(m) => trie_match(trie_inserts(*t), path@) == Some((m.0, pairs_view(m.1@))),
        },
        r matches Some(m) ==> exists|i: int|
            0 <= i < trie_inserts(*t).len() && (#[trigger] trie_inserts(*t)[i]).1 == m.0,
        match r {
            Some(m) => is_static_path(path@) && first_insert_of(trie_inserts(*t), path@) is Some
                ==> m.0 == first_insert_of(trie_inserts(*t), path@).unwrap() && m.1@.len() == 0,
            None => !(is_static_path(path@) && first_insert_of(trie_inserts(*t), path@) is Some),
        },
{
    match t.at(path) {
        Ok(m) => Some((*m.value, m.params.iter().map(|(k, v)| (k.to_string(), v.to_string())).collect())),
        Err(_) => None,
    }
}

/// Calls `matchit::Router`'s `Clone`: a copy matches as the router it copies does.
#[verifier::external_body]
pub(crate) fn trie_clone(t: &Matcher<usize>) -> (r: Matcher<usize>)
    ensures
        trie_inserts(r) == trie_inserts(*t),
{
    t.clone()
}

} // verus!
