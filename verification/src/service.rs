//! The callable service a router compiles into.
use std::marker::PhantomData;
use vstd::prelude::*;
use vstd::string::*;

use crate::handler::Handler;
use crate::into_res::{bare_response, IntoResponse, NotFound};
use crate::message::{MethodView, Request, Response, ResponseView};
use crate::router::{allow_text, routed_request, BuiltRouter, CallResult, Callable, Router};
use crate::send_body::{SendBody, SendBodyView};
use crate::text::lower_seq;

verus! {

/// The `405 Method Not Allowed` answer: an `Allow` header field holding
/// `allow`, and no body.
pub open spec fn not_allowed_response(allow: Seq<char>) -> ResponseView {
    ResponseView {
        status: 405,
        headers: seq![(lower_seq("Allow".spec_bytes()), vstd::utf8::encode_utf8(allow))],
        body: SendBodyView { content: None, ended: false },
    }
}

/// A callable service produced from a router.
///
/// Build using `Router::build`, then call with a state and request to
/// produce a response.
pub struct Service<S, H> {
    state: PhantomData<S>,
    router: BuiltRouter<S, H>,
}

impl Service<(), ()> {
    /// Create a new empty router without application state.
    pub fn router<H>() -> (r: Router<(), H>)
        ensures
            r.keys() == Seq::<(MethodView, Seq<char>)>::empty(),
            r.handlers() == Seq::<H>::empty(),
    {
        Router::new()
    }

    /// Create a new empty router parameterized by application state `S`.
    ///
    /// The state is passed by value to the handler of each request.
    pub fn with_state<S, H>() -> (r: Router<S, H>)
        ensures
            r.keys() == Seq::<(MethodView, Seq<char>)>::empty(),
            r.handlers() == Seq::<H>::empty(),
    {
        Router::with_state()
    }
}

impl<S, H> Service<S, H> {
    /// The compiled router behind this service.
    pub closed spec fn built(&self) -> BuiltRouter<S, H> {
        self.router
    }

    pub(crate) fn new(router: BuiltRouter<S, H>) -> (r: Self)
        ensures
            r.built() == router,
    {
        Service { state: PhantomData, router }
    }
}

impl<S, H: Handler<S> + Clone> Service<S, H> {
    /// Call the service with the given state and request.
    ///
    /// A request that a route serves is answered by that route's handler,
    /// given the state and the request with the captures set on it. A
    /// request whose path matches a pattern with no route for its method is
    /// answered `405 Method Not Allowed` with an `Allow` header naming the
    /// pattern's methods. Any other request is answered `404 Not Found`.
    pub fn call(&self, state: S, request: Request) -> (r: Response)
        ensures
            match self.built().matched_pattern(request.parts.uri@.path) {
                None => r@ == bare_response(404),
                Some(id) => self.built().dispatch(request.parts.method@, request.parts.uri@.path)
                    is None ==> r@ == not_allowed_response(allow_text(self.built().entry_routes(id))),
            },
            match self.built().dispatch(request.parts.method@, request.parts.uri@.path) {
                Some((k, caps)) => exists|q: Request|
                    #[trigger] routed_request(q, request, caps) && call_ensures(
                        H::call,
                        (&self.built().handler_list()[k as int], state, q),
                        r,
                    ),
                None => true,
            },
            self.built().serves_static(request.parts.uri@.path),
    {
        match self.router.call(state, request) {
            CallResult::Handled(v) => v,
            CallResult::MethodNotAllowed(allow) => {
                let mut resp = Response::with_status(405, SendBody::none());
                resp.headers.append("Allow", allow.as_str().as_bytes());
                resp
            },
            CallResult::Unhandled(_, _) => NotFound.into_response(),
        }
    }
}

impl<S, H: Clone> Clone for Service<S, H> {
    fn clone(&self) -> (r: Self)
        ensures
            r.built().patterns() == self.built().patterns(),
            r.built().registered() == self.built().registered(),
            r.built().trie_contents() == self.built().trie_contents(),
            forall|m: MethodView, p: Seq<char>| #[trigger] r.built().dispatch(m, p)
                == self.built().dispatch(m, p),
    {
        Service { state: PhantomData, router: self.router.clone() }
    }
}

} // verus!
