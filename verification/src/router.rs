//! Method-based route registration and router construction.
//!
//! You typically create a router using [`Service::router`] or
//! [`Service::with_state`].
use std::marker::PhantomData;
use vstd::prelude::*;

use crate::extract::prepare_extractors;
use crate::handler::Handler;
use crate::message::{method_name, pairs_view, params_view, Method, MethodView, Request, Response};
use crate::service::Service;
use crate::trie::{
    first_insert_of, trie_accepts, trie_at, trie_clone, trie_insert, trie_inserts, trie_match, trie_new,
};

verus! {

struct RouteSpec<H> {
    method: Method,
    path: String,
    handler: H,
}

/// Builder for registering routes that compiles into a callable router.
///
/// Use the method helpers (for example `get`, `post`) to register routes, then
/// call `build` to produce a `Service` that can handle requests.
pub struct Router<S, H> {
    routes: Vec<RouteSpec<H>>,
    state: PhantomData<S>,
}

/// The routes registered for pattern `p`, in registration order, each as its
/// method and its index among all routes.
pub open spec fn routes_for(reg: Seq<(MethodView, Seq<char>)>, p: Seq<char>) -> Seq<
    (MethodView, usize),
>
    decreases reg.len(),
{
    if reg.len() == 0 {
        Seq::empty()
    } else {
        let prev = routes_for(reg.drop_last(), p);
        if reg.last().1 == p {
            prev.push((reg.last().0, (reg.len() - 1) as usize))
        } else {
            prev
        }
    }
}

/// How many named parameters a route pattern opens, reading it from the
/// left: `{{` is an escaped brace, `{*` opens a catch-all, and any other
/// `{` opens a named parameter.
pub open spec fn named_params(p: Seq<char>) -> nat
    decreases p.len(),
{
    if p.len() == 0 {
        0
    } else if p[0] == '{' && p.len() > 1 && p[1] == '{' {
        named_params(p.skip(2))
    } else if p[0] == '{' && p.len() > 1 && p[1] == '*' {
        named_params(p.skip(1))
    } else if p[0] == '{' {
        1 + named_params(p.skip(1))
    } else {
        named_params(p.skip(1))
    }
}

/// Whether `p` is a path that is also a static pattern: it begins with `/`
/// and holds no `{`, `}` or `*`.
pub open spec fn is_static_path(p: Seq<char>) -> bool {
    &&& p.len() > 0
    &&& p[0] == '/'
    &&& forall|i: int| 0 <= i < p.len() ==> #[trigger] p[i] != '{' && p[i] != '}' && p[i] != '*'
}

/// The position of the first entry of `l` for method `m`.
pub open spec fn first_method(l: Seq<(MethodView, usize)>, m: MethodView) -> Option<int>
    decreases l.len(),
{
    if l.len() == 0 {
        None
    } else if l[0].0 == m {
        Some(0)
    } else {
        match first_method(l.drop_first(), m) {
            Some(j) => Some(j + 1),
            None => None,
        }
    }
}

/// The distinct patterns of the registered routes, in order of first
/// registration.
pub open spec fn first_patterns(reg: Seq<(MethodView, Seq<char>)>) -> Seq<Seq<char>>
    decreases reg.len(),
{
    if reg.len() == 0 {
        Seq::empty()
    } else {
        let prev = first_patterns(reg.drop_last());
        if prev.contains(reg.last().1) {
            prev
        } else {
            prev.push(reg.last().1)
        }
    }
}

/// The first `n` of `patterns`, each with its position as the value stored
/// under it: the insertions that compile them into the path matcher.
pub open spec fn numbered(patterns: Seq<Seq<char>>, n: nat) -> Seq<(Seq<char>, usize)> {
    Seq::new(n, |q: int| (patterns[q], q as usize))
}

/// Whether the path matcher takes each of `patterns`, inserted in turn:
/// none conflicts with one before it, and none is invalid.
pub open spec fn patterns_compile(patterns: Seq<Seq<char>>) -> bool {
    forall|i: int|
        0 <= i < patterns.len() ==> #[trigger] trie_accepts(numbered(patterns, i as nat), patterns[i])
}

/// The views of a list of strings.
pub open spec fn string_views(v: Seq<String>) -> Seq<Seq<char>> {
    v.map_values(|s: String| s@)
}

/// Whether some registered route has pattern `p`.
pub open spec fn has_pattern(reg: Seq<(MethodView, Seq<char>)>, p: Seq<char>) -> bool {
    exists|j: int| 0 <= j < reg.len() && reg[j].1 == p
}

/// The distinct methods of a pattern's routes, in order of first
/// registration.
pub open spec fn distinct_methods(l: Seq<(MethodView, usize)>) -> Seq<MethodView>
    decreases l.len(),
{
    if l.len() == 0 {
        Seq::empty()
    } else {
        let prev = distinct_methods(l.drop_last());
        if prev.contains(l.last().0) {
            prev
        } else {
            prev.push(l.last().0)
        }
    }
}

/// Names joined by `", "`.
pub open spec fn join_names(ns: Seq<Seq<char>>) -> Seq<char>
    decreases ns.len(),
{
    if ns.len() == 0 {
        Seq::empty()
    } else if ns.len() == 1 {
        ns[0]
    } else {
        join_names(ns.drop_last()) + ", "@ + ns.last()
    }
}

/// The names of a list of methods.
pub open spec fn method_names(ms: Seq<MethodView>) -> Seq<Seq<char>> {
    ms.map_values(|m: MethodView| method_name(m))
}

/// The `Allow` header value for a pattern's routes: the names of its
/// methods, each once, in order of first registration, joined by `", "`.
pub open spec fn allow_text(l: Seq<(MethodView, usize)>) -> Seq<char> {
    join_names(method_names(distinct_methods(l)))
}

/// Whether `q` is `request` as routed: the same head and body, with the
/// captures `caps` of the matched pattern set on it.
pub open spec fn routed_request(q: Request, request: Request, caps: Seq<(Seq<char>, Seq<char>)>) -> bool {
    &&& q.parts.method == request.parts.method
    &&& q.parts.uri == request.parts.uri
    &&& q.parts.version == request.parts.version
    &&& q.parts.headers == request.parts.headers
    &&& q.parts.extensions == request.parts.extensions
    &&& q.body == request.body
    &&& params_view(q.parts.path_params) == Some(caps)
}

/// Whether route `k` is the first one registered with method `m` and
/// pattern `p`.
pub open spec fn is_first_route(
    reg: Seq<(MethodView, Seq<char>)>,
    m: MethodView,
    p: Seq<char>,
    k: int,
) -> bool {
    &&& 0 <= k < reg.len()
    &&& reg[k] == (m, p)
    &&& forall|j: int| 0 <= j < k ==> reg[j] != (m, p)
}

impl<S, H> Router<S, H> {
    /// The registered routes, in order, as method and pattern.
    pub closed spec fn keys(&self) -> Seq<(MethodView, Seq<char>)> {
        self.routes@.map_values(|r: RouteSpec<H>| (r.method@, r.path@))
    }

    /// The registered handlers, in order.
    pub closed spec fn handlers(&self) -> Seq<H> {
        self.routes@.map_values(|r: RouteSpec<H>| r.handler)
    }

    pub(crate) fn with_state() -> (r: Router<S, H>)
        ensures
            r.keys() == Seq::<(MethodView, Seq<char>)>::empty(),
            r.handlers() == Seq::<H>::empty(),
    {
        let r = Router { routes: Vec::new(), state: PhantomData };
        assert(r.keys() =~= Seq::<(MethodView, Seq<char>)>::empty());
        assert(r.handlers() =~= Seq::<H>::empty());
        r
    }

    /// Register a handler for a specific HTTP method and path pattern.
    pub fn handle(self, method: Method, path: &str, handler: H) -> (r: Self)
        ensures
            r.keys() == self.keys().push((method@, path@)),
            r.handlers() == self.handlers().push(handler),
    {
        let mut routes = self.routes;
        routes.push(RouteSpec { method, path: path.to_owned(), handler });
        let r = Router { routes, state: PhantomData };
        assert(r.keys() =~= self.keys().push((method@, path@)));
        assert(r.handlers() =~= self.handlers().push(handler));
        r
    }

    /// Register a GET handler.
    pub fn get(self, path: &str, handler: H) -> (r: Self)
        ensures
            r.keys() == self.keys().push((MethodView::Get, path@)),
            r.handlers() == self.handlers().push(handler),
    {
        self.handle(Method::Get, path, handler)
    }

    /// Register a POST handler.
    pub fn post(self, path: &str, handler: H) -> (r: Self)
        ensures
            r.keys() == self.keys().push((MethodView::Post, path@)),
            r.handlers() == self.handlers().push(handler),
    {
        self.handle(Method::Post, path, handler)
    }

    /// Register a PUT handler.
    pub fn put(self, path: &str, handler: H) -> (r: Self)
        ensures
            r.keys() == self.keys().push((MethodView::Put, path@)),
            r.handlers() == self.handlers().push(handler),
    {
        self.handle(Method::Put, path, handler)
    }

    /// Register a DELETE handler.
    pub fn delete(self, path: &str, handler: H) -> (r: Self)
        ensures
            r.keys() == self.keys().push((MethodView::Delete, path@)),
            r.handlers() == self.handlers().push(handler),
    {
        self.handle(Method::Delete, path, handler)
    }

    /// Register a HEAD handler.
    pub fn head(self, path: &str, handler: H) -> (r: Self)
        ensures
            r.keys() == self.keys().push((MethodView::Head, path@)),
            r.handlers() == self.handlers().push(handler),
    {
        self.handle(Method::Head, path, handler)
    }

    /// Register an OPTIONS handler.
    pub fn options(self, path: &str, handler: H) -> (r: Self)
        ensures
            r.keys() == self.keys().push((MethodView::Options, path@)),
            r.handlers() == self.handlers().push(handler),
    {
        self.handle(Method::Options, path, handler)
    }

    /// Register a CONNECT handler.
    pub fn connect(self, path: &str, handler: H) -> (r: Self)
        ensures
            r.keys() == self.keys().push((MethodView::Connect, path@)),
            r.handlers() == self.handlers().push(handler),
    {
        self.handle(Method::Connect, path, handler)
    }

    /// Register a PATCH handler.
    pub fn patch(self, path: &str, handler: H) -> (r: Self)
        ensures
            r.keys() == self.keys().push((MethodView::Patch, path@)),
            r.handlers() == self.handlers().push(handler),
    {
        self.handle(Method::Patch, path, handler)
    }

    /// Register a TRACE handler.
    pub fn trace(self, path: &str, handler: H) -> (r: Self)
        ensures
            r.keys() == self.keys().push((MethodView::Trace, path@)),
            r.handlers() == self.handlers().push(handler),
    {
        self.handle(Method::Trace, path, handler)
    }

    /// The distinct patterns of the routes, in order of first registration.
    fn distinct_patterns(&self) -> (r: Vec<String>)
        ensures
            string_views(r@) == first_patterns(self.keys()),
            forall|e: int| 0 <= e < r@.len() ==> has_pattern(self.keys(), #[trigger] r@[e]@),
    {
        let ghost reg = self.keys();
        let mut patterns: Vec<String> = Vec::new();
        let mut k: usize = 0;
        while k < self.routes.len()
            invariant
                0 <= k <= self.routes@.len(),
                reg == self.keys(),
                string_views(patterns@) == first_patterns(reg.take(k as int)),
                forall|e: int| 0 <= e < patterns@.len() ==> has_pattern(reg, #[trigger] patterns@[e]@),
            decreases self.routes@.len() - k,
        {
            let path = &self.routes[k].path;
            assert(reg[k as int].1 == path@);
            let mut e: usize = 0;
            while e < patterns.len()
                invariant
                    0 <= e <= patterns@.len(),
                    forall|a: int| 0 <= a < e ==> (#[trigger] patterns@[a])@ != path@,
                ensures
                    0 <= e <= patterns@.len(),
                    forall|a: int| 0 <= a < e ==> (#[trigger] patterns@[a])@ != path@,
                    e < patterns@.len() ==> patterns@[e as int]@ == path@,
                decreases patterns@.len() - e,
            {
                if patterns[e].eq(path) {
                    break;
                }
                e = e + 1;
            }
            proof {
                assert(reg.take(k + 1).drop_last() =~= reg.take(k as int));
                assert(reg.take(k + 1).last() == reg[k as int]);
                let fp = first_patterns(reg.take(k as int));
                if e < patterns.len() {
                    assert(fp[e as int] == path@);
                } else {
                    assert forall|a: int| 0 <= a < fp.len() implies fp[a] != path@ by {
                        assert(fp[a] == patterns@[a]@);
                    }
                }
            }
            if e == patterns.len() {
                patterns.push(path.clone());
                proof {
                    assert(has_pattern(reg, path@)) by {
                        assert(0 <= k < reg.len() && reg[k as int].1 == path@);
                    }
                }
            }
            k = k + 1;
            assert(string_views(patterns@) =~= first_patterns(reg.take(k as int)));
        }
        assert(reg.take(k as int) =~= reg);
        patterns
    }

    /// Like `build`, but first compiles the patterns into a scratch matcher:
    /// when the matcher refuses one of them, it gives `None` and builds
    /// nothing.
    pub fn try_build(self) -> (r: Option<Service<S, H>>)
        requires
            forall|k: int|
                0 <= k < self.keys().len() ==> named_params(#[trigger] self.keys()[k].1) <= 25,
        ensures
            r is Some <==> patterns_compile(first_patterns(self.keys())),
            r matches Some(s) ==> s.built().registered() == self.keys() && s.built().handler_list()
                == self.handlers() && s.built().wf(),
    {
        let patterns = self.distinct_patterns();
        let ghost sv = string_views(patterns@);
        let ghost reg = self.keys();
        let mut scratch = trie_new();
        let mut i: usize = 0;
        assert(numbered(sv, 0) =~= Seq::<(Seq<char>, usize)>::empty());
        while i < patterns.len()
            invariant
                0 <= i <= patterns@.len(),
                sv == string_views(patterns@),
                sv == first_patterns(reg),
                reg == self.keys(),
                forall|e: int| 0 <= e < patterns@.len() ==> has_pattern(reg, #[trigger] patterns@[e]@),
                forall|k: int| 0 <= k < reg.len() ==> named_params(#[trigger] reg[k].1) <= 25,
                trie_inserts(scratch) =~= numbered(sv, i as nat),
                forall|q: int| 0 <= q < i ==> #[trigger] trie_accepts(numbered(sv, q as nat), sv[q]),
            decreases patterns@.len() - i,
        {
            proof {
                assert(has_pattern(reg, patterns@[i as int]@));
                let j = choose|j: int| 0 <= j < reg.len() && reg[j].1 == patterns@[i as int]@;
                assert(named_params(reg[j].1) <= 25);
            }
            let ghost before = trie_inserts(scratch);
            let accepted = trie_insert(&mut scratch, patterns[i].as_str(), i);
            let ghost ii: int = i as int;
            proof {
                assert(numbered(sv, ii as nat) =~= before);
                assert(sv[ii] == patterns@[ii]@);
            }
            if !accepted {
                assert(!trie_accepts(numbered(sv, ii as nat), sv[ii]));
                return None;
            }
            proof {
                assert(numbered(sv, (ii + 1) as nat) =~= before.push((sv[ii], i)));
            }
            i = i + 1;
        }
        Some(self.build())
    }

    /// Finalize the routes: group them by pattern, in order of first
    /// registration, and compile the path matcher over the patterns. A
    /// pattern that the matcher refuses (one that conflicts with an earlier
    /// pattern, or an invalid one) is a programming error, and so is a
    /// pattern with more than 25 named parameters, on which the matcher
    /// panics: the routes must be free of both. `try_build` checks for
    /// refused patterns.
    pub fn build(self) -> (r: Service<S, H>)
        requires
            forall|k: int|
                0 <= k < self.keys().len() ==> named_params(#[trigger] self.keys()[k].1) <= 25,
            patterns_compile(first_patterns(self.keys())),
        ensures
            r.built().registered() == self.keys(),
            r.built().handler_list() == self.handlers(),
            r.built().wf(),
    {
        let ghost reg = self.keys();
        let ghost hs = self.handlers();
        let mut patterns: Vec<String> = Vec::new();
        let mut route_entry: Vec<usize> = Vec::new();
        let mut route_methods: Vec<Method> = Vec::new();
        let mut handlers: Vec<H> = Vec::new();
        let routes = self.routes;
        let ghost rs = routes@;
        let n = routes.len();
        let mut k: usize = 0;
        for r in it: routes.into_iter()
            invariant
                k == it.index(),
                it.seq() == rs,
                n == rs.len(),
                reg == rs.map_values(|r: RouteSpec<H>| (r.method@, r.path@)),
                hs == rs.map_values(|r: RouteSpec<H>| r.handler),
                route_methods@.len() == k,
                route_entry@.len() == k,
                handlers@.len() == k,
                forall|j: int| 0 <= j < k ==> (#[trigger] route_methods@[j])@ == reg[j].0,
                forall|j: int| 0 <= j < k ==> #[trigger] handlers@[j] == hs[j],
                forall|j: int|
                    0 <= j < k ==> (#[trigger] route_entry@[j]) < patterns@.len()
                        && patterns@[route_entry@[j] as int]@ == reg[j].1,
                forall|a: int, b: int|
                    0 <= a < b < patterns@.len() ==> (#[trigger] patterns@[a])@ != (
                    #[trigger] patterns@[b])@,
                forall|e: int|
                    0 <= e < patterns@.len() ==> exists|j: int|
                        0 <= j < k && reg[j].1 == (#[trigger] patterns@[e])@,
                string_views(patterns@) == first_patterns(reg.take(k as int)),
        {
            assert(r == rs[k as int]);
            let RouteSpec { method, path, handler } = r;
            let mut e: usize = 0;
            while e < patterns.len()
                invariant
                    0 <= e <= patterns@.len(),
                    forall|a: int| 0 <= a < e ==> (#[trigger] patterns@[a])@ != path@,
                ensures
                    0 <= e <= patterns@.len(),
                    forall|a: int| 0 <= a < e ==> (#[trigger] patterns@[a])@ != path@,
                    e < patterns@.len() ==> patterns@[e as int]@ == path@,
                decreases patterns@.len() - e,
            {
                if patterns[e] == path {
                    break;
                }
                e = e + 1;
            }
            proof {
                assert(reg[k as int] == (method@, path@));
                assert(hs[k as int] == handler);
                assert(reg.take(k + 1).drop_last() =~= reg.take(k as int));
                assert(reg.take(k + 1).last() == reg[k as int]);
                let fp = first_patterns(reg.take(k as int));
                if e < patterns.len() {
                    assert(fp[e as int] == path@);
                } else {
                    assert forall|a: int| 0 <= a < fp.len() implies fp[a] != path@ by {
                        assert(fp[a] == patterns@[a]@);
                    }
                }
            }
            if e == patterns.len() {
                let ghost old_patterns = patterns@;
                patterns.push(path);
                proof {
                    assert forall|ee: int| 0 <= ee < patterns@.len() implies exists|j: int|
                        0 <= j < k + 1 && reg[j].1 == (#[trigger] patterns@[ee])@ by {
                        if ee < old_patterns.len() {
                            let j = choose|j: int| 0 <= j < k && reg[j].1 == old_patterns[ee]@;
                            assert(0 <= j < k + 1 && reg[j].1 == patterns@[ee]@);
                        } else {
                            assert(reg[k as int].1 == patterns@[ee]@);
                        }
                    }
                }
            }
            route_entry.push(e);
            route_methods.push(method);
            handlers.push(handler);
            k = k + 1;
            assert(string_views(patterns@) =~= first_patterns(reg.take(k as int)));
        }
        assert(reg.take(n as int) =~= reg);
        let mut paths: Vec<PathEntry> = Vec::new();
        let mut e: usize = 0;
        while e < patterns.len()
            invariant
                0 <= e <= patterns@.len(),
                n == reg.len(),
                route_methods@.len() == n,
                route_entry@.len() == n,
                forall|j: int| 0 <= j < n ==> (#[trigger] route_methods@[j])@ == reg[j].0,
                forall|j: int|
                    0 <= j < n ==> (#[trigger] route_entry@[j]) < patterns@.len()
                        && patterns@[route_entry@[j] as int]@ == reg[j].1,
                forall|a: int, b: int|
                    0 <= a < b < patterns@.len() ==> (#[trigger] patterns@[a])@ != (
                    #[trigger] patterns@[b])@,
                paths@.len() == e,
                forall|i: int|
                    0 <= i < e ==> (#[trigger] paths@[i]).path@ == patterns@[i]@
                        && entry_view(paths@[i]) == routes_for(reg, patterns@[i]@),
            decreases patterns@.len() - e,
        {
            let ghost p = patterns@[e as int]@;
            let mut methods: Vec<(Method, usize)> = Vec::new();
            let mut j: usize = 0;
            while j < n
                invariant
                    0 <= j <= n,
                    e < patterns@.len(),
                    p == patterns@[e as int]@,
                    n == reg.len(),
                    route_methods@.len() == n,
                    route_entry@.len() == n,
                    forall|q: int| 0 <= q < n ==> (#[trigger] route_methods@[q])@ == reg[q].0,
                    forall|q: int|
                        0 <= q < n ==> (#[trigger] route_entry@[q]) < patterns@.len()
                            && patterns@[route_entry@[q] as int]@ == reg[q].1,
                    forall|a: int, b: int|
                        0 <= a < b < patterns@.len() ==> (#[trigger] patterns@[a])@ != (
                        #[trigger] patterns@[b])@,
                    methods_view(methods@) == routes_for(reg.take(j as int), p),
                decreases n - j,
            {
                let ghost before = methods@;
                proof {
                    assert(reg.take(j + 1).drop_last() =~= reg.take(j as int));
                    assert(reg.take(j + 1).last() == reg[j as int]);
                    let q = route_entry@[j as int] as int;
                    if q != e as int {
                        if q < e as int {
                            assert(patterns@[q]@ != patterns@[e as int]@);
                        } else {
                            assert(patterns@[e as int]@ != patterns@[q]@);
                        }
                    }
                }
                if route_entry[j] == e {
                    methods.push((route_methods[j].clone(), j));
                    assert(methods_view(methods@) =~= methods_view(before).push(
                        (reg[j as int].0, j),
                    ));
                } else {
                    assert(methods_view(methods@) =~= methods_view(before));
                }
                j = j + 1;
            }
            assert(reg.take(n as int) =~= reg);
            paths.push(PathEntry { path: patterns[e].clone(), methods });
            e = e + 1;
        }
        let mut trie = trie_new();
        let mut i: usize = 0;
        while i < paths.len()
            invariant
                0 <= i <= paths@.len(),
                paths@.len() == patterns@.len(),
                forall|q: int| 0 <= q < paths@.len() ==> (#[trigger] paths@[q]).path@ == patterns@[q]@,
                forall|q: int| 0 <= q < patterns@.len() ==> has_pattern(reg, (#[trigger] patterns@[q])@),
                forall|k: int| 0 <= k < reg.len() ==> named_params(#[trigger] reg[k].1) <= 25,
                patterns_compile(string_views(patterns@)),
                trie_inserts(trie) =~= Seq::new(
                    i as nat,
                    |q: int| (paths@[q].path@, q as usize),
                ),
            decreases paths@.len() - i,
        {
            proof {
                assert(has_pattern(reg, patterns@[i as int]@));
                let j = choose|j: int| 0 <= j < reg.len() && reg[j].1 == patterns@[i as int]@;
                assert(named_params(reg[j].1) <= 25);
            }
            let ghost before = trie_inserts(trie);
            let accepted = trie_insert(&mut trie, paths[i].path.as_str(), i);
            proof {
                let sv = string_views(patterns@);
                let ii: int = i as int;
                assert(numbered(sv, ii as nat) =~= before);
                assert(sv[ii] == paths@[ii].path@);
                assert(trie_accepts(numbered(sv, ii as nat), sv[ii]));
            }
            assert(accepted);
            i = i + 1;
        }
        let ghost pats = paths@.map_values(|e: PathEntry| e.path@);
        proof {
            assert forall|q: int| 0 <= q < pats.len() implies #[trigger] pats[q]
                == patterns@[q]@ by {}
            assert forall|a: int, b: int| 0 <= a < b < pats.len() implies #[trigger] pats[a]
                != #[trigger] pats[b] by {
                assert(pats[a] == patterns@[a]@);
                assert(pats[b] == patterns@[b]@);
            }
            assert forall|q: int| 0 <= q < pats.len() implies #[trigger] entry_view(paths@[q])
                == routes_for(reg, pats[q]) by {
                assert(pats[q] == patterns@[q]@);
            }
            assert forall|q: int| 0 <= q < reg.len() implies pats.contains(
                (#[trigger] reg[q]).1,
            ) by {
                let ix = route_entry@[q] as int;
                assert(pats[ix] == reg[q].1);
            }
            assert forall|q: int| 0 <= q < pats.len() implies has_pattern(
                reg,
                #[trigger] pats[q],
            ) by {
                assert(pats[q] == patterns@[q]@);
            }
            assert(trie_inserts(trie) =~= Seq::new(pats.len(), |q: int| (pats[q], q as usize)));
            assert(pats =~= string_views(patterns@));
            assert(handlers@ =~= hs);
        }
        let built = BuiltRouter {
            paths,
            handlers,
            trie,
            registered: Ghost(reg),
            state: PhantomData,
        };
        Service::new(built)
    }
}

impl<H> Router<(), H> {
    pub(crate) fn new() -> (r: Router<(), H>)
        ensures
            r.keys() == Seq::<(MethodView, Seq<char>)>::empty(),
            r.handlers() == Seq::<H>::empty(),
    {
        Router::with_state()
    }
}

impl<H> Default for Router<(), H> {
    fn default() -> (r: Self)
        ensures
            r.keys() == Seq::<(MethodView, Seq<char>)>::empty(),
            r.handlers() == Seq::<H>::empty(),
    {
        Router::new()
    }
}

/// A callable router-like type that can handle or pass on a request.
pub trait Callable<S>: Clone {
    /// Call with `state` and `request`, returning whether it was handled.
    fn call(&self, state: S, request: Request) -> CallResult<S>;
}

/// Outcome of invoking a `Callable` router.
pub enum CallResult<S> {
    /// The router handled the request and produced a response.
    Handled(Response),
    /// A pattern matched the path but no route has the request's method; the
    /// `Allow` header value naming the methods that the pattern has.
    MethodNotAllowed(String),
    /// The router didn't match; gives back the state and request it was given.
    Unhandled(S, Request),
}

/// What the router found for a method and a path.
pub enum Routed {
    /// The route with this index serves it, with these captures.
    Served(usize, Vec<(String, String)>),
    /// A pattern matched but no route has the method; the `Allow` value.
    WrongMethod(String),
    /// No pattern matched.
    Unmatched,
}

struct PathEntry {
    path: String,
    methods: Vec<(Method, usize)>,
}

/// The routes of a pattern, as method and route index.
pub open spec fn methods_view(m: Seq<(Method, usize)>) -> Seq<(MethodView, usize)> {
    m.map_values(|p: (Method, usize)| (p.0@, p.1))
}

spec fn entry_view(e: PathEntry) -> Seq<(MethodView, usize)> {
    methods_view(e.methods@)
}

fn clone_entry(e: &PathEntry) -> (r: PathEntry)
    ensures
        r.path@ == e.path@,
        entry_view(r) == entry_view(*e),
{
    let mut methods: Vec<(Method, usize)> = Vec::new();
    let mut i: usize = 0;
    while i < e.methods.len()
        invariant
            0 <= i <= e.methods@.len(),
            methods@.len() == i,
            forall|q: int|
                0 <= q < i ==> (#[trigger] methods@[q]).0@ == e.methods@[q].0@ && methods@[q].1
                    == e.methods@[q].1,
        decreases e.methods@.len() - i,
    {
        let m = e.methods[i].0.clone();
        methods.push((m, e.methods[i].1));
        i = i + 1;
    }
    assert(methods_view(methods@) =~= methods_view(e.methods@));
    PathEntry { path: e.path.clone(), methods }
}

/// The `Allow` header value for a pattern's routes.
fn allow_value(entry: &PathEntry) -> (r: String)
    ensures
        r@ == allow_text(entry_view(*entry)),
{
    let ghost l = entry_view(*entry);
    let mut seen: Vec<Method> = Vec::new();
    let mut j: usize = 0;
    while j < entry.methods.len()
        invariant
            0 <= j <= entry.methods@.len(),
            l == methods_view(entry.methods@),
            seen@.map_values(|m: Method| m@) == distinct_methods(l.take(j as int)),
        decreases entry.methods@.len() - j,
    {
        let m = &entry.methods[j].0;
        let ghost prev = seen@.map_values(|x: Method| x@);
        let mut t: usize = 0;
        let mut dup = false;
        while t < seen.len()
            invariant_except_break
                !dup,
            invariant
                0 <= t <= seen@.len(),
                prev == seen@.map_values(|x: Method| x@),
                forall|a: int| 0 <= a < t ==> prev[a] != m@,
            ensures
                0 <= t <= seen@.len(),
                dup ==> t < seen@.len() && prev[t as int] == m@,
                !dup ==> forall|a: int| 0 <= a < seen@.len() ==> prev[a] != m@,
            decreases seen@.len() - t,
        {
            if seen[t].same(m) {
                dup = true;
                break;
            }
            t = t + 1;
        }
        proof {
            assert(l.take(j + 1).drop_last() =~= l.take(j as int));
            assert(l.take(j + 1).last() == l[j as int]);
            assert(l[j as int].0 == m@);
            if dup {
                assert(prev.contains(m@));
            } else {
                assert(!prev.contains(m@));
            }
        }
        if !dup {
            seen.push(m.clone());
        }
        j = j + 1;
        assert(seen@.map_values(|x: Method| x@) =~= distinct_methods(l.take(j as int)));
    }
    assert(l.take(entry.methods@.len() as int) =~= l);
    let ghost names = method_names(seen@.map_values(|x: Method| x@));
    let mut out = String::new();
    let mut t: usize = 0;
    while t < seen.len()
        invariant
            0 <= t <= seen@.len(),
            names == method_names(seen@.map_values(|x: Method| x@)),
            out@ == join_names(names.take(t as int)),
        decreases seen@.len() - t,
    {
        proof {
            reveal_strlit(", ");
            assert(names.take(t + 1).drop_last() =~= names.take(t as int));
            assert(names.take(t + 1).last() == method_name(seen@[t as int]@));
        }
        if t > 0 {
            out.append(", ");
        }
        out.append(seen[t].as_str());
        t = t + 1;
    }
    assert(names.take(seen@.len() as int) =~= names);
    out
}

/// Compiled router that performs path and method matching.
pub struct BuiltRouter<S, H> {
    paths: Vec<PathEntry>,
    handlers: Vec<H>,
    trie: matchit::Router<usize>,
    registered: Ghost<Seq<(MethodView, Seq<char>)>>,
    state: PhantomData<S>,
}

impl<S, H> BuiltRouter<S, H> {
    /// The distinct route patterns, in order of first registration.
    pub closed spec fn patterns(&self) -> Seq<Seq<char>> {
        self.paths@.map_values(|e: PathEntry| e.path@)
    }

    /// The routes of pattern `i`: method and route index, in registration
    /// order.
    pub closed spec fn entry_routes(&self, i: int) -> Seq<(MethodView, usize)> {
        entry_view(self.paths@[i])
    }

    /// The insertions the path matcher was built from.
    pub closed spec fn trie_contents(&self) -> Seq<(Seq<char>, usize)> {
        trie_inserts(self.trie)
    }

    /// The routes this router was built from, in registration order.
    pub closed spec fn registered(&self) -> Seq<(MethodView, Seq<char>)> {
        self.registered@
    }

    /// The handlers, by route index.
    pub closed spec fn handler_list(&self) -> Seq<H> {
        self.handlers@
    }

    /// How the router is organised: one entry per distinct pattern, holding
    /// that pattern's routes in order, and a matcher that stores each
    /// pattern under its entry's index.
    #[verifier::type_invariant]
    pub open spec fn wf(&self) -> bool {
        &&& self.handler_list().len() == self.registered().len()
        &&& self.registered().len() <= usize::MAX
        &&& forall|a: int, b: int|
            0 <= a < b < self.patterns().len() ==> #[trigger] self.patterns()[a]
                != #[trigger] self.patterns()[b]
        &&& forall|q: int|
            0 <= q < self.patterns().len() ==> #[trigger] self.entry_routes(q) == routes_for(
                self.registered(),
                self.patterns()[q],
            )
        &&& forall|q: int|
            0 <= q < self.registered().len() ==> self.patterns().contains(
                (#[trigger] self.registered()[q]).1,
            )
        &&& forall|q: int|
            0 <= q < self.patterns().len() ==> has_pattern(
                self.registered(),
                #[trigger] self.patterns()[q],
            )
        &&& self.patterns() == first_patterns(self.registered())
        &&& self.trie_contents() == Seq::new(
            self.patterns().len(),
            |q: int| (self.patterns()[q], q as usize),
        )
    }

    /// The pattern that the matcher picks for `path`, if any.
    pub open spec fn matched_pattern(&self, path: Seq<char>) -> Option<int> {
        match trie_match(self.trie_contents(), path) {
            Some(found) => if found.0 < self.patterns().len() {
                Some(found.0 as int)
            } else {
                None
            },
            None => None,
        }
    }

    /// A static path that some route was registered with matches that
    /// route's pattern, with no captures.
    pub open spec fn serves_static(&self, path: Seq<char>) -> bool {
        is_static_path(path) && has_pattern(self.registered(), path) ==> match self.matched_pattern(
            path,
        ) {
            Some(id) => self.patterns()[id] == path && trie_match(self.trie_contents(), path).unwrap().1
                == Seq::<(Seq<char>, Seq<char>)>::empty(),
            None => false,
        }
    }

    /// Which route serves method `m` on path `path`, with the captures: the
    /// matcher picks a pattern, and among that pattern's routes the first one
    /// with method `m` is taken.
    pub open spec fn dispatch(&self, m: MethodView, path: Seq<char>) -> Option<
        (usize, Seq<(Seq<char>, Seq<char>)>),
    > {
        match trie_match(self.trie_contents(), path) {
            Some(found) => if found.0 < self.patterns().len() {
                match first_method(self.entry_routes(found.0 as int), m) {
                    Some(j) => Some((self.entry_routes(found.0 as int)[j].1, found.1)),
                    None => None,
                }
            } else {
                None
            },
            None => None,
        }
    }

    /// What serves `method` on `path`: the route and the captures, or the
    /// `Allow` value when the path matches a pattern that has no route for
    /// the method, or nothing.
    pub fn route(&self, method: &Method, path: &str) -> (r: Routed)
        ensures
            match r {
                Routed::Unmatched => self.matched_pattern(path@) is None,
                Routed::WrongMethod(a) => self.matched_pattern(path@) matches Some(id) && self.dispatch(
                    method@,
                    path@,
                ) is None && a@ == allow_text(self.entry_routes(id)),
                Routed::Served(k, ps) => self.dispatch(method@, path@) == Some((k, pairs_view(ps@))),
            },
            self.serves_static(path@),
    {
        proof {
            use_type_invariant(self);
            if is_static_path(path@) && has_pattern(self.registered(), path@) {
                let reg = self.registered();
                let j = choose|j: int| 0 <= j < reg.len() && reg[j].1 == path@;
                assert(self.patterns().contains(reg[j].1));
                let i = choose|i: int| 0 <= i < self.patterns().len() && self.patterns()[i] == path@;
                assert forall|q: int| 0 <= q < i implies self.trie_contents()[q].0 != path@ by {
                    assert(self.patterns()[q] != self.patterns()[i]);
                }
                lemma_first_insert_of(self.trie_contents(), path@, i);
            }
        }
        let found = trie_at(&self.trie, path);
        proof {
            if is_static_path(path@) && has_pattern(self.registered(), path@) {
                assert(found is Some);
                let m = found.unwrap();
                assert(pairs_view(m.1@) =~= Seq::<(Seq<char>, Seq<char>)>::empty());
                let i = choose|i: int| 0 <= i < self.patterns().len() && self.patterns()[i] == path@;
                assert(self.patterns().len() == self.paths.len());
                assert(self.trie_contents()[i].1 == i as usize);
                assert(first_insert_of(self.trie_contents(), path@) == Some(i as usize));
                assert(m.0 == i);
                assert(m.0 < self.patterns().len());
                assert(self.matched_pattern(path@) == Some(m.0 as int));
                assert(self.patterns()[m.0 as int] == path@);
            }
            assert(self.serves_static(path@));
        }
        match found {
            None => Routed::Unmatched,
            Some((id, params)) => {
                proof {
                    use_type_invariant(self);
                    let i = choose|i: int|
                        0 <= i < self.trie_contents().len() && (#[trigger] self.trie_contents()[i]).1
                            == id;
                    assert(self.trie_contents()[i].1 == i as usize);
                }
                let entry = &self.paths[id];
                let ghost l = self.entry_routes(id as int);
                assert(l == methods_view(entry.methods@));
                let mut j: usize = 0;
                while j < entry.methods.len()
                    invariant
                        0 <= j <= entry.methods@.len(),
                        l == methods_view(entry.methods@),
                        id < self.paths@.len(),
                        l == self.entry_routes(id as int),
                        trie_match(self.trie_contents(), path@) == Some((id, pairs_view(params@))),
                        self.serves_static(path@),
                        forall|q: int| 0 <= q < j ==> (#[trigger] l[q]).0 != method@,
                    decreases entry.methods@.len() - j,
                {
                    if entry.methods[j].0.same(method) {
                        proof {
                            lemma_first_method(l, method@);
                            assert(l[j as int].0 == method@);
                            match first_method(l, method@) {
                                Some(f) => {
                                    if f < j {
                                        assert(l[f].0 != method@);
                                    }
                                    if j < f {
                                        assert(l[j as int].0 != method@);
                                    }
                                },
                                None => {
                                    assert(l[j as int].0 != method@);
                                },
                            }
                        }
                        return Routed::Served(entry.methods[j].1, params);
                    }
                    j = j + 1;
                }
                proof {
                    lemma_first_method(l, method@);
                    if let Some(f) = first_method(l, method@) {
                        assert(l[f].0 != method@);
                    }
                }
                Routed::WrongMethod(allow_value(entry))
            },
        }
    }

    fn handle_request(&self, state: S, request: Request) -> (r: CallResult<S>) where
        H: Handler<S>,

        ensures
            match self.matched_pattern(request.parts.uri@.path) {
                None => r == CallResult::<S>::Unhandled(state, request),
                Some(id) => self.dispatch(request.parts.method@, request.parts.uri@.path) is None
                    ==> (r matches CallResult::MethodNotAllowed(a) && a@ == allow_text(
                    self.entry_routes(id),
                )),
            },
            match self.dispatch(request.parts.method@, request.parts.uri@.path) {
                Some((k, caps)) => (r matches CallResult::Handled(resp) && exists|q: Request|
                    #[trigger] routed_request(q, request, caps) && call_ensures(
                        H::call,
                        (&self.handler_list()[k as int], state, q),
                        resp,
                    )),
                None => true,
            },
            self.serves_static(request.parts.uri@.path),
    {
        proof {
            use_type_invariant(self);
        }
        match self.route(&request.parts.method, request.parts.uri.path()) {
            Routed::Unmatched => CallResult::Unhandled(state, request),
            Routed::WrongMethod(allow) => CallResult::MethodNotAllowed(allow),
            Routed::Served(k, params) => {
                let ghost caps = pairs_view(params@);
                proof {
                    let m = request.parts.method@;
                    let p = request.parts.uri@.path;
                    let id = trie_match(self.trie_contents(), p).unwrap().0 as int;
                    let l = self.entry_routes(id);
                    lemma_routes_for(self.registered(), self.patterns()[id]);
                    lemma_first_method(l, m);
                    assert(k < self.handlers@.len());
                }
                let ghost request0 = request;
                let ghost state0 = state;
                let mut request = request;
                prepare_extractors(params, &mut request);
                let ghost q = request;
                let resp = self.handlers[k].call(state, request);
                proof {
                    let d = self.dispatch(request0.parts.method@, request0.parts.uri@.path);
                    assert(d == Some((k, caps)));
                    let k2 = d.unwrap().0;
                    let c2 = d.unwrap().1;
                    assert(routed_request(q, request0, c2));
                    assert(call_ensures(H::call, (&self.handler_list()[k2 as int], state0, q), resp));
                }
                CallResult::Handled(resp)
            },
        }
    }
}

impl<S, H: Handler<S> + Clone> Callable<S> for BuiltRouter<S, H> {
    /// Hands the request, with the captures set on it, to the route that
    /// serves it and gives back that handler's response; names the allowed
    /// methods when the path matches a pattern but no route has the method;
    /// passes the request on when no pattern matches.
    fn call(&self, state: S, request: Request) -> (r: CallResult<S>)
        ensures
            match self.matched_pattern(request.parts.uri@.path) {
                None => r == CallResult::<S>::Unhandled(state, request),
                Some(id) => self.dispatch(request.parts.method@, request.parts.uri@.path) is None
                    ==> (r matches CallResult::MethodNotAllowed(a) && a@ == allow_text(
                    self.entry_routes(id),
                )),
            },
            match self.dispatch(request.parts.method@, request.parts.uri@.path) {
                Some((k, caps)) => (r matches CallResult::Handled(resp) && exists|q: Request|
                    #[trigger] routed_request(q, request, caps) && call_ensures(
                        H::call,
                        (&self.handler_list()[k as int], state, q),
                        resp,
                    )),
                None => true,
            },
            self.serves_static(request.parts.uri@.path),
    {
        self.handle_request(state, request)
    }
}

impl<S, H: Clone> Clone for BuiltRouter<S, H> {
    fn clone(&self) -> (r: Self)
        ensures
            r.patterns() == self.patterns(),
            r.registered() == self.registered(),
            r.handler_list().len() == self.handler_list().len(),
            forall|q: int|
                0 <= q < self.handler_list().len() ==> cloned::<H>(
                    self.handler_list()[q],
                    #[trigger] r.handler_list()[q],
                ),
            r.trie_contents() == self.trie_contents(),
            forall|q: int| 0 <= q < self.patterns().len() ==> #[trigger] r.entry_routes(q)
                == self.entry_routes(q),
            forall|m: MethodView, p: Seq<char>| #[trigger] r.dispatch(m, p) == self.dispatch(m, p),
    {
        proof {
            use_type_invariant(self);
        }
        let mut paths: Vec<PathEntry> = Vec::new();
        let mut i: usize = 0;
        while i < self.paths.len()
            invariant
                0 <= i <= self.paths@.len(),
                paths@.len() == i,
                forall|q: int|
                    0 <= q < i ==> (#[trigger] paths@[q]).path@ == self.paths@[q].path@
                        && entry_view(paths@[q]) == entry_view(self.paths@[q]),
            decreases self.paths@.len() - i,
        {
            paths.push(clone_entry(&self.paths[i]));
            i = i + 1;
        }
        let handlers = self.handlers.clone();
        let trie = trie_clone(&self.trie);
        let ghost pats = paths@.map_values(|e: PathEntry| e.path@);
        proof {
            assert(pats =~= self.patterns());
            assert forall|q: int| 0 <= q < pats.len() implies #[trigger] entry_view(paths@[q])
                == routes_for(self.registered(), pats[q]) by {
                assert(self.entry_routes(q) == routes_for(self.registered(), self.patterns()[q]));
            }
            assert forall|q: int| 0 <= q < pats.len() implies has_pattern(
                self.registered(),
                #[trigger] pats[q],
            ) by {
                assert(has_pattern(self.registered(), self.patterns()[q]));
            }
        }
        let r = BuiltRouter { paths, handlers, trie, registered: Ghost(self.registered@), state: PhantomData };
        proof {
            assert forall|q: int| 0 <= q < self.patterns().len() implies #[trigger] r.entry_routes(q)
                == self.entry_routes(q) by {}
            assert forall|m: MethodView, p: Seq<char>| #[trigger] r.dispatch(m, p) == self.dispatch(
                m,
                p,
            ) by {
                if let Some(found) = trie_match(self.trie_contents(), p) {
                    if found.0 < self.patterns().len() {
                        assert(r.entry_routes(found.0 as int) == self.entry_routes(found.0 as int));
                    }
                }
            }
        }
        r
    }
}

impl<S, H: Clone> Clone for Router<S, H> {
    fn clone(&self) -> (r: Self)
        ensures
            r.keys() == self.keys(),
            r.handlers().len() == self.handlers().len(),
            forall|q: int|
                0 <= q < self.handlers().len() ==> cloned::<H>(
                    self.handlers()[q],
                    #[trigger] r.handlers()[q],
                ),
    {
        let mut routes: Vec<RouteSpec<H>> = Vec::new();
        let mut i: usize = 0;
        while i < self.routes.len()
            invariant
                0 <= i <= self.routes@.len(),
                routes@.len() == i,
                forall|q: int|
                    0 <= q < i ==> (#[trigger] routes@[q]).method@ == self.routes@[q].method@
                        && routes@[q].path@ == self.routes@[q].path@ && cloned::<H>(
                        self.routes@[q].handler,
                        routes@[q].handler,
                    ),
            decreases self.routes@.len() - i,
        {
            let r = &self.routes[i];
            let handler = r.handler.clone();
            routes.push(RouteSpec { method: r.method.clone(), path: r.path.clone(), handler });
            i = i + 1;
        }
        let r = Router { routes, state: PhantomData };
        assert(r.keys() =~= self.keys());
        r
    }
}

/// What `first_method` finds: the first position with the method, or none.
pub proof fn lemma_first_method(l: Seq<(MethodView, usize)>, m: MethodView)
    ensures
        match first_method(l, m) {
            Some(j) => 0 <= j < l.len() && l[j].0 == m && forall|q: int| 0 <= q < j ==> l[q].0 != m,
            None => forall|q: int| 0 <= q < l.len() ==> l[q].0 != m,
        },
    decreases l.len(),
{
    if l.len() > 0 && l[0].0 != m {
        lemma_first_method(l.drop_first(), m);
        match first_method(l.drop_first(), m) {
            Some(j) => {
                assert forall|q: int| 0 <= q < j + 1 implies l[q].0 != m by {
                    if q > 0 {
                        assert(l[q] == l.drop_first()[q - 1]);
                    }
                }
            },
            None => {
                assert forall|q: int| 0 <= q < l.len() implies l[q].0 != m by {
                    if q > 0 {
                        assert(l[q] == l.drop_first()[q - 1]);
                    }
                }
            },
        }
    }
}

/// The routes of a pattern are exactly the registered routes with that
/// pattern, in increasing order of index.
pub proof fn lemma_routes_for(reg: Seq<(MethodView, Seq<char>)>, p: Seq<char>)
    requires
        reg.len() <= usize::MAX,
    ensures
        forall|j: int|
            0 <= j < routes_for(reg, p).len() ==> {
                let x = #[trigger] routes_for(reg, p)[j];
                &&& x.1 < reg.len()
                &&& reg[x.1 as int] == (x.0, p)
            },
        forall|a: int, b: int|
            0 <= a < b < routes_for(reg, p).len() ==> (#[trigger] routes_for(reg, p)[a]).1
                < (#[trigger] routes_for(reg, p)[b]).1,
        forall|k: int|
            0 <= k < reg.len() && (#[trigger] reg[k]).1 == p ==> exists|j: int|
                0 <= j < routes_for(reg, p).len() && (#[trigger] routes_for(reg, p)[j]).1 == k,
    decreases reg.len(),
{
    if reg.len() > 0 {
        let last = reg.len() - 1;
        let init = reg.drop_last();
        let prev = routes_for(init, p);
        lemma_routes_for(init, p);
        let l = routes_for(reg, p);
        let hit = reg.last().1 == p;
        if hit {
            assert(l == prev.push((reg.last().0, last as usize)));
        } else {
            assert(l == prev);
        }
        assert forall|j: int| 0 <= j < l.len() implies {
            let x = #[trigger] l[j];
            &&& x.1 < reg.len()
            &&& reg[x.1 as int] == (x.0, p)
        } by {
            if j < prev.len() {
                assert(l[j] == prev[j]);
                assert(prev[j].1 < init.len());
                assert(init[prev[j].1 as int] == reg[prev[j].1 as int]);
            } else {
                assert(l[j] == (reg.last().0, last as usize));
                assert(reg[last] == reg.last());
            }
        }
        assert forall|a: int, b: int| 0 <= a < b < l.len() implies (#[trigger] l[a]).1 < (
        #[trigger] l[b]).1 by {
            assert(l[a] == prev[a]);
            assert(prev[a].1 < init.len());
            if b < prev.len() {
                assert(l[b] == prev[b]);
            } else {
                assert(l[b] == (reg.last().0, last as usize));
            }
        }
        assert forall|k: int| 0 <= k < reg.len() && (#[trigger] reg[k]).1 == p implies exists|j: int|
            0 <= j < l.len() && (#[trigger] l[j]).1 == k by {
            if k < last {
                assert(init[k] == reg[k]);
                let j = choose|j: int| 0 <= j < prev.len() && (#[trigger] prev[j]).1 == k;
                assert(l[j] == prev[j]);
            } else {
                assert(reg[last] == reg.last());
                assert(l[prev.len() as int] == (reg.last().0, last as usize));
            }
        }
    }
}

/// A route that serves a request is the first registered with the request's
/// method and the pattern the matcher picked for its path.
pub proof fn law_dispatch_first_registered<S, H>(r: BuiltRouter<S, H>, m: MethodView, path: Seq<char>)
    requires
        r.wf(),
        r.dispatch(m, path) is Some,
    ensures
        ({
            let found = trie_match(r.trie_contents(), path).unwrap();
            let k = r.dispatch(m, path).unwrap().0 as int;
            &&& found.0 < r.patterns().len()
            &&& r.dispatch(m, path).unwrap().1 == found.1
            &&& is_first_route(r.registered(), m, r.patterns()[found.0 as int], k)
        }),
{
    let found = trie_match(r.trie_contents(), path).unwrap();
    let id = found.0 as int;
    let p = r.patterns()[id];
    let l = r.entry_routes(id);
    let reg = r.registered();
    lemma_routes_for(reg, p);
    lemma_first_method(l, m);
    let j = first_method(l, m)->0;
    let k = l[j].1 as int;
    assert(reg[k] == (m, p));
    assert forall|q: int| 0 <= q < k implies reg[q] != (m, p) by {
        if reg[q] == (m, p) {
            let jq = choose|jq: int| 0 <= jq < l.len() && (#[trigger] l[jq]).1 == q;
            if jq >= j {
                if jq > j {
                    assert(l[j].1 < l[jq].1);
                }
            }
            assert(l[jq].0 == m);
        }
    }
}

/// When the matcher picks a pattern for the path and some route has that
/// pattern and the request's method, the request is served.
pub proof fn law_dispatch_complete<S, H>(r: BuiltRouter<S, H>, m: MethodView, path: Seq<char>, k: int)
    requires
        r.wf(),
        trie_match(r.trie_contents(), path) is Some,
        trie_match(r.trie_contents(), path).unwrap().0 < r.patterns().len(),
        0 <= k < r.registered().len(),
        r.registered()[k] == (m, r.patterns()[trie_match(r.trie_contents(), path).unwrap().0 as int]),
    ensures
        r.dispatch(m, path) is Some,
{
    let id = trie_match(r.trie_contents(), path).unwrap().0 as int;
    let p = r.patterns()[id];
    let l = r.entry_routes(id);
    lemma_routes_for(r.registered(), p);
    lemma_first_method(l, m);
    let j = choose|j: int| 0 <= j < l.len() && (#[trigger] l[j]).1 == k;
    assert(l[j].0 == m);
}

/// Dispatch is exact: once the matcher has picked a pattern for the path,
/// the request goes to the first route registered with its method and that
/// pattern, with the matcher's captures, and to none when there is no such
/// route.
pub proof fn law_dispatch_exact<S, H>(r: BuiltRouter<S, H>, m: MethodView, path: Seq<char>)
    requires
        r.wf(),
        trie_match(r.trie_contents(), path) is Some,
        trie_match(r.trie_contents(), path).unwrap().0 < r.patterns().len(),
    ensures
        ({
            let found = trie_match(r.trie_contents(), path).unwrap();
            let p = r.patterns()[found.0 as int];
            &&& forall|k: int| #[trigger]
                is_first_route(r.registered(), m, p, k) ==> r.dispatch(m, path) == Some(
                    (k as usize, found.1),
                )
            &&& (forall|k: int| !#[trigger] is_first_route(r.registered(), m, p, k)) ==> r.dispatch(
                m,
                path,
            ) is None
        }),
{
    let found = trie_match(r.trie_contents(), path).unwrap();
    let p = r.patterns()[found.0 as int];
    let reg = r.registered();
    assert forall|k: int| #[trigger] is_first_route(reg, m, p, k) implies r.dispatch(m, path)
        == Some((k as usize, found.1)) by {
        law_dispatch_complete(r, m, path, k);
        law_dispatch_first_registered(r, m, path);
        let k2 = r.dispatch(m, path).unwrap().0 as int;
        assert(is_first_route(reg, m, p, k2));
        if k2 < k {
            assert(reg[k2] == (m, p));
        } else if k < k2 {
            assert(reg[k] == (m, p));
        }
    }
    if r.dispatch(m, path) is Some {
        law_dispatch_first_registered(r, m, path);
    }
}

/// A compiled router's behaviour is fixed by its routes: two routers built
/// from the same routes, in the same order, dispatch every request alike.
pub proof fn law_dispatch_fixed_by_routes<S, H>(
    r1: BuiltRouter<S, H>,
    r2: BuiltRouter<S, H>,
    m: MethodView,
    path: Seq<char>,
)
    requires
        r1.wf(),
        r2.wf(),
        r1.registered() == r2.registered(),
    ensures
        r1.dispatch(m, path) == r2.dispatch(m, path),
{
    assert(r1.patterns() == r2.patterns());
    assert(r1.trie_contents() =~= r2.trie_contents());
    if let Some(found) = trie_match(r1.trie_contents(), path) {
        if found.0 < r1.patterns().len() {
            assert(r1.entry_routes(found.0 as int) == r2.entry_routes(found.0 as int));
        }
    }
}

/// A request to a static path that a route was registered with reaches
/// the first route registered with its method and that path, with no
/// captures; when no route on the path has the method, none serves it. The
/// matcher's part, `serves_static`, is what every call of the router
/// (`route`, `Callable::call`, `Service::call`) ensures.
pub proof fn law_static_route_served<S, H>(r: BuiltRouter<S, H>, m: MethodView, path: Seq<char>, k: int)
    requires
        r.wf(),
        r.serves_static(path),
        is_static_path(path),
        is_first_route(r.registered(), m, path, k),
    ensures
        r.dispatch(m, path) == Some((k as usize, Seq::<(Seq<char>, Seq<char>)>::empty())),
{
    assert(has_pattern(r.registered(), path)) by {
        assert(r.registered()[k].1 == path);
    }
    law_dispatch_exact(r, m, path);
}

/// Where name `i` begins when names are written one after another with
/// two characters (the separator) after each.
pub open spec fn name_offset(ns: Seq<Seq<char>>, i: int) -> int
    decreases i,
{
    if i <= 0 {
        0
    } else {
        name_offset(ns, i - 1) + ns[i - 1].len() + 2
    }
}

/// Offsets depend only on the names before.
proof fn lemma_name_offset_prefix(ns: Seq<Seq<char>>, ms: Seq<Seq<char>>, i: int)
    requires
        0 <= i <= ns.len(),
        i <= ms.len(),
        forall|j: int| 0 <= j < i ==> ns[j] == ms[j],
    ensures
        name_offset(ns, i) == name_offset(ms, i),
    decreases i,
{
    if i > 0 {
        lemma_name_offset_prefix(ns, ms, i - 1);
    }
}

/// A slice that lies inside the first part of a concatenation is a slice
/// of that part.
proof fn lemma_slice_of_front(a: Seq<char>, b: Seq<char>, lo: int, hi: int)
    requires
        0 <= lo <= hi <= a.len(),
    ensures
        (a + b).subrange(lo, hi) == a.subrange(lo, hi),
{
    assert((a + b).subrange(lo, hi) =~= a.subrange(lo, hi));
}

/// The step from `ns.drop_last()` to `ns` in the layout of joined names.
proof fn lemma_layout_step(ns: Seq<Seq<char>>, i: int)
    requires
        ns.len() > 1,
        0 <= i < ns.len(),
        join_names(ns.drop_last()).len() == name_offset(ns.drop_last(), ns.len() - 2) + ns[ns.len()
            - 2].len(),
        forall|k: int|
            0 <= k < ns.len() - 1 ==> join_names(ns.drop_last()).subrange(
                name_offset(ns.drop_last(), k),
                name_offset(ns.drop_last(), k) + ns.drop_last()[k].len(),
            ) == #[trigger] ns.drop_last()[k],
        forall|k: int|
            0 <= k < ns.len() - 2 ==> join_names(ns.drop_last()).subrange(
                name_offset(ns.drop_last(), k) + ns.drop_last()[k].len(),
                #[trigger] name_offset(ns.drop_last(), k + 1),
            ) == ", "@,
    ensures
        join_names(ns).len() == name_offset(ns, ns.len() - 1) + ns[ns.len() - 1].len(),
        join_names(ns).subrange(name_offset(ns, i), name_offset(ns, i) + ns[i].len()) == ns[i],
        i < ns.len() - 1 ==> join_names(ns).subrange(
            name_offset(ns, i) + ns[i].len(),
            name_offset(ns, i + 1),
        ) == ", "@,
{
    reveal_strlit(", ");
    let p = ns.drop_last();
    let n = ns.len() - 1;
    let jp = join_names(p);
    let sep = ", "@;
    let tail = sep + ns.last();
    assert(join_names(ns) == jp + sep + ns.last());
    assert(jp + sep + ns.last() =~= jp + tail);
    lemma_name_offset_prefix(p, ns, n - 1);
    lemma_name_offset_prefix(p, ns, i);
    assert(p[n - 1] == ns[n - 1]);
    assert(name_offset(ns, n) == name_offset(ns, n - 1) + ns[n - 1].len() + 2);
    assert(jp.len() + 2 == name_offset(ns, n));
    assert(name_offset(ns, i + 1) == name_offset(ns, i) + ns[i].len() + 2);
    lemma_offsets_grow(ns, 0, i);
    if i < n {
        assert(p[i] == ns[i]);
        lemma_offsets_grow(ns, i + 1, n);
        lemma_slice_of_front(jp, tail, name_offset(ns, i), name_offset(ns, i) + ns[i].len());
        assert(jp.subrange(name_offset(p, i), name_offset(p, i) + p[i].len()) == p[i]);
        if i < n - 1 {
            lemma_name_offset_prefix(p, ns, i + 1);
            lemma_offsets_grow(ns, i + 1, n - 1);
            lemma_slice_of_front(jp, tail, name_offset(ns, i) + ns[i].len(), name_offset(ns, i + 1));
            assert(jp.subrange(name_offset(p, i) + p[i].len(), name_offset(p, i + 1)) == sep);
        } else {
            assert((jp + tail).subrange(name_offset(ns, i) + ns[i].len(), name_offset(ns, i + 1))
                =~= sep);
        }
    } else {
        assert((jp + tail).subrange(name_offset(ns, i), name_offset(ns, i) + ns[i].len())
            =~= ns.last());
    }
}

/// Names joined for an `Allow` header are laid out whole and in order: name
/// `i` stands at `name_offset(ns, i)`, `", "` stands between each name and
/// the next, and nothing follows the last name.
pub proof fn law_joined_names_layout(ns: Seq<Seq<char>>)
    requires
        ns.len() > 0,
    ensures
        join_names(ns).len() == name_offset(ns, ns.len() - 1) + ns[ns.len() - 1].len(),
        forall|i: int|
            0 <= i < ns.len() ==> join_names(ns).subrange(
                name_offset(ns, i),
                name_offset(ns, i) + ns[i].len(),
            ) == #[trigger] ns[i],
        forall|i: int|
            0 <= i < ns.len() - 1 ==> join_names(ns).subrange(
                name_offset(ns, i) + ns[i].len(),
                #[trigger] name_offset(ns, i + 1),
            ) == ", "@,
    decreases ns.len(),
{
    if ns.len() == 1 {
        assert(join_names(ns).subrange(0, ns[0].len() as int) =~= ns[0]);
    } else {
        law_joined_names_layout(ns.drop_last());
        lemma_layout_step(ns, 0);
        assert forall|i: int| 0 <= i < ns.len() implies join_names(ns).subrange(
            name_offset(ns, i),
            name_offset(ns, i) + ns[i].len(),
        ) == #[trigger] ns[i] by {
            lemma_layout_step(ns, i);
        }
        assert forall|i: int| 0 <= i < ns.len() - 1 implies join_names(ns).subrange(
            name_offset(ns, i) + ns[i].len(),
            #[trigger] name_offset(ns, i + 1),
        ) == ", "@ by {
            lemma_layout_step(ns, i);
        }
    }
}

/// Offsets never shrink.
proof fn lemma_offsets_grow(ns: Seq<Seq<char>>, a: int, b: int)
    requires
        0 <= a <= b,
    ensures
        name_offset(ns, a) <= name_offset(ns, b),
    decreases b - a,
{
    if a < b {
        lemma_offsets_grow(ns, a, b - 1);
    }
}

/// The methods an `Allow` value names: each method of a pattern's routes
/// once, in order of first registration, and no other.
pub proof fn law_allow_methods(l: Seq<(MethodView, usize)>)
    ensures
        forall|a: int, b: int|
            0 <= a < b < distinct_methods(l).len() ==> #[trigger] distinct_methods(l)[a]
                != #[trigger] distinct_methods(l)[b],
        forall|q: int|
            0 <= q < l.len() ==> #[trigger] distinct_methods(l).contains(l[q].0),
        forall|i: int|
            0 <= i < distinct_methods(l).len() ==> exists|q: int|
                0 <= q < l.len() && l[q].0 == #[trigger] distinct_methods(l)[i],
        l.len() > 0 ==> distinct_methods(l).len() > 0,
    decreases l.len(),
{
    if l.len() > 0 {
        let p = l.drop_last();
        law_allow_methods(p);
        let dp = distinct_methods(p);
        let d = distinct_methods(l);
        assert forall|q: int| 0 <= q < l.len() implies #[trigger] d.contains(l[q].0) by {
            if q < p.len() {
                assert(p[q] == l[q]);
                assert(dp.contains(p[q].0));
                let k = choose|k: int| 0 <= k < dp.len() && dp[k] == p[q].0;
                assert(d[k] == dp[k]);
            } else {
                if dp.contains(l.last().0) {
                    let k = choose|k: int| 0 <= k < dp.len() && dp[k] == l.last().0;
                    assert(d[k] == dp[k]);
                } else {
                    assert(d[dp.len() as int] == l.last().0);
                }
            }
        }
        assert forall|i: int| 0 <= i < d.len() implies exists|q: int|
            0 <= q < l.len() && l[q].0 == #[trigger] d[i] by {
            if i < dp.len() {
                assert(d[i] == dp[i]);
                let q = choose|q: int| 0 <= q < p.len() && p[q].0 == dp[i];
                assert(l[q] == p[q]);
            } else {
                assert(d[i] == l.last().0);
                assert(l[l.len() - 1] == l.last());
            }
        }
        assert forall|a: int, b: int| 0 <= a < b < d.len() implies #[trigger] d[a] != #[trigger] d[b] by {
            if b < dp.len() {
                assert(d[a] == dp[a] && d[b] == dp[b]);
            } else {
                assert(d[a] == dp[a]);
                assert(!dp.contains(l.last().0));
            }
        }
    }
}

/// The `Allow` value of a pattern with routes `l` writes the name of each
/// distinct method of `l` whole, at its place, with `", "` between
/// neighbours: every route's method name stands in it as a whole element.
pub proof fn law_allow_text_names_each_route(l: Seq<(MethodView, usize)>, q: int)
    requires
        0 <= q < l.len(),
    ensures
        exists|i: int|
            0 <= i < distinct_methods(l).len() && distinct_methods(l)[i] == l[q].0 && allow_text(
                l,
            ).subrange(
                name_offset(method_names(distinct_methods(l)), i),
                name_offset(method_names(distinct_methods(l)), i) + method_name(l[q].0).len(),
            ) == method_name(l[q].0) && (i + 1 < distinct_methods(l).len() ==> allow_text(
                l,
            ).subrange(
                name_offset(method_names(distinct_methods(l)), i) + method_name(l[q].0).len(),
                name_offset(method_names(distinct_methods(l)), i) + method_name(l[q].0).len() + 2,
            ) == ", "@),
{
    law_allow_methods(l);
    let d = distinct_methods(l);
    let ns = method_names(d);
    assert(d.contains(l[q].0));
    let i = choose|i: int| 0 <= i < d.len() && d[i] == l[q].0;
    law_joined_names_layout(ns);
    assert(ns[i] == method_name(l[q].0));
    if i + 1 < d.len() {
        assert(name_offset(ns, i + 1) == name_offset(ns, i) + ns[i].len() + 2);
    }
}

/// The first insertion of a pattern gives its value.
pub proof fn lemma_first_insert_of(ins: Seq<(Seq<char>, usize)>, p: Seq<char>, i: int)
    requires
        0 <= i < ins.len(),
        ins[i].0 == p,
        forall|j: int| 0 <= j < i ==> ins[j].0 != p,
    ensures
        first_insert_of(ins, p) == Some(ins[i].1),
    decreases i,
{
    if i > 0 {
        assert(ins[0].0 != p);
        assert forall|j: int| 0 <= j < i - 1 implies ins.drop_first()[j].0 != p by {
            assert(ins.drop_first()[j] == ins[j + 1]);
        }
        lemma_first_insert_of(ins.drop_first(), p, i - 1);
    }
}

} // verus!
