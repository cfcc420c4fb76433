//! The request and response model: method, version, URI, headers, request
//! parts, requests and responses, as plain values.
use vstd::prelude::*;
use vstd::string::*;

use crate::body::Body;
use crate::send_body::{SendBody, SendBodyView};
use crate::text::{ascii_chars, ascii_to_string, bytes_equal, bytes_of, lower_seq, to_lower_bytes};

verus! {

/// The request method.
pub enum Method {
    Get,
    Post,
    Put,
    Delete,
    Head,
    Options,
    Connect,
    Patch,
    Trace,
    /// A method outside the standard set, by its name.
    Other(String),
}

/// The mathematical value of a [`Method`].
pub enum MethodView {
    Get,
    Post,
    Put,
    Delete,
    Head,
    Options,
    Connect,
    Patch,
    Trace,
    Other(Seq<char>),
}

impl View for Method {
    type V = MethodView;

    open spec fn view(&self) -> MethodView {
        match self {
            Method::Get => MethodView::Get,
            Method::Post => MethodView::Post,
            Method::Put => MethodView::Put,
            Method::Delete => MethodView::Delete,
            Method::Head => MethodView::Head,
            Method::Options => MethodView::Options,
            Method::Connect => MethodView::Connect,
            Method::Patch => MethodView::Patch,
            Method::Trace => MethodView::Trace,
            Method::Other(s) => method_of_name(s@),
        }
    }
}

/// The method a name denotes: a standard method when it is one of their
/// names (compared exactly, as methods are case-sensitive), else a method of
/// its own.
pub open spec fn method_of_name(s: Seq<char>) -> MethodView {
    if s == "GET"@ {
        MethodView::Get
    } else if s == "POST"@ {
        MethodView::Post
    } else if s == "PUT"@ {
        MethodView::Put
    } else if s == "DELETE"@ {
        MethodView::Delete
    } else if s == "HEAD"@ {
        MethodView::Head
    } else if s == "OPTIONS"@ {
        MethodView::Options
    } else if s == "CONNECT"@ {
        MethodView::Connect
    } else if s == "PATCH"@ {
        MethodView::Patch
    } else if s == "TRACE"@ {
        MethodView::Trace
    } else {
        MethodView::Other(s)
    }
}

/// Whether a method value is in its one form: a method of its own never
/// carries a standard name.
pub open spec fn canonical(m: MethodView) -> bool {
    m matches MethodView::Other(s) ==> method_of_name(s) == m
}

/// Methods in their one form are equal exactly when their names are.
pub proof fn lemma_method_name_injective(a: MethodView, b: MethodView)
    requires
        canonical(a),
        canonical(b),
    ensures
        (method_name(a) == method_name(b)) == (a == b),
{
    reveal_strlit("GET");
    reveal_strlit("POST");
    reveal_strlit("PUT");
    reveal_strlit("DELETE");
    reveal_strlit("HEAD");
    reveal_strlit("OPTIONS");
    reveal_strlit("CONNECT");
    reveal_strlit("PATCH");
    reveal_strlit("TRACE");
    let na = method_name(a);
    let nb = method_name(b);
    if na == nb {
        assert(na.len() == nb.len());
        if na.len() > 0 {
            assert(na[0] == nb[0]);
        }
        match a {
            MethodView::Other(x) => {
                assert(method_of_name(x) == a);
            },
            _ => {},
        }
        match b {
            MethodView::Other(y) => {
                assert(method_of_name(y) == b);
            },
            _ => {},
        }
    }
}

/// The name of a method as it appears on the request line.
pub open spec fn method_name(m: MethodView) -> Seq<char> {
    match m {
        MethodView::Get => "GET"@,
        MethodView::Post => "POST"@,
        MethodView::Put => "PUT"@,
        MethodView::Delete => "DELETE"@,
        MethodView::Head => "HEAD"@,
        MethodView::Options => "OPTIONS"@,
        MethodView::Connect => "CONNECT"@,
        MethodView::Patch => "PATCH"@,
        MethodView::Trace => "TRACE"@,
        MethodView::Other(s) => s,
    }
}

impl Method {
    /// Whether two methods are the same method: whether their names are
    /// equal.
    pub fn same(&self, other: &Method) -> (r: bool)
        ensures
            r == (self@ == other@),
    {
        let a = self.as_str().to_owned();
        let b = other.as_str().to_owned();
        proof {
            lemma_method_name_injective(self@, other@);
        }
        a == b
    }

    /// The method's name, such as `"GET"`.
    pub fn as_str(&self) -> (r: &str)
        ensures
            r@ == method_name(self@),
    {
        match self {
            Method::Get => "GET",
            Method::Post => "POST",
            Method::Put => "PUT",
            Method::Delete => "DELETE",
            Method::Head => "HEAD",
            Method::Options => "OPTIONS",
            Method::Connect => "CONNECT",
            Method::Patch => "PATCH",
            Method::Trace => "TRACE",
            Method::Other(s) => s.as_str(),
        }
    }
}

impl Clone for Method {
    fn clone(&self) -> (r: Self)
        ensures
            r@ == self@,
    {
        match self {
            Method::Get => Method::Get,
            Method::Post => Method::Post,
            Method::Put => Method::Put,
            Method::Delete => Method::Delete,
            Method::Head => Method::Head,
            Method::Options => Method::Options,
            Method::Connect => Method::Connect,
            Method::Patch => Method::Patch,
            Method::Trace => Method::Trace,
            Method::Other(s) => Method::Other(s.clone()),
        }
    }
}

/// The protocol version of a request.
#[derive(Clone, Copy, PartialEq, Eq, Structural, Debug)]
pub enum Version {
    Http09,
    Http10,
    Http11,
    Http2,
    Http3,
}

/// The view of an optional string.
pub open spec fn opt_view(o: Option<String>) -> Option<Seq<char>> {
    match o {
        Some(s) => Some(s@),
        None => None,
    }
}

/// The components of a request target: scheme, authority, path and query.
pub uninterp spec fn uri_components(text: Seq<char>) -> Option<
    (Option<Seq<char>>, Option<Seq<char>>, Seq<char>, Option<Seq<char>>),
>;

/// Parses `text` with `http::Uri`'s `FromStr` and takes its scheme, authority,
/// path and query apart; `None` where `http` refuses the text. The contract
/// says no more than that the components are those the crate gives for this
/// text; how it splits a target is left unsaid.
#[verifier::external_body]
fn parse_uri_components(text: &str) -> (r: Option<
    (Option<String>, Option<String>, String, Option<String>),
>)
    ensures
        match r {
            None => uri_components(text@) is None,
            Some(c) => uri_components(text@) == Some(
                (opt_view(c.0), opt_view(c.1), c.2@, opt_view(c.3)),
            ),
        },
{
    match text.parse::<http::Uri>() {
        Ok(u) => Some((
            u.scheme_str().map(|s| s.to_string()),
            u.authority().map(|a| a.as_str().to_string()),
            u.path().to_string(),
            u.query().map(|q| q.to_string()),
        )),
        Err(_) => None,
    }
}

/// A request target.
pub struct Uri {
    scheme: Option<String>,
    authority: Option<String>,
    path: String,
    query: Option<String>,
}

/// The mathematical value of a [`Uri`].
pub struct UriView {
    pub scheme: Option<Seq<char>>,
    pub authority: Option<Seq<char>>,
    pub path: Seq<char>,
    pub query: Option<Seq<char>>,
}

impl View for Uri {
    type V = UriView;

    closed spec fn view(&self) -> UriView {
        UriView {
            scheme: opt_view(self.scheme),
            authority: opt_view(self.authority),
            path: self.path@,
            query: opt_view(self.query),
        }
    }
}

/// The text of a request target, as `http` writes it.
pub open spec fn uri_text(u: UriView) -> Seq<char> {
    let head = match u.scheme {
        Some(s) => s + "://"@,
        None => Seq::empty(),
    };
    let auth = match u.authority {
        Some(a) => a,
        None => Seq::empty(),
    };
    let tail = match u.query {
        Some(q) => "?"@ + q,
        None => Seq::empty(),
    };
    head + auth + u.path + tail
}

/// The length of a target's text: its parts, `://` after a scheme and `?`
/// before a query.
pub open spec fn uri_text_len(u: UriView) -> int {
    (match u.scheme {
        Some(s) => s.len() + 3,
        None => 0,
    }) + (match u.authority {
        Some(a) => a.len() as int,
        None => 0,
    }) + u.path.len() + (match u.query {
        Some(q) => q.len() + 1,
        None => 0,
    })
}

/// A target written out keeps every part: it begins with the scheme and
/// `://` when there is a scheme, else with the authority, else with the
/// path; the path is followed by `?` and the query when there is a query,
/// whether or not there is an authority, and ends the text otherwise; and
/// nothing else is written.
pub proof fn law_uri_text_keeps_parts(u: UriView)
    ensures
        uri_text(u).len() == uri_text_len(u),
        u.query matches Some(q) ==> uri_text(u).subrange(
            uri_text(u).len() - q.len() - 1,
            uri_text(u).len() as int,
        ) == "?"@ + q,
        u.query matches Some(q) ==> uri_text(u).subrange(
            uri_text(u).len() - q.len() - 1 - u.path.len(),
            uri_text(u).len() - q.len() - 1,
        ) == u.path,
        u.query is None ==> uri_text(u).subrange(
            uri_text(u).len() - u.path.len(),
            uri_text(u).len() as int,
        ) == u.path,
        u.scheme matches Some(s) ==> uri_text(u).subrange(0, (s.len() + 3) as int) == s + "://"@,
        u.scheme is None ==> (u.authority matches Some(a) ==> uri_text(u).subrange(
            0,
            a.len() as int,
        ) == a),
        u.scheme is None && u.authority is None ==> uri_text(u).subrange(0, u.path.len() as int)
            == u.path,
{
    reveal_strlit("://");
    reveal_strlit("?");
    let head = match u.scheme {
        Some(s) => s + "://"@,
        None => Seq::empty(),
    };
    let auth = match u.authority {
        Some(a) => a,
        None => Seq::empty(),
    };
    let tail = match u.query {
        Some(q) => "?"@ + q,
        None => Seq::empty(),
    };
    let t = head + auth + u.path + tail;
    assert(uri_text(u) == t);
    let front = head + auth;
    assert(t =~= front + u.path + tail);
    assert(t.subrange(t.len() - tail.len(), t.len() as int) =~= tail);
    assert(t.subrange(front.len() as int, (front.len() + u.path.len()) as int) =~= u.path);
    assert(t.subrange(0, head.len() as int) =~= head);
    assert(t.subrange(head.len() as int, (head.len() + auth.len()) as int) =~= auth);
}

fn opt_str(o: &Option<String>) -> (r: Option<&str>)
    ensures
        match r {
            Some(s) => o is Some && s@ == o->0@,
            None => o is None,
        },
{
    match o {
        Some(s) => Some(s.as_str()),
        None => None,
    }
}

impl Uri {
    /// Parses a request target such as `/a/b?c=d` or `http://example.org/u`.
    pub fn parse(text: &str) -> (r: Option<Uri>)
        ensures
            match r {
                None => uri_components(text@) is None,
                Some(u) => uri_components(text@) == Some(
                    (u@.scheme, u@.authority, u@.path, u@.query),
                ),
            },
    {
        match parse_uri_components(text) {
            None => None,
            Some((scheme, authority, path, query)) => Some(Uri { scheme, authority, path, query }),
        }
    }

    /// The path component.
    pub fn path(&self) -> (r: &str)
        ensures
            r@ == self@.path,
    {
        self.path.as_str()
    }

    /// The query component, without its leading `?`.
    pub fn query(&self) -> (r: Option<&str>)
        ensures
            match r {
                Some(q) => self@.query == Some(q@),
                None => self@.query is None,
            },
    {
        opt_str(&self.query)
    }

    /// The authority component, such as `example.org:8080`.
    pub fn authority(&self) -> (r: Option<&str>)
        ensures
            match r {
                Some(a) => self@.authority == Some(a@),
                None => self@.authority is None,
            },
    {
        opt_str(&self.authority)
    }

    /// The scheme component, such as `http`.
    pub fn scheme(&self) -> (r: Option<&str>)
        ensures
            match r {
                Some(s) => self@.scheme == Some(s@),
                None => self@.scheme is None,
            },
    {
        opt_str(&self.scheme)
    }

    /// The target written out again: scheme and `://`, authority, path, and
    /// `?` with the query.
    pub fn to_text(&self) -> (r: String)
        ensures
            r@ == uri_text(self@),
    {
        let mut out = String::new();
        match &self.scheme {
            Some(s) => {
                out.append(s.as_str());
                out.append("://");
            },
            None => {},
        }
        match &self.authority {
            Some(a) => {
                out.append(a.as_str());
            },
            None => {},
        }
        out.append(self.path.as_str());
        match &self.query {
            Some(q) => {
                out.append("?");
                out.append(q.as_str());
            },
            None => {},
        }
        proof {
            let u = self@;
            let head = match u.scheme {
                Some(s) => s + "://"@,
                None => Seq::empty(),
            };
            let auth = match u.authority {
                Some(a) => a,
                None => Seq::empty(),
            };
            let tail = match u.query {
                Some(q) => "?"@ + q,
                None => Seq::empty(),
            };
            assert(out@ =~= head + auth + u.path + tail);
        }
        out
    }
}

impl Clone for Uri {
    fn clone(&self) -> (r: Self)
        ensures
            r@ == self@,
    {
        Uri {
            scheme: self.scheme.clone(),
            authority: self.authority.clone(),
            path: self.path.clone(),
            query: self.query.clone(),
        }
    }
}

/// Header fields in the order they were added; names are held in lower case.
pub struct HeaderMap {
    entries: Vec<(Vec<u8>, Vec<u8>)>,
}

/// The mathematical value of a list of header fields.
pub open spec fn header_entries_view(e: Seq<(Vec<u8>, Vec<u8>)>) -> Seq<(Seq<u8>, Seq<u8>)> {
    e.map_values(|p: (Vec<u8>, Vec<u8>)| (p.0@, p.1@))
}

impl View for HeaderMap {
    type V = Seq<(Seq<u8>, Seq<u8>)>;

    closed spec fn view(&self) -> Seq<(Seq<u8>, Seq<u8>)> {
        header_entries_view(self.entries@)
    }
}

/// Whether `i` is the first field of `h` whose name is `key`.
pub open spec fn is_first_field(h: Seq<(Seq<u8>, Seq<u8>)>, key: Seq<u8>, i: int) -> bool {
    &&& 0 <= i < h.len()
    &&& h[i].0 == key
    &&& forall|j: int| 0 <= j < i ==> h[j].0 != key
}

/// The value of the first field of `h` whose name is `key`.
pub open spec fn field_value(h: Seq<(Seq<u8>, Seq<u8>)>, key: Seq<u8>) -> Option<Seq<u8>> {
    if exists|i: int| is_first_field(h, key, i) {
        Some(h[choose|i: int| is_first_field(h, key, i)].1)
    } else {
        None
    }
}

/// The first field named `key` decides the value.
pub proof fn lemma_field_value_at(h: Seq<(Seq<u8>, Seq<u8>)>, key: Seq<u8>, i: int)
    requires
        is_first_field(h, key, i),
    ensures
        field_value(h, key) == Some(h[i].1),
{
    let c = choose|c: int| is_first_field(h, key, c);
    assert(is_first_field(h, key, c));
    if c < i {
        assert(h[c].0 != key);
    }
    if i < c {
        assert(h[i].0 != key);
    }
}

/// A name that occurs in `h` has a first occurrence.
proof fn lemma_first_field_exists(h: Seq<(Seq<u8>, Seq<u8>)>, key: Seq<u8>, j: int)
    requires
        0 <= j < h.len(),
        h[j].0 == key,
    ensures
        exists|i: int| is_first_field(h, key, i),
    decreases j,
{
    if exists|k: int| 0 <= k < j && h[k].0 == key {
        let k = choose|k: int| 0 <= k < j && h[k].0 == key;
        lemma_first_field_exists(h, key, k);
    } else {
        assert(is_first_field(h, key, j));
    }
}

/// Appending a field named `key` makes a lookup of `key` give its value
/// when no field of that name was there, and keeps the earlier value when
/// one was; lookups of other names are unchanged.
pub proof fn law_append_then_get(h: Seq<(Seq<u8>, Seq<u8>)>, key: Seq<u8>, value: Seq<u8>)
    ensures
        field_value(h.push((key, value)), key) == match field_value(h, key) {
            Some(v) => Some(v),
            None => Some(value),
        },
        forall|other: Seq<u8>|
            other != key ==> #[trigger] field_value(h.push((key, value)), other) == field_value(
                h,
                other,
            ),
{
    let h2 = h.push((key, value));
    if exists|i: int| is_first_field(h, key, i) {
        let i = choose|i: int| is_first_field(h, key, i);
        assert(is_first_field(h2, key, i));
        lemma_field_value_at(h, key, i);
        lemma_field_value_at(h2, key, i);
    } else {
        assert forall|j: int| 0 <= j < h.len() implies h[j].0 != key by {
            if h[j].0 == key {
                lemma_first_field_exists(h, key, j);
            }
        }
        assert(is_first_field(h2, key, h.len() as int));
        lemma_field_value_at(h2, key, h.len() as int);
    }
    assert forall|other: Seq<u8>| other != key implies #[trigger] field_value(h2, other)
        == field_value(h, other) by {
        if exists|i: int| is_first_field(h, other, i) {
            let i = choose|i: int| is_first_field(h, other, i);
            assert(is_first_field(h2, other, i));
            lemma_field_value_at(h, other, i);
            lemma_field_value_at(h2, other, i);
        } else {
            if exists|i: int| is_first_field(h2, other, i) {
                let i = choose|i: int| is_first_field(h2, other, i);
                assert(h2[h.len() as int].0 == key);
                assert(i < h.len());
                assert forall|j: int| 0 <= j < i implies h[j].0 != other by {
                    assert(h2[j] == h[j]);
                }
                assert(h2[i] == h[i]);
                assert(is_first_field(h, other, i));
            }
        }
    }
}

impl HeaderMap {
    /// An empty header map.
    pub fn new() -> (r: HeaderMap)
        ensures
            r@ == Seq::<(Seq<u8>, Seq<u8>)>::empty(),
    {
        let r = HeaderMap { entries: Vec::new() };
        assert(r@ =~= Seq::<(Seq<u8>, Seq<u8>)>::empty());
        r
    }

    /// Adds a field after the existing ones; the name is stored in lower case.
    pub fn append(&mut self, name: &str, value: &[u8])
        ensures
            final(self)@ == old(self)@.push((lower_seq(name.spec_bytes()), value@)),
    {
        let key = to_lower_bytes(bytes_of(name));
        let v = vstd::slice::slice_to_vec(value);
        self.entries.push((key, v));
        proof {
            assert(final(self)@ =~= old(self)@.push((lower_seq(name.spec_bytes()), value@)));
        }
    }

    /// The fields in order, each as its lower-case name and its value.
    pub fn fields(&self) -> (r: &[(Vec<u8>, Vec<u8>)])
        ensures
            header_entries_view(r@) == self@,
    {
        self.entries.as_slice()
    }

    /// The value of the first field named `name`, compared without regard to
    /// ASCII case.
    pub fn get(&self, name: &str) -> (r: Option<&Vec<u8>>)
        ensures
            match r {
                Some(v) => field_value(self@, lower_seq(name.spec_bytes())) == Some(v@),
                None => field_value(self@, lower_seq(name.spec_bytes())) is None,
            },
    {
        let key = to_lower_bytes(bytes_of(name));
        let ghost k = lower_seq(name.spec_bytes());
        let mut i: usize = 0;
        while i < self.entries.len()
            invariant
                0 <= i <= self.entries@.len(),
                key@ == k,
                k == lower_seq(name.spec_bytes()),
                self@.len() == self.entries@.len(),
                forall|j: int| 0 <= j < i ==> self@[j].0 != k,
            decreases self.entries@.len() - i,
        {
            assert(self@[i as int] == (self.entries@[i as int].0@, self.entries@[i as int].1@));
            if bytes_equal(self.entries[i].0.as_slice(), key.as_slice()) {
                assert(is_first_field(self@, k, i as int));
                proof {
                    lemma_field_value_at(self@, k, i as int);
                }
                return Some(&self.entries[i].1);
            }
            i = i + 1;
        }
        assert(!exists|c: int| is_first_field(self@, k, c));
        None
    }
}

impl Clone for HeaderMap {
    fn clone(&self) -> (r: Self)
        ensures
            r@ == self@,
    {
        let mut entries: Vec<(Vec<u8>, Vec<u8>)> = Vec::new();
        let mut i: usize = 0;
        while i < self.entries.len()
            invariant
                0 <= i <= self.entries@.len(),
                entries@.len() == i,
                forall|j: int|
                    0 <= j < i ==> (#[trigger] entries@[j]).0@ == self.entries@[j].0@
                        && entries@[j].1@ == self.entries@[j].1@,
            decreases self.entries@.len() - i,
        {
            let n = vstd::slice::slice_to_vec(self.entries[i].0.as_slice());
            let v = vstd::slice::slice_to_vec(self.entries[i].1.as_slice());
            entries.push((n, v));
            i = i + 1;
        }
        let r = HeaderMap { entries };
        assert(r@ =~= self@);
        r
    }
}

/// Whether `b` may stand in a header value read as text: visible ASCII or a tab.
pub open spec fn is_visible_ascii(b: u8) -> bool {
    (32 <= b && b < 127) || b == 9
}

/// Whether every byte of a header value is visible ASCII or a tab, which is
/// when it can be read as text.
pub open spec fn all_visible(v: Seq<u8>) -> bool {
    forall|i: int| 0 <= i < v.len() ==> is_visible_ascii(#[trigger] v[i])
}

/// A header value read as text: `Some` exactly when every byte is visible
/// ASCII or a tab, with one character per byte.
pub fn header_value_str(value: &[u8]) -> (r: Option<String>)
    ensures
        match r {
            Some(s) => all_visible(value@) && s@ == ascii_chars(value@),
            None => !all_visible(value@),
        },
{
    let mut i: usize = 0;
    while i < value.len()
        invariant
            0 <= i <= value@.len(),
            forall|j: int| 0 <= j < i ==> is_visible_ascii(#[trigger] value@[j]),
        decreases value@.len() - i,
    {
        let b = value[i];
        if !((32 <= b && b < 127) || b == 9) {
            assert(!is_visible_ascii(value@[i as int]));
            return None;
        }
        i = i + 1;
    }
    Some(ascii_to_string(value))
}

/// Declared so that request parts can carry typed extension values.
#[verifier::external_type_specification]
#[verifier::external_body]
pub struct ExExtensions(http::Extensions);

/// Calls `http::Extensions::new`, an empty map of typed values; nothing is
/// said of it.
#[verifier::external_body]
fn extensions_new() -> http::Extensions {
    http::Extensions::new()
}

/// Calls `http::Extensions::insert`, which stores `val` under its type and
/// hands back the value it replaces; nothing is said of either.
#[verifier::external_body]
fn extensions_insert<T: Clone + Send + Sync + 'static>(e: &mut http::Extensions, val: T) -> Option<T> {
    e.insert(val)
}

/// Calls `http::Extensions::get`, the value stored under type `T`; which one
/// is there depends on what was inserted, and nothing is said of it.
#[verifier::external_body]
pub(crate) fn extensions_get<T: Send + Sync + 'static>(e: &http::Extensions) -> Option<&T> {
    e.get::<T>()
}

/// The head of a request.
pub struct Parts {
    pub method: Method,
    pub uri: Uri,
    pub version: Version,
    pub headers: HeaderMap,
    /// Typed values attached to the request.
    pub extensions: http::Extensions,
    /// The captures of the matched route pattern, set by the router.
    pub path_params: Option<Vec<(String, String)>>,
}

/// The mathematical value of a list of string pairs.
pub open spec fn pairs_view(s: Seq<(String, String)>) -> Seq<(Seq<char>, Seq<char>)> {
    s.map_values(|p: (String, String)| (p.0@, p.1@))
}

/// The mathematical value of optional captures.
pub open spec fn params_view(p: Option<Vec<(String, String)>>) -> Option<Seq<(Seq<char>, Seq<char>)>> {
    match p {
        Some(v) => Some(pairs_view(v@)),
        None => None,
    }
}

impl Parts {
    /// Attaches a typed value to the request, replacing one of the same type.
    /// The rest of the head is unchanged; what the typed map then holds is
    /// not stated, as the map keys values by their type, which the contract
    /// cannot name.
    pub fn insert_extension<T: Clone + Send + Sync + 'static>(&mut self, value: T)
        ensures
            final(self).method@ == old(self).method@,
            final(self).uri@ == old(self).uri@,
            final(self).version == old(self).version,
            final(self).headers@ == old(self).headers@,
            params_view(final(self).path_params) == params_view(old(self).path_params),
    {
        let _ = extensions_insert(&mut self.extensions, value);
    }
}

/// A request: its head and its body.
pub struct Request {
    pub parts: Parts,
    pub body: Body,
}

impl Request {
    /// A request with the given head fields and body, no extensions and no
    /// route captures.
    pub fn new(method: Method, uri: Uri, version: Version, headers: HeaderMap, body: Body) -> (r:
        Request)
        ensures
            r.parts.method@ == method@,
            r.parts.uri@ == uri@,
            r.parts.version == version,
            r.parts.headers@ == headers@,
            r.parts.path_params is None,
            r.body == body,
    {
        Request {
            parts: Parts {
                method,
                uri,
                version,
                headers,
                extensions: extensions_new(),
                path_params: None,
            },
            body,
        }
    }

    /// The request method.
    pub fn method(&self) -> (r: &Method)
        ensures
            r@ == self.parts.method@,
    {
        &self.parts.method
    }

    /// The request target.
    pub fn uri(&self) -> (r: &Uri)
        ensures
            r@ == self.parts.uri@,
    {
        &self.parts.uri
    }

    /// The protocol version.
    pub fn version(&self) -> (r: Version)
        ensures
            r == self.parts.version,
    {
        self.parts.version
    }

    /// The header fields.
    pub fn headers(&self) -> (r: &HeaderMap)
        ensures
            r@ == self.parts.headers@,
    {
        &self.parts.headers
    }

    /// The head and the body, apart.
    pub fn into_parts(self) -> (r: (Parts, Body))
        ensures
            r.0 == self.parts,
            r.1 == self.body,
    {
        (self.parts, self.body)
    }
}

/// A response: status code, header fields and body.
pub struct Response {
    pub status: u16,
    pub headers: HeaderMap,
    pub body: SendBody,
}

/// The mathematical value of a response.
pub struct ResponseView {
    pub status: u16,
    pub headers: Seq<(Seq<u8>, Seq<u8>)>,
    pub body: SendBodyView,
}

impl View for Response {
    type V = ResponseView;

    open spec fn view(&self) -> ResponseView {
        ResponseView { status: self.status, headers: self.headers@, body: self.body@ }
    }
}

impl Response {
    /// A response with the given status, no header fields and the given body.
    pub fn with_status(status: u16, body: SendBody) -> (r: Response)
        ensures
            r@ == (ResponseView { status, headers: Seq::empty(), body: body@ }),
    {
        Response { status, headers: HeaderMap::new(), body }
    }

    /// The status code.
    pub fn status(&self) -> (r: u16)
        ensures
            r == self.status,
    {
        self.status
    }
}

} // verus!
