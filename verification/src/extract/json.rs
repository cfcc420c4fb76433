//! The JSON body extractor's checks: the content type and the size limit.
use vstd::prelude::*;
use vstd::string::*;

use crate::into_res::{bare_response, IntoResponse};
use crate::message::{all_visible, field_value, HeaderMap, Request, Response};
use crate::send_body::SendBody;
use crate::text::{bytes_equal, bytes_of, lower_seq, to_lower_bytes};

verus! {

/// JSON body extractor.
///
/// The body is read, under a limit of `MAX` bytes, once the `Content-Type`
/// header, when present, names `application/json` or `application/*+json`.
pub struct Json<T, const MAX: u64>(pub T);

/// Whitespace, as `str::trim` sees it among ASCII bytes.
pub open spec fn is_space(b: u8) -> bool {
    b == 32 || (9 <= b && b <= 13)
}

/// Without leading whitespace.
pub open spec fn trim_start(s: Seq<u8>) -> Seq<u8>
    decreases s.len(),
{
    if s.len() > 0 && is_space(s[0]) {
        trim_start(s.drop_first())
    } else {
        s
    }
}

/// Without trailing whitespace.
pub open spec fn trim_end(s: Seq<u8>) -> Seq<u8>
    decreases s.len(),
{
    if s.len() > 0 && is_space(s.last()) {
        trim_end(s.drop_last())
    } else {
        s
    }
}

/// Without leading and trailing whitespace.
pub open spec fn trim(s: Seq<u8>) -> Seq<u8> {
    trim_end(trim_start(s))
}

/// The bytes before the first `sep`, or all of them.
pub open spec fn before_first(s: Seq<u8>, sep: u8) -> Seq<u8>
    decreases s.len(),
{
    if s.len() == 0 {
        s
    } else if s[0] == sep {
        Seq::empty()
    } else {
        seq![s[0]] + before_first(s.drop_first(), sep)
    }
}

/// The index of the last `b` in `s`.
pub open spec fn last_index_of(s: Seq<u8>, b: u8) -> Option<int>
    decreases s.len(),
{
    if s.len() == 0 {
        None
    } else if s.last() == b {
        Some(s.len() - 1)
    } else {
        last_index_of(s.drop_last(), b)
    }
}

/// Whether `s` begins with `p`.
pub open spec fn starts_with(s: Seq<u8>, p: Seq<u8>) -> bool {
    p.len() <= s.len() && s.subrange(0, p.len() as int) == p
}

/// The media type of a `Content-Type` value: the value trimmed, cut at the
/// first `;`, trimmed again and put in lower case.
pub open spec fn media_type(value: Seq<u8>) -> Seq<u8> {
    lower_seq(trim(before_first(trim(value), 59)))
}

/// Whether a (lower-case) media type is `application/json` or
/// `application/*+json`.
pub open spec fn is_json_media_type(ty: Seq<u8>) -> bool {
    ||| ty == "application/json".spec_bytes()
    ||| match last_index_of(ty, 43) {
        Some(i) => starts_with(ty, "application/".spec_bytes()) && ty.skip(i)
            == "+json".spec_bytes(),
        None => false,
    }
}

/// Whether the header fields allow a JSON body: no `Content-Type` field, or
/// one that reads as text and names a JSON media type.
pub open spec fn json_content_type_ok(headers: Seq<(Seq<u8>, Seq<u8>)>) -> bool {
    match field_value(headers, lower_seq("content-type".spec_bytes())) {
        None => true,
        Some(v) => all_visible(v) && is_json_media_type(media_type(v)),
    }
}

proof fn lemma_trim_start_skip(s: Seq<u8>, k: int)
    requires
        0 <= k <= s.len(),
        forall|i: int| 0 <= i < k ==> is_space(#[trigger] s[i]),
    ensures
        trim_start(s) == trim_start(s.skip(k)),
    decreases k,
{
    if k > 0 {
        assert(is_space(s[0]));
        lemma_trim_start_skip(s.drop_first(), k - 1);
        assert(s.drop_first().skip(k - 1) =~= s.skip(k));
    } else {
        assert(s.skip(0) =~= s);
    }
}

proof fn lemma_trim_end_take(s: Seq<u8>, k: int)
    requires
        0 <= k <= s.len(),
        forall|i: int| k <= i < s.len() ==> is_space(#[trigger] s[i]),
    ensures
        trim_end(s) == trim_end(s.take(k)),
    decreases s.len() - k,
{
    if k < s.len() {
        assert(is_space(s.last()));
        lemma_trim_end_take(s.drop_last(), k);
        assert(s.drop_last().take(k) =~= s.take(k));
    } else {
        assert(s.take(k) =~= s);
    }
}

proof fn lemma_before_first_take(s: Seq<u8>, sep: u8, k: int)
    requires
        0 <= k <= s.len(),
        forall|i: int| 0 <= i < k ==> #[trigger] s[i] != sep,
    ensures
        before_first(s, sep) == s.take(k) + before_first(s.skip(k), sep),
    decreases k,
{
    if k > 0 {
        lemma_before_first_take(s.drop_first(), sep, k - 1);
        assert(s.drop_first().skip(k - 1) =~= s.skip(k));
        assert(seq![s[0]] + s.drop_first().take(k - 1) =~= s.take(k));
    } else {
        assert(s.skip(0) =~= s);
        assert(s.take(0) + before_first(s, sep) =~= before_first(s, sep));
    }
}

proof fn lemma_last_index_take(s: Seq<u8>, b: u8, k: int)
    requires
        0 <= k <= s.len(),
        forall|i: int| k <= i < s.len() ==> #[trigger] s[i] != b,
    ensures
        last_index_of(s, b) == last_index_of(s.take(k), b),
    decreases s.len() - k,
{
    if k < s.len() {
        lemma_last_index_take(s.drop_last(), b, k);
        assert(s.drop_last().take(k) =~= s.take(k));
    } else {
        assert(s.take(k) =~= s);
    }
}

/// The bytes without leading and trailing whitespace.
fn trim_bytes(s: &[u8]) -> (r: Vec<u8>)
    ensures
        r@ == trim(s@),
{
    let mut lo: usize = 0;
    while lo < s.len() && (s[lo] == 32 || (9 <= s[lo] && s[lo] <= 13))
        invariant
            0 <= lo <= s@.len(),
            forall|i: int| 0 <= i < lo ==> is_space(#[trigger] s@[i]),
        decreases s@.len() - lo,
    {
        lo = lo + 1;
    }
    proof {
        lemma_trim_start_skip(s@, lo as int);
        assert(trim_start(s@.skip(lo as int)) == s@.skip(lo as int));
    }
    let mut hi: usize = s.len();
    while hi > lo && (s[hi - 1] == 32 || (9 <= s[hi - 1] && s[hi - 1] <= 13))
        invariant
            lo <= hi <= s@.len(),
            forall|i: int| hi <= i < s@.len() ==> is_space(#[trigger] s@[i]),
        decreases hi,
    {
        hi = hi - 1;
    }
    let ghost t = s@.skip(lo as int);
    proof {
        assert forall|i: int| hi - lo <= i < t.len() implies is_space(#[trigger] t[i]) by {
            assert(t[i] == s@[lo + i]);
        }
        lemma_trim_end_take(t, hi - lo);
        let u = t.take(hi - lo);
        if u.len() > 0 {
            assert(u.last() == s@[hi - 1]);
        }
        assert(trim_end(u) == u);
        assert(u =~= s@.subrange(lo as int, hi as int));
    }
    vstd::slice::slice_to_vec(vstd::slice::slice_subrange(s, lo, hi))
}

/// The bytes before the first `sep`.
fn before_first_byte(s: &[u8], sep: u8) -> (r: Vec<u8>)
    ensures
        r@ == before_first(s@, sep),
{
    let mut i: usize = 0;
    while i < s.len() && s[i] != sep
        invariant
            0 <= i <= s@.len(),
            forall|j: int| 0 <= j < i ==> #[trigger] s@[j] != sep,
        decreases s@.len() - i,
    {
        i = i + 1;
    }
    proof {
        lemma_before_first_take(s@, sep, i as int);
        assert(before_first(s@.skip(i as int), sep) =~= Seq::<u8>::empty());
        assert(s@.take(i as int) + Seq::<u8>::empty() =~= s@.subrange(0, i as int));
    }
    vstd::slice::slice_to_vec(vstd::slice::slice_subrange(s, 0, i))
}

/// The index of the last `b`.
fn last_index(s: &[u8], b: u8) -> (r: Option<usize>)
    ensures
        r matches Some(i) ==> i < s@.len(),
        match r {
            Some(i) => last_index_of(s@, b) == Some(i as int),
            None => last_index_of(s@, b) is None,
        },
{
    let mut k: usize = s.len();
    while k > 0 && s[k - 1] != b
        invariant
            0 <= k <= s@.len(),
            forall|i: int| k <= i < s@.len() ==> #[trigger] s@[i] != b,
        decreases k,
    {
        k = k - 1;
    }
    proof {
        lemma_last_index_take(s@, b, k as int);
    }
    if k == 0 {
        assert(s@.take(0) =~= Seq::<u8>::empty());
        None
    } else {
        assert(s@.take(k as int).last() == s@[k - 1]);
        Some(k - 1)
    }
}

/// Whether `s` begins with `p`.
fn starts_with_bytes(s: &[u8], p: &[u8]) -> (r: bool)
    ensures
        r == starts_with(s@, p@),
{
    if p.len() > s.len() {
        return false;
    }
    bytes_equal(vstd::slice::slice_subrange(s, 0, p.len()), p)
}

/// Checks the `Content-Type` header for a JSON body: `Ok(true)` when it is
/// absent or names `application/json` or `application/*+json` (parameters
/// such as `; charset=utf-8` aside); a rejection otherwise.
pub fn content_type_is_json(headers: &HeaderMap) -> (r: Result<bool, JsonRejection>)
    ensures
        json_content_type_ok(headers@) ==> r == Ok::<bool, JsonRejection>(true),
        !json_content_type_ok(headers@) ==> r is Err,
{
    match headers.get("content-type") {
        None => Ok(true),
        Some(value) => {
            let mut i: usize = 0;
            while i < value.len()
                invariant
                    0 <= i <= value@.len(),
                    field_value(headers@, lower_seq("content-type".spec_bytes())) == Some(value@),
                    forall|j: int| 0 <= j < i ==> crate::message::is_visible_ascii(#[trigger] value@[j]),
                decreases value@.len() - i,
            {
                let b = value[i];
                if !((32 <= b && b < 127) || b == 9) {
                    assert(!crate::message::is_visible_ascii(value@[i as int]));
                    assert(!all_visible(value@));
                    return Err(JsonRejection);
                }
                i = i + 1;
            }
            let s = trim_bytes(value.as_slice());
            let ty = before_first_byte(s.as_slice(), 59u8);
            let ty = trim_bytes(ty.as_slice());
            let ty = to_lower_bytes(ty.as_slice());
            assert(ty@ == media_type(value@));
            let app_json = bytes_of("application/json");
            if bytes_equal(ty.as_slice(), app_json) {
                return Ok(true);
            }
            match last_index(ty.as_slice(), 43u8) {
                Some(idx) => {
                    let app = bytes_of("application/");
                    let head = vstd::slice::slice_subrange(ty.as_slice(), 0, idx);
                    if !bytes_equal(head, app) && !starts_with_bytes(ty.as_slice(), app) {
                        return Err(JsonRejection);
                    }
                    let tail = vstd::slice::slice_subrange(ty.as_slice(), idx, ty.len());
                    if bytes_equal(tail, bytes_of("+json")) {
                        assert(starts_with(ty@, app@)) by {
                            if head@ == app@ {
                                assert(ty@.subrange(0, app@.len() as int) =~= head@);
                            }
                        }
                        assert(ty@.skip(idx as int) =~= tail@);
                        return Ok(true);
                    }
                    assert(ty@.skip(idx as int) =~= tail@);
                    Err(JsonRejection)
                },
                None => Err(JsonRejection),
            }
        },
    }
}

impl<T, const MAX: u64> Json<T, MAX> {
    /// The body to parse as JSON: the content type is checked first, then the
    /// body is read, failing when it is longer than `MAX` bytes.
    pub fn read_payload(request: Request) -> (r: Result<Vec<u8>, JsonRejection>)
        ensures
            !json_content_type_ok(request.parts.headers@) ==> r is Err,
            json_content_type_ok(request.parts.headers@) && request.body.remaining().len() <= MAX
                ==> (r matches Ok(v) && v@ == request.body.remaining()),
            request.body.remaining().len() > MAX ==> r is Err,
    {
        match content_type_is_json(request.headers()) {
            Ok(true) => {},
            _ => {
                return Err(JsonRejection);
            },
        }
        let (_parts, mut body) = request.into_parts();
        match body.with_config().limit(MAX).read_to_vec() {
            Ok(bytes) => Ok(bytes),
            Err(_) => Err(JsonRejection),
        }
    }
}

/// Error returned when the content type is not JSON, the body is too large
/// or it is not JSON; a `400 Bad Request`.
#[derive(Debug)]
pub struct JsonRejection;

impl IntoResponse for JsonRejection {
    fn into_response(self) -> (r: Response)
        ensures
            r@ == bare_response(400),
    {
        Response::with_status(400, SendBody::none())
    }
}

} // verus!
