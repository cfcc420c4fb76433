//! Response bodies and the conversions of plain values into them.
use vstd::prelude::*;
use vstd::string::*;

use crate::body::BodySource;
use crate::sealed::Private;

verus! {

pub(crate) enum BodyInner {
    Empty,
    ByteVec(BodySource),
}

/// A source over the given bytes.
fn byte_vec(data: Vec<u8>) -> (r: BodyInner)
    ensures
        r matches BodyInner::ByteVec(src) && src.rem() == data@,
{
    BodyInner::ByteVec(BodySource::from_vec(data))
}

/// A response body.
pub struct SendBody {
    inner: BodyInner,
    ended: bool,
}

/// The mathematical value of a response body: `None` for no body, otherwise
/// the bytes not yet read; and whether reading has seen its end.
pub struct SendBodyView {
    pub content: Option<Seq<u8>>,
    pub ended: bool,
}

impl View for SendBody {
    type V = SendBodyView;

    closed spec fn view(&self) -> SendBodyView {
        SendBodyView {
            content: match self.inner {
                BodyInner::Empty => None,
                BodyInner::ByteVec(src) => Some(src.rem()),
            },
            ended: self.ended,
        }
    }
}

/// What one read of `n` bytes leaves of a response body that has not ended
/// and holds `rem`.
pub open spec fn after_read(rem: Seq<u8>, n: int) -> SendBodyView {
    SendBodyView { content: Some(rem.skip(n)), ended: n == 0 }
}

/// What reads with buffers of sizes `sizes`, in turn, give from a body that
/// holds `rem`: each read gives as many bytes as its buffer and the body
/// allow, as `SendBody::read` does.
pub open spec fn reads_in_turn(rem: Seq<u8>, sizes: Seq<nat>) -> Seq<u8>
    decreases sizes.len(),
{
    if sizes.len() == 0 {
        Seq::empty()
    } else {
        let n = if sizes[0] <= rem.len() {
            sizes[0] as int
        } else {
            rem.len() as int
        };
        rem.take(n) + reads_in_turn(rem.skip(n), sizes.drop_first())
    }
}

/// Reads in turn give the body's bytes in order: what they give is a
/// prefix of the body, and with non-empty buffers, at least as many reads
/// as the body has bytes give all of it; the read after that gives 0.
pub proof fn law_reads_in_turn(rem: Seq<u8>, sizes: Seq<nat>)
    ensures
        reads_in_turn(rem, sizes).len() <= rem.len(),
        reads_in_turn(rem, sizes) == rem.take(reads_in_turn(rem, sizes).len() as int),
        (forall|i: int| 0 <= i < sizes.len() ==> #[trigger] sizes[i] > 0) && sizes.len()
            >= rem.len() ==> reads_in_turn(rem, sizes) == rem,
    decreases sizes.len(),
{
    if sizes.len() > 0 {
        let n = if sizes[0] <= rem.len() {
            sizes[0] as int
        } else {
            rem.len() as int
        };
        let tail = sizes.drop_first();
        law_reads_in_turn(rem.skip(n), tail);
        let rest = reads_in_turn(rem.skip(n), tail);
        assert(rem.take(n) + rest =~= rem.take(n + rest.len()));
        if (forall|i: int| 0 <= i < sizes.len() ==> #[trigger] sizes[i] > 0) && sizes.len()
            >= rem.len() {
            assert(sizes[0] > 0);
            assert forall|i: int| 0 <= i < tail.len() implies #[trigger] tail[i] > 0 by {
                assert(tail[i] == sizes[i + 1]);
            }
            if rem.len() > 0 {
                assert(n >= 1);
            }
            assert(rem.take(n) + rem.skip(n) =~= rem);
        }
    } else {
        assert(rem.take(0) =~= Seq::<u8>::empty());
    }
}

/// Two reads in a row take consecutive bytes: what they give together is
/// the front of the body, and what remains is the rest.
pub proof fn law_reads_take_consecutive_bytes(rem: Seq<u8>, n1: int, n2: int)
    requires
        0 < n1 <= rem.len(),
        0 <= n2 <= rem.len() - n1,
    ensures
        !after_read(rem, n1).ended,
        after_read(after_read(rem, n1).content->0, n2).content == Some(rem.skip(n1 + n2)),
        rem.subrange(0, n1) + (after_read(rem, n1).content->0).subrange(0, n2) == rem.subrange(
            0,
            n1 + n2,
        ),
{
    assert(rem.skip(n1).skip(n2) =~= rem.skip(n1 + n2));
    assert(rem.subrange(0, n1) + rem.skip(n1).subrange(0, n2) =~= rem.subrange(0, n1 + n2));
}

impl SendBody {
    /// An empty body.
    pub fn none() -> (r: SendBody)
        ensures
            r@ == (SendBodyView { content: None, ended: false }),
    {
        SendBody::from_inner(BodyInner::Empty)
    }

    /// A body of what an owned reader yields, given here as the bytes it
    /// read.
    pub fn from_owned_reader(data: Vec<u8>) -> (r: SendBody)
        ensures
            r@ == (SendBodyView { content: Some(data@), ended: false }),
    {
        SendBody::from_inner(byte_vec(data))
    }

    /// A body over the given source, not yet ended.
    fn from_inner(inner: BodyInner) -> (r: SendBody)
        ensures
            r.inner == inner,
            !r.ended,
    {
        SendBody { inner, ended: false }
    }

    /// Reads up to `buf.len()` bytes into the front of `buf`. A body that
    /// has ended, or that is no body, gives 0; a read that gives 0 ends the
    /// body.
    pub fn read(&mut self, buf: &mut [u8]) -> (n: usize)
        ensures
            old(self)@.ended || old(self)@.content is None ==> n == 0 && final(self)@ == old(self)@
                && final(buf)@ == old(buf)@,
            !old(self)@.ended && old(self)@.content is Some ==> {
                let rem = old(self)@.content->0;
                &&& n <= old(buf)@.len()
                &&& n <= rem.len()
                &&& n == (if old(buf)@.len() <= rem.len() {
                    old(buf)@.len()
                } else {
                    rem.len()
                })
                &&& final(self)@ == after_read(rem, n as int)
                &&& final(buf)@ == rem.subrange(0, n as int) + old(buf)@.skip(n as int)
            },
    {
        if self.ended {
            return 0;
        }
        let n = match &mut self.inner {
            BodyInner::Empty => {
                return 0;
            },
            BodyInner::ByteVec(src) => {
                let max = buf.len();
                src.read_into(buf, max)
            },
        };
        if n == 0 {
            self.ended = true;
        }
        n
    }

    /// A reader over the body.
    pub fn into_reader(self) -> (r: ReadAdapter)
        ensures
            r.0@ == self@,
    {
        ReadAdapter(self)
    }
}

/// A reader over a response body.
pub struct ReadAdapter(pub SendBody);

impl ReadAdapter {
    /// Reads as [`SendBody::read`] does.
    pub fn read(&mut self, buf: &mut [u8]) -> (n: usize)
        ensures
            old(self).0@.ended || old(self).0@.content is None ==> n == 0 && final(self).0@ == old(
                self,
            ).0@ && final(buf)@ == old(buf)@,
            !old(self).0@.ended && old(self).0@.content is Some ==> {
                let rem = old(self).0@.content->0;
                &&& n <= old(buf)@.len()
                &&& n <= rem.len()
                &&& n == (if old(buf)@.len() <= rem.len() {
                    old(buf)@.len()
                } else {
                    rem.len()
                })
                &&& final(self).0@ == after_read(rem, n as int)
                &&& final(buf)@ == rem.subrange(0, n as int) + old(buf)@.skip(n as int)
            },
    {
        self.0.read(buf)
    }
}

/// Values that can become a response body.
pub trait IntoSendBody: Private {
    /// The bytes the body will hold, or `None` for no body.
    spec fn send_content(&self) -> Option<Seq<u8>>;

    /// The value as a response body.
    fn into_body(self) -> (r: SendBody)
        ensures
            r@ == (SendBodyView { content: self.send_content(), ended: false }),
    ;
}

impl<'a> Private for &'a [u8] {

}

impl<'a> IntoSendBody for &'a [u8] {
    open spec fn send_content(&self) -> Option<Seq<u8>> {
        Some(self@)
    }

    fn into_body(self) -> (r: SendBody)
        ensures
            r@.content == Some(self@),
    {
        SendBody::from_inner(byte_vec(vstd::slice::slice_to_vec(self)))
    }
}

impl<'a> Private for &'a str {

}

impl<'a> IntoSendBody for &'a str {
    open spec fn send_content(&self) -> Option<Seq<u8>> {
        Some(self.spec_bytes())
    }

    fn into_body(self) -> (r: SendBody)
        ensures
            r@.content == Some(self.spec_bytes()),
    {
        SendBody::from_inner(byte_vec(vstd::slice::slice_to_vec(self.as_bytes())))
    }
}

impl Private for String {

}

impl IntoSendBody for String {
    open spec fn send_content(&self) -> Option<Seq<u8>> {
        Some(vstd::utf8::encode_utf8(self@))
    }

    fn into_body(self) -> (r: SendBody)
        ensures
            r@.content == Some(vstd::utf8::encode_utf8(self@)),
    {
        SendBody::from_inner(byte_vec(vstd::slice::slice_to_vec(self.as_str().as_bytes())))
    }
}

impl Private for Vec<u8> {

}

impl IntoSendBody for Vec<u8> {
    open spec fn send_content(&self) -> Option<Seq<u8>> {
        Some(self@)
    }

    fn into_body(self) -> (r: SendBody)
        ensures
            r@.content == Some(self@),
    {
        SendBody::from_inner(byte_vec(self))
    }
}

impl<'a> Private for &'a String {

}

impl<'a> IntoSendBody for &'a String {
    open spec fn send_content(&self) -> Option<Seq<u8>> {
        Some(vstd::utf8::encode_utf8(self@))
    }

    fn into_body(self) -> (r: SendBody)
        ensures
            r@.content == Some(vstd::utf8::encode_utf8(self@)),
    {
        SendBody::from_inner(byte_vec(vstd::slice::slice_to_vec(self.as_str().as_bytes())))
    }
}

impl<'a> Private for &'a Vec<u8> {

}

impl<'a> IntoSendBody for &'a Vec<u8> {
    open spec fn send_content(&self) -> Option<Seq<u8>> {
        Some(self@)
    }

    fn into_body(self) -> (r: SendBody)
        ensures
            r@.content == Some(self@),
    {
        SendBody::from_inner(byte_vec(vstd::slice::slice_to_vec(self.as_slice())))
    }
}

impl<'a, const N: usize> Private for &'a [u8; N] {

}

impl<'a, const N: usize> IntoSendBody for &'a [u8; N] {
    open spec fn send_content(&self) -> Option<Seq<u8>> {
        Some(self@)
    }

    fn into_body(self) -> (r: SendBody)
        ensures
            r@.content == Some(self@),
    {
        SendBody::from_inner(byte_vec(vstd::slice::slice_to_vec(self.as_slice())))
    }
}

impl Private for () {

}

impl IntoSendBody for () {
    open spec fn send_content(&self) -> Option<Seq<u8>> {
        None
    }

    fn into_body(self) -> (r: SendBody)
        ensures
            r@.content is None,
    {
        SendBody::none()
    }
}

/// A response body made from a byte-like value holds exactly the value's
/// bytes (a string's UTF-8 encoding), and `()` gives no body.
pub proof fn law_byte_values_send_their_bytes<const N: usize>(
    slice: &[u8],
    vec: Vec<u8>,
    vec_ref: &Vec<u8>,
    array: &[u8; N],
    text: &str,
    string: String,
    string_ref: &String,
)
    ensures
        slice.send_content() == Some(slice@),
        vec.send_content() == Some(vec@),
        vec_ref.send_content() == Some(vec_ref@),
        array.send_content() == Some(array@),
        text.send_content() == Some(text.spec_bytes()),
        string.send_content() == Some(vstd::utf8::encode_utf8(string@)),
        string_ref.send_content() == Some(vstd::utf8::encode_utf8(string_ref@)),
        ().send_content() is None,
{
}

} // verus!
