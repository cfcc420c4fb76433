//! Request bodies: building them, and reading them whole or in pieces under a
//! byte limit.
use vstd::prelude::*;
use vstd::string::*;
use vstd::utf8::*;

use crate::error::{limit_error, Error};
use crate::send_body::reads_in_turn;
use crate::text::{
    lemma_question_marks_of_valid, string_from_utf8, utf8_lossy_question_marks, utf8_with_question_marks,
};

verus! {

/// Default limit, in bytes, of `Body::read_to_string` and `Body::read_to_vec`
/// (10 MiB).
pub const MAX_BODY_SIZE: u64 = 10485760;

/// One read of a limited reader, from remaining bytes `rem`, `left` bytes
/// still allowed and buffer `buf`, to result `r`, `rem2`, `left2` and `buf2`.
/// With no bytes allowed it gives `Ok(0)` at the end of the body and fails,
/// changing nothing, if bytes remain; otherwise it copies as many bytes as
/// the allowance, the buffer and the body all permit.
pub open spec fn limited_read(
    rem: Seq<u8>,
    left: u64,
    limit: u64,
    buf: Seq<u8>,
    r: Result<usize, Error>,
    rem2: Seq<u8>,
    left2: u64,
    buf2: Seq<u8>,
) -> bool {
    if left == 0 {
        &&& rem2 == rem
        &&& left2 == 0
        &&& buf2 == buf
        &&& if rem.len() > 0 {
            r matches Err(Error::Io(_))
        } else {
            r == Ok::<usize, Error>(0)
        }
    } else {
        &&& r matches Ok(n)
        &&& n <= left && n <= buf.len() && n <= rem.len()
        &&& (n == left || n == buf.len() || n == rem.len())
        &&& rem2 == rem.skip(n as int)
        &&& left2 == left - n
        &&& buf2 == rem.subrange(0, n as int) + buf.skip(n as int)
    }
}

/// The outcome of reading all of `rem` under a limit: the bytes when there
/// are no more of them than the limit, else an I/O error (the one that
/// `limit_error` makes, whose text names the limit).
pub open spec fn read_all_outcome(rem: Seq<u8>, limit: u64, r: Result<Vec<u8>, Error>) -> bool {
    if rem.len() <= limit {
        r matches Ok(v) && v@ == rem
    } else {
        r matches Err(Error::Io(_))
    }
}

/// The outcome of reading all of `rem` as text under a limit: too long fails;
/// otherwise, when `lossy`, each maximal invalid subpart of the UTF-8 is
/// replaced by one `?`, and when not, invalid UTF-8 fails.
/// Valid UTF-8 decodes to its characters either way.
pub open spec fn read_text_outcome(rem: Seq<u8>, limit: u64, lossy: bool, r: Result<String, Error>) -> bool {
    if rem.len() > limit {
        r matches Err(Error::Io(_))
    } else if valid_utf8(rem) {
        r matches Ok(s) && s@ == decode_utf8(rem) && (lossy ==> s@ == utf8_with_question_marks(rem))
    } else if lossy {
        r matches Ok(s) && s@ == utf8_with_question_marks(rem)
    } else {
        r matches Err(Error::FromUtf8(_))
    }
}

/// What a body reader gives from `rem`, with `left` bytes still allowed,
/// to reads with buffers of sizes `sizes` in turn: each read gives as many
/// bytes as its buffer, the allowance and the body all permit; once nothing
/// is allowed, reads give nothing more.
pub open spec fn limited_reads_in_turn(rem: Seq<u8>, left: nat, sizes: Seq<nat>) -> Seq<u8>
    decreases sizes.len(),
{
    if sizes.len() == 0 || left == 0 {
        Seq::empty()
    } else {
        let n = if sizes[0] <= left && sizes[0] <= rem.len() {
            sizes[0] as int
        } else if left <= rem.len() {
            left as int
        } else {
            rem.len() as int
        };
        rem.take(n) + limited_reads_in_turn(rem.skip(n), (left - n) as nat, sizes.drop_first())
    }
}

/// Reads of nothing give nothing.
proof fn lemma_reads_of_empty(rem: Seq<u8>, sizes: Seq<nat>)
    requires
        rem.len() == 0,
    ensures
        reads_in_turn(rem, sizes) == Seq::<u8>::empty(),
    decreases sizes.len(),
{
    if sizes.len() > 0 {
        lemma_reads_of_empty(rem.skip(0), sizes.drop_first());
        assert(rem.take(0) =~= Seq::<u8>::empty());
    }
}

/// Reading a body through a reader whose allowance covers the body gives
/// what plain reads in turn give: the body's bytes in order, all of them
/// once enough reads with non-empty buffers are made (`law_reads_in_turn`).
pub proof fn law_limited_reads_in_turn(rem: Seq<u8>, left: nat, sizes: Seq<nat>)
    requires
        rem.len() <= left,
    ensures
        limited_reads_in_turn(rem, left, sizes) == reads_in_turn(rem, sizes),
    decreases sizes.len(),
{
    if sizes.len() > 0 {
        if left == 0 {
            lemma_reads_of_empty(rem, sizes);
        } else {
            let n = if sizes[0] <= rem.len() {
                sizes[0] as int
            } else {
                rem.len() as int
            };
            law_limited_reads_in_turn(rem.skip(n), (left - n) as nat, sizes.drop_first());
        }
    }
}

/// However the reads are sized, a limited reader never gives more bytes in
/// total than its allowance, nor more than the body holds.
pub proof fn law_limited_reads_stay_within_limit(rem: Seq<u8>, left: nat, sizes: Seq<nat>)
    ensures
        limited_reads_in_turn(rem, left, sizes).len() <= left,
        limited_reads_in_turn(rem, left, sizes).len() <= rem.len(),
    decreases sizes.len(),
{
    if sizes.len() > 0 && left > 0 {
        let n = if sizes[0] <= left && sizes[0] <= rem.len() {
            sizes[0] as int
        } else if left <= rem.len() {
            left as int
        } else {
            rem.len() as int
        };
        law_limited_reads_stay_within_limit(rem.skip(n), (left - n) as nat, sizes.drop_first());
    }
}

/// A body holds at most `u64::MAX` bytes, so reading it under no limit
/// (the limit `u64::MAX`) never fails for its length.
pub proof fn law_body_length_fits(b: &Body)
    ensures
        b.remaining().len() <= u64::MAX,
{
    b.source().lemma_rem_fits();
}

/// Reading a body as text with and without replacement of invalid UTF-8
/// gives the same string when the body is valid UTF-8 and within the limit.
pub proof fn law_lossy_agrees_on_valid_utf8(
    rem: Seq<u8>,
    limit: u64,
    strict: Result<String, Error>,
    lossy: Result<String, Error>,
)
    requires
        read_text_outcome(rem, limit, false, strict),
        read_text_outcome(rem, limit, true, lossy),
        rem.len() <= limit,
        valid_utf8(rem),
    ensures
        strict matches Ok(a) && lossy matches Ok(b) && a@ == b@,
{
}

/// A strict text read succeeds exactly when a byte read of the same body
/// does and the bytes are valid UTF-8, and then the text is those bytes
/// decoded.
pub proof fn law_text_is_decoded_bytes(
    rem: Seq<u8>,
    limit: u64,
    bytes: Result<Vec<u8>, Error>,
    text: Result<String, Error>,
)
    requires
        read_all_outcome(rem, limit, bytes),
        read_text_outcome(rem, limit, false, text),
    ensures
        (text is Ok) == (bytes is Ok && valid_utf8(rem)),
        text matches Ok(s) ==> bytes matches Ok(b) && s@ == decode_utf8(b@),
{
}

/// The bytes of a body not yet read: `data[pos..]`.
pub struct BodySource {
    data: Vec<u8>,
    pos: usize,
}

impl BodySource {
    /// The bytes not yet read.
    pub closed spec fn rem(&self) -> Seq<u8> {
        if self.pos <= self.data@.len() {
            self.data@.subrange(self.pos as int, self.data@.len() as int)
        } else {
            Seq::empty()
        }
    }

    /// A source holds no more bytes than a `Vec` can.
    pub proof fn lemma_rem_fits(&self)
        ensures
            self.rem().len() <= usize::MAX,
    {
        assert(self.data.len() == self.data@.len());
    }

    pub(crate) fn from_vec(data: Vec<u8>) -> (r: BodySource)
        ensures
            r.rem() == data@,
    {
        let r = BodySource { data, pos: 0 };
        assert(r.rem() =~= r.data@);
        r
    }

    fn empty() -> (r: BodySource)
        ensures
            r.rem() == Seq::<u8>::empty(),
    {
        BodySource::from_vec(Vec::new())
    }

    fn has_more(&self) -> (r: bool)
        ensures
            r == (self.rem().len() > 0),
    {
        self.pos < self.data.len()
    }

    /// Copies up to `max` of the remaining bytes to the front of `buf`.
    pub(crate) fn read_into(&mut self, buf: &mut [u8], max: usize) -> (n: usize)
        ensures
            n <= max,
            n <= old(buf)@.len(),
            n <= old(self).rem().len(),
            (n == max || n == old(buf)@.len() || n == old(self).rem().len()),
            final(self).rem() == old(self).rem().skip(n as int),
            final(buf)@ == old(self).rem().subrange(0, n as int) + old(buf)@.skip(n as int),
    {
        let ghost rem0 = self.rem();
        let ghost buf0 = buf@;
        let start = if self.pos <= self.data.len() {
            self.pos
        } else {
            self.data.len()
        };
        let avail = self.data.len() - start;
        let mut n = max;
        if buf.len() < n {
            n = buf.len();
        }
        if avail < n {
            n = avail;
        }
        let dlen = self.data.len();
        let mut i: usize = 0;
        while i < n
            invariant
                0 <= i <= n,
                dlen == self.data@.len(),
                start <= self.data@.len(),
                n <= buf@.len(),
                buf@.len() == buf0.len(),
                start + n <= self.data@.len(),
                rem0 == self.data@.subrange(start as int, self.data@.len() as int),
                forall|j: int| 0 <= j < i ==> buf@[j] == rem0[j],
                forall|j: int| i <= j < buf@.len() ==> buf@[j] == buf0[j],
            decreases n - i,
        {
            buf[i] = self.data[start + i];
            i = i + 1;
        }
        self.pos = start + n;
        proof {
            assert(final(self).rem() =~= rem0.skip(n as int));
            assert(buf@ =~= rem0.subrange(0, n as int) + buf0.skip(n as int));
        }
        n
    }
}

/// Where a body configuration or reader takes its bytes from: the body it
/// borrows, or a source of its own.
pub enum SourceRef<'a> {
    /// The source of a body that is borrowed.
    Shared(&'a mut BodySource),
    /// A source taken over from a body.
    Owned(BodySource),
}

impl<'a> SourceRef<'a> {
    /// The bytes not yet read.
    pub closed spec fn rem(&self) -> Seq<u8> {
        match self {
            SourceRef::Shared(s) => s.rem(),
            SourceRef::Owned(s) => s.rem(),
        }
    }

    /// A source holds no more bytes than a `Vec` can.
    pub proof fn lemma_rem_fits(&self)
        ensures
            self.rem().len() <= usize::MAX,
    {
        match self {
            SourceRef::Shared(s) => s.lemma_rem_fits(),
            SourceRef::Owned(s) => s.lemma_rem_fits(),
        }
    }

    fn has_more(&self) -> (r: bool)
        ensures
            r == (self.rem().len() > 0),
    {
        match self {
            SourceRef::Shared(s) => s.has_more(),
            SourceRef::Owned(s) => s.has_more(),
        }
    }

    /// Copies up to `max` of the remaining bytes to the front of `buf`; a
    /// borrowed source stays borrowed from the same body.
    fn read_into(&mut self, buf: &mut [u8], max: usize) -> (n: usize)
        ensures
            n <= max,
            n <= old(buf)@.len(),
            n <= old(self).rem().len(),
            (n == max || n == old(buf)@.len() || n == old(self).rem().len()),
            final(self).rem() == old(self).rem().skip(n as int),
            final(buf)@ == old(self).rem().subrange(0, n as int) + old(buf)@.skip(n as int),
            *old(self) matches SourceRef::Shared(a) ==> *final(self) matches SourceRef::Shared(b)
                && *final(a) == *final(b),
    {
        match self {
            SourceRef::Shared(s) => s.read_into(buf, max),
            SourceRef::Owned(s) => s.read_into(buf, max),
        }
    }
}

/// What a read of all of `rem` under `limit` leaves unread: nothing when it
/// fits, else all but the first `limit` bytes.
pub open spec fn leftover(rem: Seq<u8>, limit: u64) -> Seq<u8> {
    if rem.len() <= limit {
        Seq::empty()
    } else {
        rem.skip(limit as int)
    }
}

struct BodyInfo {
    mime_type: Option<String>,
    charset: Option<String>,
    content_length: Option<u64>,
}

impl BodyInfo {
    fn none() -> (r: BodyInfo)
        ensures
            r.mime_type is None,
            r.charset is None,
            r.content_length is None,
    {
        BodyInfo { mime_type: None, charset: None, content_length: None }
    }
}

fn opt_text(o: &Option<String>) -> (r: Option<&str>)
    ensures
        match r {
            Some(s) => o is Some && s@ == o->0@,
            None => o is None,
        },
{
    match o {
        Some(s) => Some(s.as_str()),
        None => None,
    }
}

/// A request body.
///
/// It holds the bytes not yet read, and what is known of them: mime type,
/// charset and content length.
pub struct Body {
    source: BodySource,
    info: BodyInfo,
}

impl Body {
    /// The bytes not yet read.
    pub closed spec fn remaining(&self) -> Seq<u8> {
        self.source.rem()
    }

    /// Where the body's bytes are held.
    pub closed spec fn source(&self) -> BodySource {
        self.source
    }

    /// The mime type that the body was built with.
    pub closed spec fn spec_mime_type(&self) -> Option<Seq<char>> {
        match self.info.mime_type {
            Some(s) => Some(s@),
            None => None,
        }
    }

    /// The charset that the body was built with.
    pub closed spec fn spec_charset(&self) -> Option<Seq<char>> {
        match self.info.charset {
            Some(s) => Some(s@),
            None => None,
        }
    }

    /// The content length that the body was built with.
    pub closed spec fn spec_content_length(&self) -> Option<u64> {
        self.info.content_length
    }

    /// Whether two bodies carry the same facts about their content.
    pub open spec fn same_info(&self, other: &Body) -> bool {
        &&& self.spec_mime_type() == other.spec_mime_type()
        &&& self.spec_charset() == other.spec_charset()
        &&& self.spec_content_length() == other.spec_content_length()
    }

    /// An empty body, of content length 0.
    pub fn empty() -> (r: Body)
        ensures
            r.remaining() == Seq::<u8>::empty(),
            r.spec_mime_type() is None,
            r.spec_charset() is None,
            r.spec_content_length() == Some(0u64),
    {
        let r = BodyBuilder::new().data(Vec::new());
        r
    }

    /// A builder for a body.
    pub fn builder() -> (r: BodyBuilder)
        ensures
            r.spec_mime_type() is None,
            r.spec_charset() is None,
            r.spec_limit() is None,
    {
        BodyBuilder::new()
    }

    /// The mime-type part of the `Content-Type` header, if known.
    pub fn mime_type(&self) -> (r: Option<&str>)
        ensures
            match r {
                Some(s) => self.spec_mime_type() == Some(s@),
                None => self.spec_mime_type() is None,
            },
    {
        opt_text(&self.info.mime_type)
    }

    /// The charset part of the `Content-Type` header, if known.
    pub fn charset(&self) -> (r: Option<&str>)
        ensures
            match r {
                Some(s) => self.spec_charset() == Some(s@),
                None => self.spec_charset() is None,
            },
    {
        opt_text(&self.info.charset)
    }

    /// The content length, if known.
    pub fn content_length(&self) -> (r: Option<u64>)
        ensures
            r == self.spec_content_length(),
    {
        self.info.content_length
    }

    /// A reader over the rest of the body, with no limit, borrowing the
    /// body: what the reader leaves unread stays in the body.
    pub fn as_reader(&mut self) -> (r: BodyReader<'_>)
        ensures
            r.remaining() == old(self).remaining(),
            r.limit() == u64::MAX,
            r.left() == u64::MAX,
            r.source_ref() matches SourceRef::Shared(a) && final(self).source() == *final(a),
            final(self).same_info(old(self)),
    {
        self.with_config().reader()
    }

    /// A reader over the rest of the body, with no limit.
    pub fn into_reader(self) -> (r: BodyReader<'static>)
        ensures
            r.remaining() == self.remaining(),
            r.limit() == u64::MAX,
            r.left() == u64::MAX,
    {
        self.into_with_config().reader()
    }

    /// Reads the rest of the body as text, at most 10 MiB of it; each maximal
    /// invalid subpart of the UTF-8 is replaced with one `?`, valid UTF-8 is
    /// decoded as it is.
    pub fn read_to_string(&mut self) -> (r: Result<String, Error>)
        ensures
            read_text_outcome(old(self).remaining(), MAX_BODY_SIZE, true, r),
            final(self).remaining() == leftover(old(self).remaining(), MAX_BODY_SIZE),
            final(self).same_info(old(self)),
    {
        self.with_config().limit(MAX_BODY_SIZE).lossy_utf8(true).read_to_string()
    }

    /// Reads the rest of the body, at most 10 MiB of it; a longer body fails
    /// with an I/O error whose text names the limit.
    pub fn read_to_vec(&mut self) -> (r: Result<Vec<u8>, Error>)
        ensures
            read_all_outcome(old(self).remaining(), MAX_BODY_SIZE, r),
            final(self).remaining() == leftover(old(self).remaining(), MAX_BODY_SIZE),
            final(self).same_info(old(self)),
    {
        self.with_config().limit(MAX_BODY_SIZE).read_to_vec()
    }

    /// Settings for reading the rest of the body, borrowing it: no limit,
    /// strict UTF-8. What the reading leaves unread stays in the body.
    pub fn with_config(&mut self) -> (r: BodyWithConfig<'_>)
        ensures
            r.remaining() == old(self).remaining(),
            r.spec_limit() == u64::MAX,
            !r.spec_lossy_utf8(),
            r.source_ref() matches SourceRef::Shared(a) && final(self).source() == *final(a),
            final(self).same_info(old(self)),
    {
        BodyWithConfig::new(SourceRef::Shared(&mut self.source))
    }

    /// Settings for reading the rest of the body: no limit, strict UTF-8.
    pub fn into_with_config(self) -> (r: BodyWithConfig<'static>)
        ensures
            r.remaining() == self.remaining(),
            r.spec_limit() == u64::MAX,
            !r.spec_lossy_utf8(),
    {
        BodyWithConfig::new(SourceRef::Owned(self.source))
    }
}

/// Builder for a request body.
pub struct BodyBuilder {
    info: BodyInfo,
    limit: Option<u64>,
}

impl BodyBuilder {
    /// The mime type set so far.
    pub closed spec fn spec_mime_type(&self) -> Option<Seq<char>> {
        match self.info.mime_type {
            Some(s) => Some(s@),
            None => None,
        }
    }

    /// The charset set so far.
    pub closed spec fn spec_charset(&self) -> Option<Seq<char>> {
        match self.info.charset {
            Some(s) => Some(s@),
            None => None,
        }
    }

    /// The limit set so far.
    pub closed spec fn spec_limit(&self) -> Option<u64> {
        self.limit
    }

    fn new() -> (r: BodyBuilder)
        ensures
            r.spec_mime_type() is None,
            r.spec_charset() is None,
            r.spec_limit() is None,
    {
        BodyBuilder { info: BodyInfo::none(), limit: None }
    }

    /// Sets the mime type; this is a fact about the body, no header is set.
    pub fn mime_type(self, mime_type: &str) -> (r: Self)
        ensures
            r.spec_mime_type() == Some(mime_type@),
            r.spec_charset() == self.spec_charset(),
            r.spec_limit() == self.spec_limit(),
    {
        let mut b = self;
        b.info.mime_type = Some(mime_type.to_owned());
        b
    }

    /// Sets the charset; this is a fact about the body, no header is set.
    pub fn charset(self, charset: &str) -> (r: Self)
        ensures
            r.spec_charset() == Some(charset@),
            r.spec_mime_type() == self.spec_mime_type(),
            r.spec_limit() == self.spec_limit(),
    {
        let mut b = self;
        b.info.charset = Some(charset.to_owned());
        b
    }

    /// Sets the length limit used for the content length of a body built from
    /// bytes.
    pub fn limit(self, limit: u64) -> (r: Self)
        ensures
            r.spec_limit() == Some(limit),
            r.spec_mime_type() == self.spec_mime_type(),
            r.spec_charset() == self.spec_charset(),
    {
        let mut b = self;
        b.limit = Some(limit);
        b
    }

    /// A body of the given bytes. Its content length is the smaller of the
    /// limit (the length itself when none was set) and the length.
    pub fn data(self, data: Vec<u8>) -> (r: Body)
        ensures
            r.remaining() == data@,
            r.spec_mime_type() == self.spec_mime_type(),
            r.spec_charset() == self.spec_charset(),
            r.spec_content_length() == Some(
                match self.spec_limit() {
                    Some(l) => if l < data@.len() {
                        l
                    } else {
                        data@.len() as u64
                    },
                    None => data@.len() as u64,
                },
            ),
    {
        let len = data.len() as u64;
        let limit = match self.limit {
            Some(l) => l,
            None => len,
        };
        let content_length = if limit < len {
            limit
        } else {
            len
        };
        let mut info = self.info;
        info.content_length = Some(content_length);
        Body { source: BodySource::from_vec(data), info }
    }

    /// A body of what a streaming reader yields, given here as the bytes it
    /// read; no content length is known for it.
    pub fn reader(self, content: Vec<u8>) -> (r: Body)
        ensures
            r.remaining() == content@,
            r.spec_mime_type() == self.spec_mime_type(),
            r.spec_charset() == self.spec_charset(),
            r.spec_content_length() is None,
    {
        let info = BodyInfo {
            mime_type: self.info.mime_type,
            charset: self.info.charset,
            content_length: None,
        };
        Body { source: BodySource::from_vec(content), info }
    }
}

/// How to read a body: a byte limit and whether invalid UTF-8 is replaced
/// when reading text.
pub struct BodyWithConfig<'a> {
    source: SourceRef<'a>,
    limit: u64,
    lossy_utf8: bool,
}

impl<'a> BodyWithConfig<'a> {
    /// The bytes not yet read.
    pub closed spec fn remaining(&self) -> Seq<u8> {
        self.source.rem()
    }

    /// Where the bytes are read from.
    pub closed spec fn source_ref(&self) -> SourceRef<'a> {
        self.source
    }

    /// The byte limit.
    pub closed spec fn spec_limit(&self) -> u64 {
        self.limit
    }

    /// Whether invalid UTF-8 is replaced when reading text.
    pub closed spec fn spec_lossy_utf8(&self) -> bool {
        self.lossy_utf8
    }

    fn new(source: SourceRef<'a>) -> (r: BodyWithConfig<'a>)
        ensures
            r.source_ref() == source,
            r.spec_limit() == u64::MAX,
            !r.spec_lossy_utf8(),
    {
        BodyWithConfig { source, limit: u64::MAX, lossy_utf8: false }
    }

    /// Sets how many bytes may be read before reading fails.
    pub fn limit(self, value: u64) -> (r: Self)
        ensures
            r.source_ref() == self.source_ref(),
            r.remaining() == self.remaining(),
            r.spec_limit() == value,
            r.spec_lossy_utf8() == self.spec_lossy_utf8(),
    {
        BodyWithConfig { source: self.source, limit: value, lossy_utf8: self.lossy_utf8 }
    }

    /// Sets whether invalid UTF-8 is replaced with `?` when reading text.
    pub fn lossy_utf8(self, value: bool) -> (r: Self)
        ensures
            r.source_ref() == self.source_ref(),
            r.remaining() == self.remaining(),
            r.spec_limit() == self.spec_limit(),
            r.spec_lossy_utf8() == value,
    {
        BodyWithConfig { source: self.source, limit: self.limit, lossy_utf8: value }
    }

    fn build_reader(self) -> (r: LimitReader<'a>)
        ensures
            r.reader == self.source_ref(),
            r.limit == self.spec_limit(),
            r.left == self.spec_limit(),
    {
        LimitReader::new(self.source, self.limit)
    }

    /// A reader for streaming the body under the limit.
    pub fn reader(self) -> (r: BodyReader<'a>)
        ensures
            r.source_ref() == self.source_ref(),
            r.remaining() == self.remaining(),
            r.limit() == self.spec_limit(),
            r.left() == self.spec_limit(),
    {
        BodyReader { inner: self.build_reader() }
    }

    /// Reads the body as text: it fails when the body is longer than the
    /// limit, and, unless invalid UTF-8 is to be replaced, when the bytes are
    /// not valid UTF-8. A borrowed body keeps what was not read.
    pub fn read_to_string(self) -> (r: Result<String, Error>)
        ensures
            read_text_outcome(self.remaining(), self.spec_limit(), self.spec_lossy_utf8(), r),
            self.spec_limit() == u64::MAX ==> !(r matches Err(Error::Io(_))),
            self.source_ref() matches SourceRef::Shared(a) ==> (*final(a)).rem() == leftover(
                self.remaining(),
                self.spec_limit(),
            ),
    {
        proof {
            self.source.lemma_rem_fits();
        }
        let lossy = self.lossy_utf8;
        let mut reader = self.build_reader();
        let bytes = match reader.read_to_end() {
            Ok(b) => b,
            Err(e) => {
                return Err(e);
            },
        };
        if lossy {
            proof {
                if valid_utf8(bytes@) {
                    lemma_question_marks_of_valid(bytes@);
                }
            }
            Ok(utf8_lossy_question_marks(bytes.as_slice()))
        } else {
            match string_from_utf8(bytes) {
                Ok(s) => Ok(s),
                Err(e) => Err(Error::FromUtf8(e)),
            }
        }
    }

    /// Reads the body: its bytes when it is no longer than the limit. A
    /// borrowed body keeps what was not read.
    pub fn read_to_vec(self) -> (r: Result<Vec<u8>, Error>)
        ensures
            read_all_outcome(self.remaining(), self.spec_limit(), r),
            self.spec_limit() == u64::MAX ==> (r matches Ok(v) && v@ == self.remaining()),
            self.source_ref() matches SourceRef::Shared(a) ==> (*final(a)).rem() == leftover(
                self.remaining(),
                self.spec_limit(),
            ),
    {
        proof {
            self.source.lemma_rem_fits();
        }
        let mut reader = self.build_reader();
        reader.read_to_end()
    }
}

/// A reader that fails once more bytes remain than the limit allows.
pub(crate) struct LimitReader<'a> {
    pub(crate) reader: SourceRef<'a>,
    pub(crate) limit: u64,
    pub(crate) left: u64,
}

impl<'a> LimitReader<'a> {
    fn new(reader: SourceRef<'a>, limit: u64) -> (r: LimitReader<'a>)
        ensures
            r.reader == reader,
            r.limit == limit,
            r.left == limit,
    {
        LimitReader { reader, limit, left: limit }
    }

    /// Reads up to `buf.len()` bytes. Once `limit` bytes have been read, it
    /// gives `Ok(0)` at the end of the body and fails if bytes remain.
    fn read(&mut self, buf: &mut [u8]) -> (r: Result<usize, Error>)
        ensures
            final(self).limit == old(self).limit,
            limited_read(
                old(self).reader.rem(),
                old(self).left,
                old(self).limit,
                old(buf)@,
                r,
                final(self).reader.rem(),
                final(self).left,
                final(buf)@,
            ),
            old(self).reader matches SourceRef::Shared(a) ==> final(self).reader matches SourceRef::Shared(
                b,
            ) && *final(a) == *final(b),
    {
        if self.left == 0 {
            if self.reader.has_more() {
                return Err(limit_error(self.limit));
            }
            return Ok(0);
        }
        let cap: usize = if self.left <= (usize::MAX as u64) {
            self.left as usize
        } else {
            usize::MAX
        };
        let max: usize = if cap < buf.len() {
            cap
        } else {
            buf.len()
        };
        let n = self.reader.read_into(buf, max);
        self.left = self.left - n as u64;
        Ok(n)
    }

    /// Reads everything that is left, failing if more remains than the
    /// limit allows.
    fn read_to_end(&mut self) -> (r: Result<Vec<u8>, Error>)
        requires
            old(self).left == old(self).limit,
        ensures
            final(self).limit == old(self).limit,
            read_all_outcome(old(self).reader.rem(), old(self).left, r),
            final(self).reader.rem() == leftover(old(self).reader.rem(), old(self).left),
            old(self).reader matches SourceRef::Shared(a) ==> final(self).reader matches SourceRef::Shared(
                b,
            ) && *final(a) == *final(b),
    {
        let ghost rem0 = self.reader.rem();
        let ghost left0 = self.left;
        let mut out: Vec<u8> = Vec::new();
        let mut chunk: Vec<u8> = vec![0u8; 4096];
        loop
            invariant
                chunk@.len() == 4096,
                self.limit == old(self).limit,
                out@ + self.reader.rem() == rem0,
                out@.len() + self.left == left0,
                rem0 == old(self).reader.rem(),
                left0 == old(self).left,
                left0 == self.limit,
                old(self).reader matches SourceRef::Shared(a) ==> self.reader matches SourceRef::Shared(
                    b,
                ) && *final(a) == *final(b),
            decreases self.reader.rem().len(),
        {
            let ghost before = self.reader.rem();
            let r = self.read(chunk.as_mut_slice());
            match r {
                Err(e) => {
                    proof {
                        assert(self.left == 0);
                        assert(out@.len() == left0);
                        assert(rem0.skip(left0 as int) =~= self.reader.rem());
                    }
                    return Err(e);
                },
                Ok(n) => {
                    if n == 0 {
                        proof {
                            if self.left > 0 {
                                assert(before.len() == 0);
                            }
                            assert(self.reader.rem().len() == 0);
                            assert(out@ =~= rem0);
                        }
                        return Ok(out);
                    }
                    let ghost out0 = out@;
                    out.extend_from_slice(vstd::slice::slice_subrange(chunk.as_slice(), 0, n));
                    proof {
                        assert(out@ =~= out0 + before.subrange(0, n as int));
                        assert(before =~= before.subrange(0, n as int) + before.skip(n as int));
                        assert(out@ + self.reader.rem() =~= out0 + before);
                    }
                },
            }
        }
    }
}

/// A reader over a body that enforces a byte limit.
pub struct BodyReader<'a> {
    inner: LimitReader<'a>,
}

impl<'a> BodyReader<'a> {
    /// The bytes not yet read.
    pub closed spec fn remaining(&self) -> Seq<u8> {
        self.inner.reader.rem()
    }

    /// Where the bytes are read from.
    pub closed spec fn source_ref(&self) -> SourceRef<'a> {
        self.inner.reader
    }

    /// The byte limit.
    pub closed spec fn limit(&self) -> u64 {
        self.inner.limit
    }

    /// How many more bytes may be read.
    pub closed spec fn left(&self) -> u64 {
        self.inner.left
    }

    /// Reads up to `buf.len()` bytes into the front of `buf`. When the limit
    /// is used up it gives `Ok(0)` at the end of the body and fails if bytes
    /// remain. A reader that borrows a body keeps borrowing it.
    pub fn read(&mut self, buf: &mut [u8]) -> (r: Result<usize, Error>)
        ensures
            final(self).limit() == old(self).limit(),
            limited_read(
                old(self).remaining(),
                old(self).left(),
                old(self).limit(),
                old(buf)@,
                r,
                final(self).remaining(),
                final(self).left(),
                final(buf)@,
            ),
            old(self).source_ref() matches SourceRef::Shared(a) ==> final(self).source_ref() matches SourceRef::Shared(b)
                && *final(a) == *final(b),
    {
        self.inner.read(buf)
    }
}

} // verus!
