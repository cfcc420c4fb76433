//! Errors of the library.
use vstd::prelude::*;
use vstd::string::*;

use crate::text::{ascii_chars, ascii_to_string};
use serde_json::Error as JsonError;

verus! {

/// Declared so that errors can carry std's I/O error.
#[verifier::external_type_specification]
#[verifier::external_body]
pub struct ExIoError(std::io::Error);

/// Declared so that errors can carry `serde_json`'s error.
#[verifier::external_type_specification]
#[verifier::external_body]
pub struct ExSerdeJsonError(JsonError);

/// Errors of reading a request body and of producing a JSON body.
#[derive(Debug)]
pub enum Error {
    /// An I/O error: of the reader a body came from, or an exceeded limit.
    Io(std::io::Error),
    /// The body held more bytes than the limit, given here, allows.
    ///
    /// Reads of a body report an exceeded limit as an `Io` error whose text
    /// is that of this variant (see `limit_error`).
    BodyExceedsLimit(u64),
    /// A value could not be written as JSON.
    SerdeJson(JsonError),
    /// The body was read as text and is not valid UTF-8.
    FromUtf8(std::string::FromUtf8Error),
}

/// The ASCII decimal digits of `n`, most significant first, with no
/// leading zeros.
pub open spec fn decimal_digits(n: nat) -> Seq<u8>
    decreases n,
{
    if n < 10 {
        seq![(48 + n) as u8]
    } else {
        decimal_digits(n / 10).push((48 + n % 10) as u8)
    }
}

/// Decimal digits are ASCII.
proof fn lemma_decimal_digits_ascii(n: nat)
    ensures
        forall|i: int|
            0 <= i < decimal_digits(n).len() ==> 48 <= #[trigger] decimal_digits(n)[i] < 58,
    decreases n,
{
    if n >= 10 {
        lemma_decimal_digits_ascii(n / 10);
        let d = decimal_digits(n);
        let p = decimal_digits(n / 10);
        assert(d == p.push((48 + n % 10) as u8));
        assert forall|i: int| 0 <= i < d.len() implies 48 <= #[trigger] d[i] < 58 by {
            if i < p.len() {
                assert(d[i] == p[i]);
            }
        }
    }
}

/// The decimal digits of `n`.
fn decimal_bytes(n: u64) -> (r: Vec<u8>)
    ensures
        r@ == decimal_digits(n as nat),
    decreases n,
{
    if n < 10 {
        vec![(48 + n) as u8]
    } else {
        let mut v = decimal_bytes(n / 10);
        v.push((48 + n % 10) as u8);
        v
    }
}

/// The text of an exceeded limit of `limit` bytes.
pub open spec fn limit_text(limit: u64) -> Seq<char> {
    "body exceeds limit: "@ + ascii_chars(decimal_digits(limit as nat)) + " bytes"@
}

/// The text of error `e`, where `inner` is the text of the error it carries:
/// a prefix naming the kind, then `inner`; an exceeded limit reads as
/// `limit_text` and carries no other error.
pub open spec fn error_text(e: Error, inner: Seq<char>) -> Seq<char> {
    match e {
        Error::Io(_) => "io: "@ + inner,
        Error::BodyExceedsLimit(l) => limit_text(l),
        Error::SerdeJson(_) => "serde json: "@ + inner,
        Error::FromUtf8(_) => "utf8: "@ + inner,
    }
}

/// The text of an exceeded limit.
fn limit_message(limit: u64) -> (r: String)
    ensures
        r@ == limit_text(limit),
{
    proof {
        reveal_strlit("body exceeds limit: ");
        reveal_strlit(" bytes");
        lemma_decimal_digits_ascii(limit as nat);
    }
    let digits = decimal_bytes(limit);
    let mut s = String::from_str("body exceeds limit: ");
    s.append(ascii_to_string(digits.as_slice()).as_str());
    s.append(" bytes");
    s
}

/// Calls std's `io::Error::other` on `message`. The error it makes is of
/// kind `Other` and displays as `message`; neither fact is stated here, as
/// nothing in this library reads into an `io::Error`.
#[verifier::external_body]
fn io_error_other(message: String) -> std::io::Error {
    std::io::Error::other(message)
}

/// The error a body reader reports when more bytes remain than `limit`
/// allows: an `Io` error made by `io::Error::other` from the message
/// `limit_text(limit)`.
pub(crate) fn limit_error(limit: u64) -> (e: Error)
    ensures
        e is Io,
{
    Error::Io(io_error_other(limit_message(limit)))
}

/// Calls the `Display` of std's I/O error; its text is the error's own
/// message, which may depend on the system, and nothing is said of it.
#[verifier::external_body]
fn io_error_text(e: &std::io::Error) -> String {
    e.to_string()
}

/// Calls the `Display` of `serde_json`'s error; its text describes the
/// error, and nothing is said of it.
#[verifier::external_body]
fn json_error_text(e: &JsonError) -> String {
    e.to_string()
}

/// Calls the `Display` of std's UTF-8 conversion error; its text says where
/// the invalid sequence is, and nothing is said of it.
#[verifier::external_body]
fn utf8_error_text(e: &std::string::FromUtf8Error) -> String {
    e.to_string()
}

impl Error {
    /// The text of the error when the error it carries reads as `inner`: the
    /// prefix naming its kind followed by `inner`, or for an exceeded limit
    /// the limit in bytes (then `inner` is not used).
    pub fn text_with_inner(&self, inner: &str) -> (r: String)
        ensures
            r@ == error_text(*self, inner@),
    {
        proof {
            reveal_strlit("io: ");
            reveal_strlit("serde json: ");
            reveal_strlit("utf8: ");
        }
        let prefix = match self {
            Error::Io(_) => "io: ",
            Error::BodyExceedsLimit(l) => {
                return limit_message(*l);
            },
            Error::SerdeJson(_) => "serde json: ",
            Error::FromUtf8(_) => "utf8: ",
        };
        let mut s = String::from_str(prefix);
        s.append(inner);
        s
    }

    /// The text of the error: a prefix naming its kind, then what the inner
    /// error says of itself, or for an exceeded limit the limit in bytes.
    pub fn to_text(&self) -> (r: String)
        ensures
            exists|inner: Seq<char>| r@ == #[trigger] error_text(*self, inner),
            *self matches Error::BodyExceedsLimit(l) ==> r@ == limit_text(l),
    {
        let inner = match self {
            Error::Io(e) => io_error_text(e),
            Error::BodyExceedsLimit(_) => String::new(),
            Error::SerdeJson(e) => json_error_text(e),
            Error::FromUtf8(e) => utf8_error_text(e),
        };
        let r = self.text_with_inner(inner.as_str());
        assert(r@ == error_text(*self, inner@));
        r
    }
}

impl From<std::string::FromUtf8Error> for Error {
    fn from(error: std::string::FromUtf8Error) -> (r: Self) {
        Error::FromUtf8(error)
    }
}

impl vstd::std_specs::convert::FromSpecImpl<std::string::FromUtf8Error> for Error {
    open spec fn obeys_from_spec() -> bool {
        true
    }

    open spec fn from_spec(v: std::string::FromUtf8Error) -> Self {
        Error::FromUtf8(v)
    }
}

impl From<std::io::Error> for Error {
    fn from(error: std::io::Error) -> (r: Self) {
        Error::Io(error)
    }
}

impl vstd::std_specs::convert::FromSpecImpl<std::io::Error> for Error {
    open spec fn obeys_from_spec() -> bool {
        true
    }

    open spec fn from_spec(v: std::io::Error) -> Self {
        Error::Io(v)
    }
}

impl From<JsonError> for Error {
    fn from(error: JsonError) -> (r: Self) {
        Error::SerdeJson(error)
    }
}

impl vstd::std_specs::convert::FromSpecImpl<JsonError> for Error {
    open spec fn obeys_from_spec() -> bool {
        true
    }

    open spec fn from_spec(v: JsonError) -> Self {
        Error::SerdeJson(v)
    }
}

} // verus!
