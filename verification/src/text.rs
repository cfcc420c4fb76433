//! Byte and text helpers: ASCII case folding, ASCII bytes as text, and the
//! UTF-8 conversions of std that the body readers use.
use vstd::prelude::*;
use vstd::string::*;
use vstd::utf8::*;

verus! {

broadcast use vstd::utf8::group_utf8_lib;

/// ASCII lower case of one byte; other bytes are left as they are.
pub open spec fn lower(b: u8) -> u8 {
    if 65 <= b && b <= 90 {
        (b + 32) as u8
    } else {
        b
    }
}

/// ASCII lower case of a byte sequence.
pub open spec fn lower_seq(s: Seq<u8>) -> Seq<u8> {
    s.map_values(|b: u8| lower(b))
}

/// The characters of a sequence of ASCII bytes, one per byte.
pub open spec fn ascii_chars(b: Seq<u8>) -> Seq<char> {
    b.map_values(|x: u8| x as char)
}

/// The UTF-8 bytes of a string slice.
pub fn bytes_of(s: &str) -> (r: &[u8])
    ensures
        r@ == s.spec_bytes(),
{
    s.as_bytes()
}

/// ASCII lower case of a byte slice.
pub fn to_lower_bytes(b: &[u8]) -> (r: Vec<u8>)
    ensures
        r@ == lower_seq(b@),
{
    let mut out: Vec<u8> = Vec::new();
    let mut i: usize = 0;
    while i < b.len()
        invariant
            0 <= i <= b@.len(),
            out@ =~= lower_seq(b@.subrange(0, i as int)),
        decreases b@.len() - i,
    {
        let c = b[i];
        let l = if 65 <= c && c <= 90 {
            c + 32
        } else {
            c
        };
        out.push(l);
        i = i + 1;
        assert(b@.subrange(0, i as int) =~= b@.subrange(0, i - 1) + seq![c]);
    }
    assert(b@.subrange(0, b@.len() as int) =~= b@);
    out
}

/// Whether two byte slices are equal.
pub fn bytes_equal(a: &[u8], b: &[u8]) -> (r: bool)
    ensures
        r == (a@ == b@),
{
    if a.len() != b.len() {
        return false;
    }
    let mut i: usize = 0;
    while i < a.len()
        invariant
            a@.len() == b@.len(),
            0 <= i <= a@.len(),
            forall|j: int| 0 <= j < i ==> a@[j] == b@[j],
        decreases a@.len() - i,
    {
        if a[i] != b[i] {
            return false;
        }
        i = i + 1;
    }
    assert(a@ =~= b@);
    true
}

/// Declared so that the library can carry std's UTF-8 conversion error.
#[verifier::external_type_specification]
#[verifier::external_body]
pub struct ExFromUtf8Error(std::string::FromUtf8Error);

/// Calls std's `String::from_utf8`, which succeeds exactly when the bytes are
/// valid UTF-8 and then holds the characters they encode.
#[verifier::external_body]
pub(crate) fn string_from_utf8(bytes: Vec<u8>) -> (r: Result<String, std::string::FromUtf8Error>)
    ensures
        r is Ok <==> valid_utf8(bytes@),
        r matches Ok(s) ==> s@ == decode_utf8(bytes@),
{
    String::from_utf8(bytes)
}

/// How many bytes a well-formed scalar led by `lead` takes; 1 where no
/// scalar can begin with `lead`.
pub open spec fn sequence_width(lead: u8) -> int {
    if 0xc2 <= lead && lead <= 0xdf {
        2
    } else if 0xe0 <= lead && lead <= 0xef {
        3
    } else if 0xf0 <= lead && lead <= 0xf4 {
        4
    } else {
        1
    }
}

/// Whether `b` may follow `lead` as the second byte of a well-formed scalar
/// (the ranges that rule out overlong forms, surrogates and values past
/// U+10FFFF).
pub open spec fn second_byte_fits(lead: u8, b: u8) -> bool {
    if lead == 0xe0 {
        0xa0 <= b && b <= 0xbf
    } else if lead == 0xed {
        0x80 <= b && b <= 0x9f
    } else if lead == 0xf0 {
        0x90 <= b && b <= 0xbf
    } else if lead == 0xf4 {
        0x80 <= b && b <= 0x8f
    } else {
        0x80 <= b && b <= 0xbf
    }
}

/// The length of the maximal invalid subpart at the front of non-empty `b`:
/// the longest start of a well-formed scalar found there, or one byte.
pub open spec fn invalid_run(b: Seq<u8>) -> int {
    let w = sequence_width(b[0]);
    if w == 1 || b.len() < 2 || !second_byte_fits(b[0], b[1]) {
        1
    } else if w == 2 || b.len() < 3 || !(0x80 <= b[2] && b[2] <= 0xbf) {
        2
    } else if w == 3 || b.len() < 4 || !(0x80 <= b[3] && b[3] <= 0xbf) {
        3
    } else {
        4
    }
}

/// The text of bytes read as UTF-8 with each maximal invalid subpart (see
/// `invalid_run`) replaced by one `?`.
pub open spec fn utf8_with_question_marks(b: Seq<u8>) -> Seq<char>
    decreases b.len(),
{
    if b.len() == 0 {
        Seq::empty()
    } else if valid_first_scalar(b) {
        proof {
            assert(length_of_first_scalar(b) >= 1);
        }
        seq![decode_first_scalar(b) as char] + utf8_with_question_marks(pop_first_scalar(b))
    } else {
        proof {
            assert(1 <= invalid_run(b) <= b.len());
        }
        seq!['?'] + utf8_with_question_marks(b.skip(invalid_run(b)))
    }
}

/// A replaced run never swallows valid input: it is one to four bytes long,
/// and every byte after its first is a continuation byte (`0x80..=0xBF`), so
/// no ASCII byte and no lead byte is ever part of a run it does not begin.
pub proof fn law_invalid_run_is_lead_and_continuations(b: Seq<u8>)
    requires
        b.len() > 0,
    ensures
        1 <= invalid_run(b) <= 4,
        invalid_run(b) <= b.len(),
        forall|j: int| 1 <= j < invalid_run(b) ==> 0x80 <= #[trigger] b[j] <= 0xbf,
        b[0] < 0x80 || (0x80 <= b[0] && b[0] <= 0xc1) || 0xf5 <= b[0] ==> invalid_run(b) == 1,
{
}

/// In a lossy read, each byte that is ASCII begins its own scalar: it comes
/// out as the same character, and what follows is read on from the next
/// byte.
pub proof fn law_ascii_survives_lossy_read(b: Seq<u8>)
    requires
        b.len() > 0,
        b[0] < 0x80,
    ensures
        utf8_with_question_marks(b) == seq![b[0] as char] + utf8_with_question_marks(b.drop_first()),
{
    assert(valid_first_scalar(b));
    assert(pop_first_scalar(b) =~= b.drop_first());
    let x = b[0];
    assert(((x & 0x7f) as u32) == x as u32) by (bit_vector)
        requires
            x < 0x80,
    ;
    assert(decode_first_scalar(b) == x as u32);
}

/// The length of the maximal invalid subpart of `bytes` at `i`.
fn invalid_run_at(bytes: &[u8], i: usize) -> (n: usize)
    requires
        i < bytes@.len(),
    ensures
        n == invalid_run(bytes@.skip(i as int)),
        1 <= n <= bytes@.len() - i,
        forall|j: int| i + 1 <= j < i + n ==> 0x80 <= #[trigger] bytes@[j] <= 0xbf,
{
    let ghost rest = bytes@.skip(i as int);
    proof {
        law_invalid_run_is_lead_and_continuations(rest);
        assert forall|j: int| i + 1 <= j < i + invalid_run(rest) implies 0x80 <= #[trigger] bytes@[j]
            <= 0xbf by {
            assert(rest[j - i] == bytes@[j]);
        }
    }
    let lead = bytes[i];
    assert(rest[0] == lead);
    let w: usize = if 0xc2 <= lead && lead <= 0xdf {
        2
    } else if 0xe0 <= lead && lead <= 0xef {
        3
    } else if 0xf0 <= lead && lead <= 0xf4 {
        4
    } else {
        1
    };
    let left = bytes.len() - i;
    if w == 1 || left < 2 {
        return 1;
    }
    let b1 = bytes[i + 1];
    assert(rest[1] == b1);
    let fits = if lead == 0xe0 {
        0xa0 <= b1 && b1 <= 0xbf
    } else if lead == 0xed {
        0x80 <= b1 && b1 <= 0x9f
    } else if lead == 0xf0 {
        0x90 <= b1 && b1 <= 0xbf
    } else if lead == 0xf4 {
        0x80 <= b1 && b1 <= 0x8f
    } else {
        0x80 <= b1 && b1 <= 0xbf
    };
    if !fits {
        return 1;
    }
    if w == 2 || left < 3 {
        return 2;
    }
    let b2 = bytes[i + 2];
    assert(rest[2] == b2);
    if !(0x80 <= b2 && b2 <= 0xbf) {
        return 2;
    }
    if w == 3 || left < 4 {
        return 3;
    }
    let b3 = bytes[i + 3];
    assert(rest[3] == b3);
    if !(0x80 <= b3 && b3 <= 0xbf) {
        return 3;
    }
    4
}

/// The number of bytes of a scalar that begins with `b`, by its leading
/// bits; 0 where `b` cannot begin one.
pub open spec fn scalar_width(b: u8) -> int {
    if b <= 0x7f {
        1
    } else if 0xc0 <= b && b <= 0xdf {
        2
    } else if 0xe0 <= b && b <= 0xef {
        3
    } else if 0xf0 <= b && b <= 0xf7 {
        4
    } else {
        0
    }
}

/// Whether a well-formed scalar begins `s` is decided by its first
/// `scalar_width` bytes, which then encode that scalar alone.
proof fn lemma_first_scalar_in_chunk(s: Seq<u8>)
    requires
        s.len() > 0,
        1 <= scalar_width(s[0]) <= s.len(),
    ensures
        valid_first_scalar(s) == valid_utf8(s.take(scalar_width(s[0]))),
        valid_first_scalar(s) ==> length_of_first_scalar(s) == scalar_width(s[0])
            && decode_utf8(s.take(scalar_width(s[0]))) == seq![decode_first_scalar(s) as char],
{
    let w = scalar_width(s[0]);
    let c = s.take(w);
    assert(c[0] == s[0]);
    if w >= 2 {
        assert(c[1] == s[1]);
    }
    if w >= 3 {
        assert(c[2] == s[2]);
    }
    if w >= 4 {
        assert(c[3] == s[3]);
    }
    assert(valid_first_scalar(c) == valid_first_scalar(s));
    if valid_first_scalar(c) {
        assert(length_of_first_scalar(c) == w);
        assert(pop_first_scalar(c) =~= Seq::<u8>::empty());
        assert(valid_utf8(pop_first_scalar(c)));
        assert(decode_utf8(pop_first_scalar(c)) =~= Seq::<char>::empty());
        assert(decode_first_scalar(c) == decode_first_scalar(s));
    }
}

/// Well-formed UTF-8 comes out decoded as it is.
pub proof fn lemma_question_marks_of_valid(b: Seq<u8>)
    requires
        valid_utf8(b),
    ensures
        utf8_with_question_marks(b) == decode_utf8(b),
    decreases b.len(),
{
    if b.len() > 0 {
        lemma_question_marks_of_valid(pop_first_scalar(b));
    }
}

/// The text of `bytes` read as UTF-8, each maximal invalid subpart replaced
/// by one `?`; well-formed UTF-8 is decoded as it is.
pub fn utf8_lossy_question_marks(bytes: &[u8]) -> (r: String)
    ensures
        r@ == utf8_with_question_marks(bytes@),
{
    let mut out = String::new();
    let mut i: usize = 0;
    assert(bytes@.skip(0) =~= bytes@);
    assert(out@ == Seq::<char>::empty());
    assert(out@ + utf8_with_question_marks(bytes@.skip(0)) =~= utf8_with_question_marks(bytes@));
    while i < bytes.len()
        invariant
            0 <= i <= bytes@.len(),
            out@ + utf8_with_question_marks(bytes@.skip(i as int)) == utf8_with_question_marks(
                bytes@,
            ),
        decreases bytes@.len() - i,
    {
        let ghost rest = bytes@.skip(i as int);
        let b0 = bytes[i];
        let w: usize = if b0 <= 0x7f {
            1
        } else if 0xc0 <= b0 && b0 <= 0xdf {
            2
        } else if 0xe0 <= b0 && b0 <= 0xef {
            3
        } else if 0xf0 <= b0 && b0 <= 0xf7 {
            4
        } else {
            0
        };
        assert(rest[0] == b0);
        assert(w == scalar_width(rest[0]));
        let mut decoded = false;
        if w >= 1 && w <= bytes.len() - i {
            let chunk = vstd::slice::slice_to_vec(vstd::slice::slice_subrange(bytes, i, i + w));
            assert(chunk@ =~= rest.take(w as int));
            proof {
                lemma_first_scalar_in_chunk(rest);
            }
            match string_from_utf8(chunk) {
                Ok(c) => {
                    proof {
                        assert(valid_first_scalar(rest));
                        assert(pop_first_scalar(rest) =~= bytes@.skip(i + w));
                        assert(out@ + c@ + utf8_with_question_marks(bytes@.skip(i + w)) =~= out@
                            + utf8_with_question_marks(rest));
                    }
                    out.append(c.as_str());
                    i = i + w;
                    decoded = true;
                },
                Err(_) => {},
            }
        }
        if !decoded {
            let k = invalid_run_at(bytes, i);
            proof {
                reveal_strlit("?");
                if w == 0 || w > bytes.len() - i {
                    assert(!valid_first_scalar(rest));
                }
                assert(rest.skip(k as int) =~= bytes@.skip(i + k));
                assert(out@ + "?"@ + utf8_with_question_marks(bytes@.skip(i + k)) =~= out@
                    + utf8_with_question_marks(rest));
            }
            out.append("?");
            i = i + k;
        }
    }
    assert(bytes@.skip(bytes@.len() as int) =~= Seq::<u8>::empty());
    out
}

/// ASCII bytes are valid UTF-8 and encode one character per byte.
pub proof fn lemma_ascii_utf8(b: Seq<u8>)
    requires
        forall|i: int| 0 <= i < b.len() ==> #[trigger] b[i] < 128,
    ensures
        valid_utf8(b),
        decode_utf8(b) == ascii_chars(b),
{
    let c = ascii_chars(b);
    assert forall|i: int| 0 <= i < c.len() implies '\0' <= #[trigger] c[i] <= '\u{7f}' by {
        let x = b[i];
        assert(c[i] == x as char);
        assert(x < 128);
    }
    assert(is_ascii_chars(c));
    is_ascii_chars_encode_utf8(c);
    assert forall|i: int| 0 <= i < b.len() implies encode_utf8(c)[i] == b[i] by {
        let x = b[i];
        assert(c[i] as u8 == encode_utf8(c)[i]);
        assert(c[i] == x as char);
        assert((x as char) as u8 == x);
    }
    assert(encode_utf8(c) =~= b);
    encode_utf8_valid_utf8(c);
    encode_utf8_decode_utf8(c);
}

/// A string of the characters of ASCII bytes.
pub fn ascii_to_string(b: &[u8]) -> (r: String)
    requires
        forall|i: int| 0 <= i < b@.len() ==> #[trigger] b@[i] < 128,
    ensures
        r@ == ascii_chars(b@),
{
    proof {
        lemma_ascii_utf8(b@);
    }
    match string_from_utf8(vstd::slice::slice_to_vec(b)) {
        Ok(s) => s,
        Err(_) => String::new(),
    }
}

} // verus!
