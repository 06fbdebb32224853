//! Turning the body of a part into text.
//!
//! A leaf says in its `Content-Transfer-Encoding` field how its body was
//! made fit for transport. That is undone first; what comes out has to be
//! UTF-8 to be text.
//!
//! Quoted-printable data is decoded leniently: what is malformed in it is
//! passed over. Base64 data is decoded strictly, but for the line breaks and
//! blanks in it, which do not count.

use crate::bytes::{lowered, same_bytes, to_lower, to_vec, trim, trim_of, CR, LF, SPACE, TAB};
use crate::imap_extention::mime::{fields_of, lookup, value_of, Field, Header};
use vstd::prelude::*;
use vstd::string::StringSliceAdditionalSpecFns;
use vstd::utf8::{decode_utf8, valid_utf8};

verus! {

/// Why the body of a part could not be turned into text.
#[derive(Debug, Clone, Copy, PartialEq, Eq, Structural)]
pub enum DecodeError {
    /// The part names a transfer encoding that is not undone here.
    UnsupportedEncoding,
    /// The part says that its body is base64 data, and it is not.
    InvalidBase64,
    /// What was decoded is not UTF-8.
    InvalidUtf8,
}

/// `quoted_printable::QuotedPrintableError`: what the decoder objects to in
/// its strict mode.
#[verifier::external_type_specification]
#[verifier::external_body]
pub struct ExQuotedPrintableError(quoted_printable::QuotedPrintableError);

/// `std::string::FromUtf8Error`: bytes that are no UTF-8.
#[verifier::external_type_specification]
#[verifier::external_body]
pub struct ExFromUtf8Error(std::string::FromUtf8Error);

/// What the standard engine of the `base64` crate decodes `input` to;
/// `None` for an input that it refuses.
pub uninterp spec fn base64_decoded(input: Seq<u8>) -> Option<Seq<u8>>;

/// What `quoted_printable::decode` makes of `input` in its robust mode.
pub uninterp spec fn quoted_printable_decoded(input: Seq<u8>) -> Seq<u8>;

/// Calls `quoted_printable::decode` in its robust mode.
///
/// The result is taken on trust to depend on the input alone, and the call
/// to succeed on every input: in the robust mode the decoder passes over
/// what is malformed, and every error it can return is returned in the
/// strict mode only.
#[verifier::external_body]
fn decode_robust(input: &[u8]) -> (r: Result<Vec<u8>, quoted_printable::QuotedPrintableError>)
    ensures
        r is Ok,
        r matches Ok(v) ==> v@ == quoted_printable_decoded(input@),
{
    quoted_printable::decode(input, quoted_printable::ParseMode::Robust)
}

/// Calls `Engine::decode` of the `base64` crate on its standard engine:
/// the standard alphabet, with padding.
///
/// Taken on trust: whether an input is decoded, and to what, depends on
/// the input alone. What the engine objects to is not handed on.
#[verifier::external_body]
fn decode_standard(input: &[u8]) -> (r: Option<Vec<u8>>)
    ensures
        r is Some <==> base64_decoded(input@) is Some,
        r matches Some(v) ==> base64_decoded(input@) == Some(v@),
{
    match base64::Engine::decode(&base64::engine::general_purpose::STANDARD, input) {
        Ok(bytes) => Some(bytes),
        Err(_) => None,
    }
}

/// Calls `String::from_utf8`.
///
/// Taken on trust: the call succeeds on the byte strings that are UTF-8 and
/// on no others, and the string it returns holds the characters that the
/// bytes encode.
#[verifier::external_body]
fn string_from_utf8(bytes: Vec<u8>) -> (r: Result<String, std::string::FromUtf8Error>)
    ensures
        r is Ok <==> valid_utf8(bytes@),
        r matches Ok(s) ==> s@ == decode_utf8(bytes@),
{
    String::from_utf8(bytes)
}

/// The name of the field that names the transfer encoding.
pub open spec fn encoding_name() -> Seq<u8> {
    "content-transfer-encoding".spec_bytes()
}

/// Whether a transfer encoding leaves the body as it is.
pub open spec fn is_identity(encoding: Seq<u8>) -> bool {
    encoding == "7bit".spec_bytes() || encoding == "8bit".spec_bytes() || encoding
        == "binary".spec_bytes()
}

/// Whether a transfer encoding is quoted-printable.
pub open spec fn is_quoted_printable(encoding: Seq<u8>) -> bool {
    encoding == "quoted-printable".spec_bytes()
}

/// Whether a transfer encoding is base64.
pub open spec fn is_base64(encoding: Seq<u8>) -> bool {
    encoding == "base64".spec_bytes()
}

/// Whether `b` is a space, a tab, a carriage return or a line feed.
pub open spec fn is_space(b: u8) -> bool {
    b == SPACE || b == TAB || b == CR || b == LF
}

/// `s` without its spaces, tabs and line breaks.
pub open spec fn unspaced(s: Seq<u8>) -> Seq<u8>
    decreases s.len(),
{
    if s.len() == 0 {
        Seq::empty()
    } else if is_space(s.last()) {
        unspaced(s.drop_last())
    } else {
        unspaced(s.drop_last()).push(s.last())
    }
}

/// What base64 data in the body of a part decodes to: the line breaks and
/// blanks are dropped, and the rest is decoded.
pub open spec fn base64_body(body: Seq<u8>) -> Result<Seq<u8>, DecodeError> {
    match base64_decoded(unspaced(body)) {
        Some(bytes) => Ok(bytes),
        None => Err(DecodeError::InvalidBase64),
    }
}

/// The body behind a transfer encoding. A part that names no encoding, or
/// `7bit`, `8bit` or `binary`, holds its body as it is; `quoted-printable`
/// and `base64` are decoded; any other name is an error. Capitals and the
/// blanks around the name do not count.
pub open spec fn transfer_decoded(headers: Seq<Field>, body: Seq<u8>) -> Result<
    Seq<u8>,
    DecodeError,
> {
    match value_of(headers, encoding_name()) {
        None => Ok(body),
        Some(v) => if is_identity(lowered(trim(v))) {
            Ok(body)
        } else if is_quoted_printable(lowered(trim(v))) {
            Ok(quoted_printable_decoded(body))
        } else if is_base64(lowered(trim(v))) {
            base64_body(body)
        } else {
            Err(DecodeError::UnsupportedEncoding)
        },
    }
}

/// Bytes read as text: the characters they encode, or an error where they
/// are not UTF-8.
pub open spec fn text_of(bytes: Seq<u8>) -> Result<Seq<char>, DecodeError> {
    if valid_utf8(bytes) {
        Ok(decode_utf8(bytes))
    } else {
        Err(DecodeError::InvalidUtf8)
    }
}

/// The text of a leaf: its body behind the transfer encoding, read as text.
pub open spec fn decoded_text(headers: Seq<Field>, body: Seq<u8>) -> Result<
    Seq<char>,
    DecodeError,
> {
    match transfer_decoded(headers, body) {
        Ok(bytes) => text_of(bytes),
        Err(e) => Err(e),
    }
}

/// Whether a result in strings is the result that was to be expected.
pub open spec fn says(
    r: Result<String, DecodeError>,
    expected: Result<Seq<char>, DecodeError>,
) -> bool {
    match r {
        Ok(s) => expected == Ok::<Seq<char>, DecodeError>(s@),
        Err(e) => expected == Err::<Seq<char>, DecodeError>(e),
    }
}

/// Decodes quoted-printable data. What is malformed is passed over, so
/// there is a result for every input.
pub fn decode_quoted_printable(input: &[u8]) -> (r: Vec<u8>)
    ensures
        r@ == quoted_printable_decoded(input@),
{
    match decode_robust(input) {
        Ok(v) => v,
        Err(_) => {
            // The lenient decoder returns no error.
            assert(false);
            Vec::new()
        },
    }
}

/// Drops the spaces, tabs and line breaks of `s`.
pub fn drop_spaces(s: &[u8]) -> (r: Vec<u8>)
    ensures
        r@ == unspaced(s@),
{
    let mut out: Vec<u8> = Vec::new();
    let mut i: usize = 0;
    assert(s@.take(0) =~= Seq::<u8>::empty());
    while i < s.len()
        invariant
            i <= s.len(),
            out@ == unspaced(s@.take(i as int)),
        decreases s.len() - i,
    {
        proof {
            assert(s@.take(i + 1).drop_last() =~= s@.take(i as int));
        }
        let b = s[i];
        if !(b == SPACE || b == TAB || b == CR || b == LF) {
            out.push(b);
        }
        i = i + 1;
    }
    assert(s@.take(s.len() as int) =~= s@);
    out
}

/// Decodes base64 data in which line breaks and blanks may stand.
pub fn decode_base64(input: &[u8]) -> (r: Result<Vec<u8>, DecodeError>)
    ensures
        match r {
            Ok(v) => base64_body(input@) == Ok::<Seq<u8>, DecodeError>(v@),
            Err(e) => base64_body(input@) == Err::<Seq<u8>, DecodeError>(e),
        },
{
    let data = drop_spaces(input);
    match decode_standard(data.as_slice()) {
        Some(v) => Ok(v),
        None => Err(DecodeError::InvalidBase64),
    }
}

/// Reads bytes as text.
pub fn read_text(bytes: Vec<u8>) -> (r: Result<String, DecodeError>)
    ensures
        says(r, text_of(bytes@)),
{
    match string_from_utf8(bytes) {
        Ok(s) => Ok(s),
        Err(_) => Err(DecodeError::InvalidUtf8),
    }
}

/// Undoes the transfer encoding of a body.
pub fn decode_transfer(headers: &Vec<Header>, body: &[u8]) -> (r: Result<Vec<u8>, DecodeError>)
    ensures
        match r {
            Ok(v) => transfer_decoded(fields_of(headers@), body@) == Ok::<Seq<u8>, DecodeError>(
                v@,
            ),
            Err(e) => transfer_decoded(fields_of(headers@), body@) == Err::<
                Seq<u8>,
                DecodeError,
            >(e),
        },
{
    match lookup(headers, "content-transfer-encoding".as_bytes()) {
        None => Ok(to_vec(body)),
        Some(v) => {
            let encoding = to_lower(trim_of(v.as_slice()));
            if same_bytes(encoding.as_slice(), "7bit".as_bytes()) || same_bytes(
                encoding.as_slice(),
                "8bit".as_bytes(),
            ) || same_bytes(encoding.as_slice(), "binary".as_bytes()) {
                Ok(to_vec(body))
            } else if same_bytes(encoding.as_slice(), "quoted-printable".as_bytes()) {
                Ok(decode_quoted_printable(body))
            } else if same_bytes(encoding.as_slice(), "base64".as_bytes()) {
                decode_base64(body)
            } else {
                Err(DecodeError::UnsupportedEncoding)
            }
        },
    }
}

/// The text of a leaf with the given header and body.
pub fn decode_text(headers: &Vec<Header>, body: &[u8]) -> (r: Result<String, DecodeError>)
    ensures
        says(r, decoded_text(fields_of(headers@), body@)),
{
    match decode_transfer(headers, body) {
        Ok(bytes) => read_text(bytes),
        Err(e) => Err(e),
    }
}

} // verus!
