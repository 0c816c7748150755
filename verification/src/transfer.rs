//! The content-transfer-encodings of archive parts.

use vstd::prelude::*;
use vstd::string::*;
use base64::Engine;
use crate::error::{ErrorKind, InvalidData, bare_failure};
use crate::scan::starts_with_at;

verus! {

/// What the standard base64 engine of the `base64` crate decodes a text
/// to; `None` where it rejects the text.
pub uninterp spec fn base64_reading(text: Seq<u8>) -> Option<Seq<u8>>;

/// `base64::Engine::decode` on the engine `BASE64_STANDARD`.
#[verifier::external_body]
fn base64_decode(text: &[u8]) -> (r: Option<Vec<u8>>)
    ensures
        match r {
            Some(bytes) => base64_reading(text@) == Some(bytes@),
            None => base64_reading(text@) is None,
        },
{
    base64::prelude::BASE64_STANDARD.decode(text).ok()
}

/// What `quoted_printable::decode` makes of a text in strict mode; `None`
/// where it rejects the text.
pub uninterp spec fn quoted_printable_reading(text: Seq<u8>) -> Option<Seq<u8>>;

/// `quoted_printable::decode` in the mode `ParseMode::Strict`.
#[verifier::external_body]
fn quoted_printable_decode(text: &[u8]) -> (r: Option<Vec<u8>>)
    ensures
        match r {
            Some(bytes) => quoted_printable_reading(text@) == Some(bytes@),
            None => quoted_printable_reading(text@) is None,
        },
{
    quoted_printable::decode(text, quoted_printable::ParseMode::Strict).ok()
}

/// Space, tab, line feed, form feed and carriage return.
pub open spec fn is_ascii_whitespace(b: u8) -> bool {
    b == 32 || b == 9 || b == 10 || b == 12 || b == 13
}

/// The bytes of `s` that are not ASCII white space, in their order.
pub open spec fn without_whitespace(s: Seq<u8>) -> Seq<u8> {
    s.filter(|b: u8| !is_ascii_whitespace(b))
}

/// Drops the ASCII white space that a wrapped payload holds.
pub fn strip_whitespace(data: &[u8]) -> (out: Vec<u8>)
    ensures
        out@ == without_whitespace(data@),
{
    let mut out: Vec<u8> = Vec::new();
    let mut i: usize = 0;
    proof {
        reveal(Seq::filter);
    }
    while i < data.len()
        invariant
            i <= data@.len(),
            out@ == without_whitespace(data@.take(i as int)),
        decreases data@.len() - i,
    {
        let b: u8 = data[i];
        proof {
            assert(data@.take(i + 1) =~= data@.take(i as int).push(b));
            data@.take(i as int).lemma_filter_push(b, |b: u8| !is_ascii_whitespace(b));
        }
        if !(b == 32 || b == 9 || b == 10 || b == 12 || b == 13) {
            out.push(b);
        }
        i += 1;
    }
    assert(data@.take(data@.len() as int) =~= data@);
    out
}

/// The bytes that base64 text stands for, the text being free to hold
/// ASCII white space anywhere.
pub open spec fn base64_payload(data: Seq<u8>) -> Option<Seq<u8>> {
    base64_reading(without_whitespace(data))
}

/// Decodes base64 text that may be wrapped into lines: ASCII white space
/// is dropped before the text is decoded.
pub fn decode_base64_containing_whitespace(data: &[u8]) -> (r: Option<Vec<u8>>)
    ensures
        match r {
            Some(bytes) => base64_payload(data@) == Some(bytes@),
            None => base64_payload(data@) is None,
        },
{
    let text = strip_whitespace(data);
    base64_decode(text.as_slice())
}

/// The bytes that a payload stands for in the encoding named `encoding`.
///
/// `base64` and `quoted-printable` are the two encodings; a payload that
/// is not valid in its encoding is `Malformed`, any other name is
/// `UnsupportedEncoding`.
pub open spec fn decoded(encoding: Seq<u8>, payload: Seq<u8>) -> Result<Seq<u8>, ErrorKind> {
    if encoding == "base64".spec_bytes() {
        match base64_payload(payload) {
            Some(bytes) => Ok(bytes),
            None => Err(ErrorKind::Malformed),
        }
    } else if encoding == "quoted-printable".spec_bytes() {
        match quoted_printable_reading(payload) {
            Some(bytes) => Ok(bytes),
            None => Err(ErrorKind::Malformed),
        }
    } else {
        Err(ErrorKind::UnsupportedEncoding)
    }
}

/// Whether `a` and `b` hold the same bytes.
pub fn same_bytes(a: &[u8], b: &[u8]) -> (r: bool)
    ensures
        r == (a@ == b@),
{
    if a.len() != b.len() {
        return false;
    }
    let r = starts_with_at(a, 0, b);
    assert(a@.subrange(0, a@.len() as int) =~= a@);
    r
}

/// Recovers the bytes of a payload from its transfer encoding.
pub fn decode(encoding: &[u8], payload: &[u8]) -> (r: Result<Vec<u8>, InvalidData>)
    ensures
        match decoded(encoding@, payload@) {
            Ok(bytes) => r is Ok && r->Ok_0@ == bytes,
            Err(kind) => r is Err && r->Err_0@ == bare_failure(kind) && r->Err_0.well_formed(),
        },
{
    if same_bytes(encoding, "base64".as_bytes()) {
        match decode_base64_containing_whitespace(payload) {
            Some(bytes) => Ok(bytes),
            None => Err(InvalidData::bare(ErrorKind::Malformed)),
        }
    } else if same_bytes(encoding, "quoted-printable".as_bytes()) {
        match quoted_printable_decode(payload) {
            Some(bytes) => Ok(bytes),
            None => Err(InvalidData::bare(ErrorKind::Malformed)),
        }
    } else {
        Err(InvalidData::bare(ErrorKind::UnsupportedEncoding))
    }
}

} // verus!
