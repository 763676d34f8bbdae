//! The reversible byte-to-text transform applied to each frame's payload:
//! base64 with the standard alphabet and no padding.
use vstd::prelude::*;

verus! {

/// The text that base64 (standard alphabet, no padding) makes of `p`.
pub uninterp spec fn b64_encode_of(p: Seq<u8>) -> Seq<u8>;

/// What base64 (standard alphabet, no padding) decodes `t` to, or `None`
/// where it rejects `t`.
pub uninterp spec fn b64_decode_of(t: Seq<u8>) -> Option<Seq<u8>>;

/// Length of the unpadded base64 text of `n` bytes: four symbols for each
/// whole group of three bytes, two or three for a trailing partial group.
pub open spec fn encoded_len(n: nat) -> nat {
    n / 3 * 4 + if n % 3 == 0 {
        0nat
    } else if n % 3 == 1 {
        2nat
    } else {
        3nat
    }
}

/// A symbol of the standard base64 alphabet: `A-Z`, `a-z`, `0-9`, `+`, `/`.
pub open spec fn is_b64_symbol(b: u8) -> bool {
    (65 <= b && b <= 90) || (97 <= b && b <= 122) || (48 <= b && b <= 57) || b == 43 || b == 47
}

/// What the encoder guarantees of the text of `p`: it has the unpadded
/// length, uses only the base64 alphabet, and decodes back to `p`.
pub open spec fn well_encoded(p: Seq<u8>) -> bool {
    &&& b64_encode_of(p).len() == encoded_len(p.len())
    &&& forall|i: int|
        0 <= i < b64_encode_of(p).len() ==> is_b64_symbol(#[trigger] b64_encode_of(p)[i])
    &&& b64_decode_of(b64_encode_of(p)) == Some(p)
}

/// Errors that the codec reports.
#[derive(Clone, Copy, Debug, PartialEq, Eq, Structural)]
pub enum CodecError {
    /// A frame grew past the maximum frame length without a delimiter.
    LengthExceeded,
    /// A frame's payload is not valid unpadded base64.
    InvalidPayload,
}

/// What a frame's text decodes to. A text whose length leaves no room for the
/// transform's own length arithmetic (within three of `usize::MAX`) is
/// rejected as invalid.
pub open spec fn payload_of(t: Seq<u8>) -> Result<Seq<u8>, CodecError> {
    if t.len() + 3 > usize::MAX {
        Err(CodecError::InvalidPayload)
    } else {
        match b64_decode_of(t) {
            Some(p) => Ok(p),
            None => Err(CodecError::InvalidPayload),
        }
    }
}

/// Relies on `base64::encode_config` with `STANDARD_NO_PAD`: the unpadded
/// text of `p`, of the documented length, in the standard alphabet, which
/// decodes back to `p`. It panics when the text length overflows `usize`.
#[verifier::external_body]
pub(crate) fn encode_text(p: &[u8]) -> (r: Vec<u8>)
    requires
        encoded_len(p@.len()) <= usize::MAX,
    ensures
        r@ == b64_encode_of(p@),
        r@.len() == encoded_len(p@.len()),
        forall|i: int| 0 <= i < r@.len() ==> is_b64_symbol(#[trigger] r@[i]),
        b64_decode_of(r@) == Some(p@),
{
    base64::encode_config(p, base64::STANDARD_NO_PAD).into_bytes()
}

/// Relies on `base64::decode_config` with `STANDARD_NO_PAD`: the bytes that
/// `t` decodes to, or an error. It panics when `t.len() + 3` overflows.
#[verifier::external_body]
fn decode_text(t: &[u8]) -> (r: Option<Vec<u8>>)
    requires
        t@.len() + 3 <= usize::MAX,
    ensures
        match r {
            Some(v) => b64_decode_of(t@) == Some(v@),
            None => b64_decode_of(t@) is None,
        },
{
    base64::decode_config(t, base64::STANDARD_NO_PAD).ok()
}

/// Computes `encoded_len(n)` without overflow.
pub fn encoded_size(n: usize) -> (r: usize)
    requires
        encoded_len(n as nat) <= usize::MAX,
    ensures
        r == encoded_len(n as nat),
{
    let rem: usize = n % 3;
    let tail: usize = if rem == 0 {
        0
    } else if rem == 1 {
        2
    } else {
        3
    };
    n / 3 * 4 + tail
}

/// Decodes a frame's text into its payload.
pub fn decode_payload(t: &[u8]) -> (r: Result<Vec<u8>, CodecError>)
    ensures
        match r {
            Ok(v) => payload_of(t@) == Ok::<Seq<u8>, CodecError>(v@),
            Err(e) => payload_of(t@) == Err::<Seq<u8>, CodecError>(e),
        },
{
    if t.len() > usize::MAX - 3 {
        return Err(CodecError::InvalidPayload);
    }
    match decode_text(t) {
        Some(v) => Ok(v),
        None => Err(CodecError::InvalidPayload),
    }
}

} // verus!
