//! Trusted boundary to the base64 crate.
//!
//! The wire protocol frames its binary payloads in standard base64. The two
//! wrappers here make the only calls into the base64 crate; their contracts
//! name the results with the uninterpreted functions below, and everything
//! said about those names is said here.

use vstd::prelude::*;

use base64::Engine;

verus! {

/// The byte sequence, if any, that standard padded base64 decoding yields for
/// the given input. `None` means the input is not valid base64.
pub uninterp spec fn b64_decode_of(s: Seq<u8>) -> Option<Seq<u8>>;

/// The character sequence that standard padded base64 encoding yields for the
/// given bytes.
pub uninterp spec fn b64_chars_of(b: Seq<u8>) -> Seq<char>;

/// Relies on base64's `Engine::decode` with the `STANDARD` engine: the result
/// is a deterministic function of the input bytes alone, and invalid input is
/// reported as an error rather than a panic.
#[verifier::external_body]
pub(crate) fn b64_decode(s: &[u8]) -> (r: Result<Vec<u8>, base64::DecodeError>)
    ensures
        match r {
            Ok(v) => b64_decode_of(s@) == Some(v@),
            Err(_) => b64_decode_of(s@) is None,
        },
{
    base64::engine::general_purpose::STANDARD.decode(s)
}

/// Relies on base64's `Engine::encode` with the `STANDARD` engine: the result
/// is a deterministic function of the input bytes alone. The length bound
/// keeps the encoded size far below the only documented panic, an overflow of
/// the output-buffer size computation.
#[verifier::external_body]
pub(crate) fn b64_encode(b: &[u8]) -> (r: String)
    requires
        b@.len() <= 0x1000_0000,
    ensures
        r@ == b64_chars_of(b@),
{
    base64::engine::general_purpose::STANDARD.encode(b)
}

/// The error type of base64 decoding, carried through [`b64_decode`] and
/// mapped to [`crate::error::CodecError`] by verified callers.
#[verifier::external_type_specification]
#[verifier::external_body]
pub struct ExDecodeError(base64::DecodeError);

} // verus!
