//! Packet payloads as they are written in a trace: base64 text.
use base64::Engine;
use vstd::prelude::*;

verus! {

/// Why a payload is not base64.
#[derive(Debug, Clone, Copy, PartialEq, Eq, Structural)]
pub enum PayloadError {
    /// A byte, at this offset, that cannot stand there.
    InvalidByte(usize, u8),
    /// A number of symbols that no input encodes to.
    InvalidLength(usize),
    /// A last symbol, at this offset, whose unused bits are not zero.
    InvalidLastSymbol(usize, u8),
    /// Padding that is absent or wrong.
    InvalidPadding,
}

/// What base64's standard engine makes of `text`.
pub uninterp spec fn base64_standard(text: Seq<u8>) -> Result<Seq<u8>, PayloadError>;

/// Calls `Engine::decode` on `base64::engine::general_purpose::STANDARD`. Claimed of it: the
/// outcome, bytes or error, depends on the text alone.
#[verifier::external_body]
fn base64_decode(text: &[u8]) -> (outcome: Result<Vec<u8>, PayloadError>)
    ensures
        match outcome {
            Ok(bytes) => base64_standard(text@) == Ok::<Seq<u8>, PayloadError>(bytes@),
            Err(error) => base64_standard(text@) == Err::<Seq<u8>, PayloadError>(error),
        },
{
    base64::engine::general_purpose::STANDARD.decode(text).map_err(
        |error|
            match error {
                base64::DecodeError::InvalidByte(at, byte) => PayloadError::InvalidByte(at, byte),
                base64::DecodeError::InvalidLength(length) => PayloadError::InvalidLength(length),
                base64::DecodeError::InvalidLastSymbol(at, byte) => PayloadError::InvalidLastSymbol(
                    at,
                    byte,
                ),
                base64::DecodeError::InvalidPadding => PayloadError::InvalidPadding,
            },
    )
}

/// The payload that `text`, in UTF-8, stands for.
pub open spec fn payload_of(text: Seq<char>) -> Result<Seq<u8>, PayloadError> {
    base64_standard(vstd::utf8::encode_utf8(text))
}

/// The payload comes of the whole text, of every byte of its UTF-8 form.
pub proof fn law_payload_comes_of_the_whole_text(text: Seq<char>)
    ensures
        payload_of(text) == base64_standard(vstd::utf8::encode_utf8(text)),
{
}

/// The packet payload that a trace line holds as base64 text: what the standard engine makes of
/// all its bytes.
pub fn decode_payload(text: &str) -> (outcome: Result<Vec<u8>, PayloadError>)
    ensures
        match outcome {
            Ok(bytes) => payload_of(text@) == Ok::<Seq<u8>, PayloadError>(bytes@),
            Err(error) => payload_of(text@) == Err::<Seq<u8>, PayloadError>(error),
        },
        match outcome {
            Ok(bytes) => base64_standard(vstd::utf8::encode_utf8(text@)) == Ok::<
                Seq<u8>,
                PayloadError,
            >(bytes@),
            Err(error) => base64_standard(vstd::utf8::encode_utf8(text@)) == Err::<
                Seq<u8>,
                PayloadError,
            >(error),
        },
{
    base64_decode(text.as_bytes())
}

} // verus!
