//! Undoing the content-transfer-encoding of a part.
//!
//! Decoding never fails the caller: content that cannot be decoded comes back
//! empty, with the failure recorded beside it.

use crate::structure::{ContentEncoding, LeafMetadata};
use vstd::prelude::*;
use vstd::slice::slice_to_vec;

verus! {

/// The transfer encodings the gateway tells apart.
#[derive(Clone, Copy, Debug, PartialEq, Eq, Structural)]
pub enum EncodingType {
    SevenBit,
    Base64,
    Other,
}

/// The encoding tag recorded for a transfer encoding: 7-bit and base64 are
/// kept, every other encoding is `Other`.
pub open spec fn encoding_tag(transfer_encoding: ContentEncoding) -> EncodingType {
    match transfer_encoding {
        ContentEncoding::SevenBit => EncodingType::SevenBit,
        ContentEncoding::Base64 => EncodingType::Base64,
        _ => EncodingType::Other,
    }
}

/// Picks the encoding tag of a leaf part from its transfer encoding.
pub fn decide_encoding(other: &LeafMetadata) -> (encoding: EncodingType)
    ensures
        encoding == encoding_tag(other.transfer_encoding),
{
    match other.transfer_encoding {
        ContentEncoding::SevenBit => EncodingType::SevenBit,
        ContentEncoding::Base64 => EncodingType::Base64,
        _ => EncodingType::Other,
    }
}

/// Decoded content, and how it came about.
#[derive(Debug, PartialEq, Eq)]
pub struct DecodedBytes {
    pub bytes: Vec<u8>,
    /// Set where the wire bytes were malformed; `bytes` is then empty.
    pub decode_failure: bool,
    /// Set where the encoding is one that is not undone; `bytes` are then the
    /// wire bytes.
    pub undecoded: bool,
}

/// Decoded content as a mathematical value.
pub struct DecodedContent {
    pub bytes: Seq<u8>,
    pub decode_failure: bool,
    pub undecoded: bool,
}

impl View for DecodedBytes {
    type V = DecodedContent;

    open spec fn view(&self) -> DecodedContent {
        DecodedContent {
            bytes: self.bytes@,
            decode_failure: self.decode_failure,
            undecoded: self.undecoded,
        }
    }
}

#[verifier::external_type_specification]
#[verifier::external_body]
pub struct ExDecodeError(data_encoding::DecodeError);

/// The payload that MIME base64 decoding gives for `wire`, or `None` where
/// `wire` is not valid MIME base64.
pub uninterp spec fn base64_mime_payload(wire: Seq<u8>) -> Option<Seq<u8>>;

/// Calls `data_encoding::BASE64_MIME.decode`.  The contract only names what
/// the call returns: the payload on success, and no payload where the call
/// reports an error.
#[verifier::external_body]
fn base64_mime_decode(wire: &[u8]) -> (outcome: Result<Vec<u8>, data_encoding::DecodeError>)
    ensures
        match outcome {
            Ok(payload) => base64_mime_payload(wire@) == Some(payload@),
            Err(_) => base64_mime_payload(wire@) is None,
        },
{
    data_encoding::BASE64_MIME.decode(wire)
}

/// What decoding base64 content gives once its payload is known: the
/// payload, or nothing and a recorded failure where there is none.
pub open spec fn base64_content(payload: Option<Seq<u8>>) -> DecodedContent {
    match payload {
        Some(payload) => DecodedContent { bytes: payload, decode_failure: false, undecoded: false },
        None => DecodedContent { bytes: Seq::empty(), decode_failure: true, undecoded: false },
    }
}

/// What decoding `wire` gives: 7-bit content is the wire bytes, base64
/// content is the payload of the wire bytes, and content in any other
/// encoding is the wire bytes, marked as not decoded.
pub open spec fn decoded(encoding: EncodingType, wire: Seq<u8>) -> DecodedContent {
    match encoding {
        EncodingType::SevenBit => DecodedContent {
            bytes: wire,
            decode_failure: false,
            undecoded: false,
        },
        EncodingType::Base64 => base64_content(base64_mime_payload(wire)),
        EncodingType::Other => DecodedContent { bytes: wire, decode_failure: false, undecoded: true },
    }
}

/// The payload of a decoding outcome as a mathematical value.
pub open spec fn outcome_payload(outcome: Result<Vec<u8>, data_encoding::DecodeError>) -> Option<
    Seq<u8>,
> {
    match outcome {
        Ok(payload) => Some(payload@),
        Err(_) => None,
    }
}

/// Turns the outcome of a base64 decoding into decoded content: the payload
/// where there is one, else empty content with the failure recorded.
pub fn absorb_base64_outcome(outcome: Result<Vec<u8>, data_encoding::DecodeError>) -> (content:
    DecodedBytes)
    ensures
        content@ == base64_content(outcome_payload(outcome)),
{
    match outcome {
        Ok(payload) => DecodedBytes { bytes: payload, decode_failure: false, undecoded: false },
        Err(_) => DecodedBytes { bytes: Vec::new(), decode_failure: true, undecoded: false },
    }
}

/// Decodes `bytes` by the encoding tag: 7-bit content is returned as it is,
/// base64 content is decoded, and content in any other encoding is passed
/// through and marked as not decoded.
pub fn decode(encoding: EncodingType, bytes: &[u8]) -> (content: DecodedBytes)
    ensures
        content@ == decoded(encoding, bytes@),
{
    match encoding {
        EncodingType::SevenBit => DecodedBytes {
            bytes: slice_to_vec(bytes),
            decode_failure: false,
            undecoded: false,
        },
        EncodingType::Base64 => absorb_base64_outcome(base64_mime_decode(bytes)),
        EncodingType::Other => DecodedBytes {
            bytes: slice_to_vec(bytes),
            decode_failure: false,
            undecoded: true,
        },
    }
}

/// The wire form of 7-bit content is the content itself.
pub open spec fn seven_bit_wire(content: Seq<u8>) -> Seq<u8> {
    content
}

/// Decoding 7-bit content and encoding it again gives the wire bytes back,
/// and no decode failure is recorded.
pub proof fn lemma_seven_bit_round_trip(wire: Seq<u8>)
    ensures
        seven_bit_wire(decoded(EncodingType::SevenBit, wire).bytes) == wire,
        !decoded(EncodingType::SevenBit, wire).decode_failure,
        !decoded(EncodingType::SevenBit, wire).undecoded,
{
}

} // verus!
