//! File content, as a provider sends it.

use crate::error::VcsError;
use crate::text::same_text;
use vstd::prelude::*;

verus! {

#[verifier::external_type_specification]
#[verifier::external_body]
pub struct ExDecodeError(base64::DecodeError);

/// What `base64`'s `STANDARD` engine decodes a text to; `None` where it refuses the text.
pub uninterp spec fn base64_decoded(data: Seq<char>) -> Option<Seq<u8>>;

/// Calls `decode` of `base64`'s `STANDARD` engine: the standard alphabet, with padding. The result
/// depends on the text alone.
#[verifier::external_body]
pub(crate) fn base64_decode(data: &str) -> (bytes: Result<Vec<u8>, base64::DecodeError>)
    ensures
        match bytes {
            Ok(bytes) => base64_decoded(data@) == Some(bytes@),
            Err(_) => base64_decoded(data@) is None,
        },
{
    base64::Engine::decode(&base64::engine::general_purpose::STANDARD, data)
}

/// Content in some encoding.
#[derive(Clone, Debug, PartialEq, Eq)]
pub struct Content {
    pub encoding: String,
    pub data: String,
}

/// The bytes of content in the given encoding, of which `decoded` is what base64 makes of it.
pub open spec fn bytes_of(encoding: Seq<char>, decoded: Option<Seq<u8>>) -> Result<
    Seq<u8>,
    VcsError,
> {
    if encoding != "base64"@ {
        Err(VcsError::UnsupportedEncoding)
    } else {
        match decoded {
            Some(bytes) => Ok(bytes),
            None => Err(VcsError::InvalidBase64),
        }
    }
}

/// The bytes of some content.
pub open spec fn content_bytes(content: Content) -> Result<Seq<u8>, VcsError> {
    bytes_of(content.encoding@, base64_decoded(content.data@))
}

/// Whether `actual` is the outcome `expected`, its bytes taken by what they are.
pub open spec fn same_bytes(
    actual: Result<Vec<u8>, VcsError>,
    expected: Result<Seq<u8>, VcsError>,
) -> bool {
    match expected {
        Ok(bytes) => actual matches Ok(found) && found@ == bytes,
        Err(error) => actual matches Err(found) && found == error,
    }
}

/// Settles content in the given encoding, of which `decoded` is what base64 makes of it.
pub fn accept_content(encoding: &str, decoded: Option<Vec<u8>>) -> (bytes: Result<
    Vec<u8>,
    VcsError,
>)
    ensures
        same_bytes(
            bytes,
            bytes_of(
                encoding@,
                match decoded {
                    Some(bytes) => Some(bytes@),
                    None => None,
                },
            ),
        ),
{
    if !same_text(encoding, "base64") {
        return Err(VcsError::UnsupportedEncoding);
    }
    match decoded {
        Some(bytes) => Ok(bytes),
        None => Err(VcsError::InvalidBase64),
    }
}

/// Decodes content.
pub fn decode_content(content: &Content) -> (bytes: Result<Vec<u8>, VcsError>)
    ensures
        same_bytes(bytes, content_bytes(*content)),
{
    match base64_decode(&content.data) {
        Ok(bytes) => accept_content(&content.encoding, Some(bytes)),
        Err(_) => accept_content(&content.encoding, None),
    }
}

/// Content has bytes exactly where its encoding is base64 and base64 can read it: those that it
/// reads. In any other encoding it has none, whatever it holds.
pub proof fn law_content_is_base64(content: Content)
    ensures
        content_bytes(content) is Ok <==> content.encoding@ == "base64"@ && base64_decoded(
            content.data@,
        ) is Some,
        content_bytes(content) matches Ok(bytes) ==> base64_decoded(content.data@) == Some(bytes),
        content_bytes(content) matches Err(error) ==> if content.encoding@ == "base64"@ {
            error == VcsError::InvalidBase64
        } else {
            error == VcsError::UnsupportedEncoding
        },
{
}

/// Bytes are the outcome that was expected where they are the same bytes, and an error is where it is
/// the same error.
pub proof fn law_outcomes_are_the_same_bytes_or_error(
    actual: Result<Vec<u8>, VcsError>,
    expected: Result<Seq<u8>, VcsError>,
)
    ensures
        same_bytes(actual, expected) <==> {
            ||| actual is Ok && expected is Ok && actual->Ok_0@ == expected->Ok_0
            ||| actual is Err && expected is Err && actual->Err_0 == expected->Err_0
        },
{
}

} // verus!
