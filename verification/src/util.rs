//! Text in and out of base64, and the tidying of a line of input.

use base64::Engine;
use vstd::prelude::*;
use vstd::utf8::{decode_utf8, valid_utf8};

verus! {

/// `DecodeError` of the `base64` crate, carried through as it comes: nothing
/// is claimed of what it holds.
#[verifier::external_type_specification]
#[verifier::external_body]
pub struct ExDecodeError(base64::DecodeError);

/// `FromUtf8Error` of the standard library, carried through as it comes:
/// nothing is claimed of what it holds.
#[verifier::external_type_specification]
#[verifier::external_body]
pub struct ExFromUtf8Error(std::string::FromUtf8Error);

/// The standard base64 text, with padding, of the UTF-8 bytes of `text`.
pub uninterp spec fn base64_text(text: Seq<char>) -> Seq<char>;

/// The bytes that `text` stands for in standard base64 with padding, or
/// `None` where `text` is not such an encoding.
pub uninterp spec fn base64_bytes(text: Seq<char>) -> Option<Seq<u8>>;

/// `line` without the white space at its two ends.
pub uninterp spec fn trimmed(line: Seq<char>) -> Seq<char>;

/// `String::from_utf8` of the standard library: the bytes become a string
/// exactly when they are valid UTF-8, and the string is then their decoding.
pub assume_specification[ String::from_utf8 ](vec: Vec<u8>) -> (text: Result<
    String,
    std::string::FromUtf8Error,
>)
    ensures
        match text {
            Ok(s) => valid_utf8(vec@) && s@ == decode_utf8(vec@),
            Err(_) => !valid_utf8(vec@),
        },
;

/// Calls `Engine::encode` of the `base64` crate on its standard engine. The
/// contract claims only that the text returned is a function of the
/// characters handed in. A string slice never holds more than `isize::MAX`
/// bytes, so the length of the encoding, which the engine computes first,
/// always fits.
#[verifier::external_body]
fn standard_encode(b: &str) -> (encoded: String)
    ensures
        encoded@ == base64_text(b@),
{
    base64::prelude::BASE64_STANDARD.encode(b)
}

/// Calls `Engine::decode` of the `base64` crate on its standard engine. The
/// contract claims only that whether the call succeeds, and with which
/// bytes, is a function of the characters handed in.
#[verifier::external_body]
fn standard_decode(s: &str) -> (decoded: Result<Vec<u8>, base64::DecodeError>)
    ensures
        match decoded {
            Ok(bytes) => base64_bytes(s@) == Some(bytes@),
            Err(_) => base64_bytes(s@) is None,
        },
{
    base64::prelude::BASE64_STANDARD.decode(s)
}

/// Calls `str::trim` of the standard library and copies the slice it
/// returns. The contract claims only that the outcome is a function of the
/// characters handed in.
#[verifier::external_body]
fn trim(line: &str) -> (kept: String)
    ensures
        kept@ == trimmed(line@),
{
    line.trim().to_owned()
}

/// Why a text could not be decoded.
#[derive(Debug)]
pub enum TextError {
    /// The text is not base64.
    Base64(base64::DecodeError),
    /// The bytes it stands for are not UTF-8.
    Utf8(std::string::FromUtf8Error),
}

/// Encodes the input in base64.
pub fn encode(b: &str) -> (encoded: String)
    ensures
        encoded@ == base64_text(b@),
{
    standard_encode(b)
}

/// Reads bytes as UTF-8 text.
pub fn text_from_utf8(bytes: Vec<u8>) -> (text: Result<String, TextError>)
    ensures
        match text {
            Ok(s) => valid_utf8(bytes@) && s@ == decode_utf8(bytes@),
            Err(TextError::Utf8(_)) => !valid_utf8(bytes@),
            Err(TextError::Base64(_)) => false,
        },
{
    match String::from_utf8(bytes) {
        Ok(s) => Ok(s),
        Err(e) => Err(TextError::Utf8(e)),
    }
}

/// Decodes the input from base64 to the text it stands for.
pub fn decode(s: &str) -> (text: Result<String, TextError>)
    ensures
        match text {
            Ok(t) => base64_bytes(s@) matches Some(bytes) && valid_utf8(bytes) && t@
                == decode_utf8(bytes),
            Err(TextError::Base64(_)) => base64_bytes(s@) is None,
            Err(TextError::Utf8(_)) => base64_bytes(s@) matches Some(bytes) && !valid_utf8(bytes),
        },
{
    match standard_decode(s) {
        Ok(bytes) => text_from_utf8(bytes),
        Err(e) => Err(TextError::Base64(e)),
    }
}

/// Tidies a line as it was read: white space at its two ends goes.
pub fn trim_line(line: &str) -> (kept: String)
    ensures
        kept@ == trimmed(line@),
{
    trim(line)
}

} // verus!
