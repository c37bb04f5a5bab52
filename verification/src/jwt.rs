//! The envelope of a JWT, and the payload inside.
use vstd::prelude::*;

use crate::json::{
    error_text, json_document, json_error_is_io, json_error_text, parse_json, JsonModel, JsonValue,
};
use crate::text::{dot_pieces, dotted, law_split_undoes_join, split_dots, texts};

verus! {

/// Why a token cannot be read.
#[derive(Debug)]
pub enum IdTokenInfoError {
    InvalidFormat,
    Base64(base64::DecodeError),
    Json(serde_json::Error),
}

/// The decoding error of the `base64` crate.
#[verifier::external_type_specification]
#[verifier::external_body]
pub struct ExDecodeError(base64::DecodeError);

/// The message of a decoding error of the `base64` crate.
pub uninterp spec fn base64_error_text(error: base64::DecodeError) -> Seq<char>;

/// Calls `to_string` of a decoding error, which gives its message.
#[verifier::external_body]
fn decoding_complaint(err: &base64::DecodeError) -> (text: String)
    ensures
        text@ == base64_error_text(*err),
{
    err.to_string()
}

impl IdTokenInfoError {
    /// The error's message. An error that wraps another passes on what that one says. Nothing is
    /// said of the words of a JSON error that comes from an I/O stream: those are the system's.
    pub fn message(&self) -> (message: String)
        ensures
            match self {
                IdTokenInfoError::InvalidFormat => message@ == "invalid ID token format"@,
                IdTokenInfoError::Base64(err) => message@ == base64_error_text(*err),
                IdTokenInfoError::Json(err) => !json_error_is_io(*err) ==> message@
                    == json_error_text(*err),
            },
    {
        match self {
            IdTokenInfoError::InvalidFormat => "invalid ID token format".to_owned(),
            IdTokenInfoError::Base64(err) => decoding_complaint(err),
            IdTokenInfoError::Json(err) => error_text(err),
        }
    }
}

impl vstd::std_specs::convert::FromSpecImpl<base64::DecodeError> for IdTokenInfoError {
    open spec fn obeys_from_spec() -> bool {
        true
    }

    open spec fn from_spec(err: base64::DecodeError) -> IdTokenInfoError {
        IdTokenInfoError::Base64(err)
    }
}

impl From<base64::DecodeError> for IdTokenInfoError {
    fn from(err: base64::DecodeError) -> (error: IdTokenInfoError) {
        IdTokenInfoError::Base64(err)
    }
}

impl vstd::std_specs::convert::FromSpecImpl<serde_json::Error> for IdTokenInfoError {
    open spec fn obeys_from_spec() -> bool {
        true
    }

    open spec fn from_spec(err: serde_json::Error) -> IdTokenInfoError {
        IdTokenInfoError::Json(err)
    }
}

impl From<serde_json::Error> for IdTokenInfoError {
    fn from(err: serde_json::Error) -> (error: IdTokenInfoError) {
        IdTokenInfoError::Json(err)
    }
}

/// What the `base64` crate decodes a text to with its URL-safe alphabet and without padding.
pub uninterp spec fn base64url_decoded(text: Seq<char>) -> Result<Seq<u8>, base64::DecodeError>;

/// Calls `base64::Engine::decode` of the engine `URL_SAFE_NO_PAD`. The bytes, or the error, depend
/// on the text alone.
#[verifier::external_body]
fn decode_base64url(text: &str) -> (decoded: Result<Vec<u8>, base64::DecodeError>)
    ensures
        match decoded {
            Ok(bytes) => base64url_decoded(text@) matches Ok(model) && bytes@ == model,
            Err(err) => base64url_decoded(text@) matches Err(error) && err == error,
        },
{
    base64::Engine::decode(&base64::engine::general_purpose::URL_SAFE_NO_PAD, text)
}

/// The payload part of a JWT, `header.payload.signature`: there are at least three parts, and none
/// of the first three is empty.
pub open spec fn payload_part(jwt: Seq<char>) -> Option<Seq<char>> {
    let parts = dot_pieces(jwt);
    if parts.len() >= 3 && parts[0].len() > 0 && parts[1].len() > 0 && parts[2].len() > 0 {
        Some(parts[1])
    } else {
        None
    }
}

/// The bytes of a JWT's payload, or why there are none.
pub open spec fn payload_bytes(jwt: Seq<char>) -> Result<Seq<u8>, IdTokenInfoError> {
    match payload_part(jwt) {
        None => Err(IdTokenInfoError::InvalidFormat),
        Some(part) => match base64url_decoded(part) {
            Ok(bytes) => Ok(bytes),
            Err(err) => Err(IdTokenInfoError::Base64(err)),
        },
    }
}

/// Reads the bytes of a JWT's payload.
pub fn jwt_payload(jwt: &str) -> (payload: Result<Vec<u8>, IdTokenInfoError>)
    ensures
        match payload {
            Ok(bytes) => payload_bytes(jwt@) matches Ok(model) && bytes@ == model,
            Err(err) => payload_bytes(jwt@) matches Err(error) && err == error,
        },
{
    let parts = split_dots(jwt);
    proof {
        assert(parts@.len() == texts(parts@).len());
        assert forall|i: int| 0 <= i < parts@.len() implies (#[trigger] parts@[i])@ == dot_pieces(
            jwt@,
        )[i] by {
            assert(texts(parts@)[i] == parts@[i]@);
        }
    }
    if parts.len() < 3 || parts[0].as_str().is_empty() || parts[1].as_str().is_empty()
        || parts[2].as_str().is_empty() {
        return Err(IdTokenInfoError::InvalidFormat);
    }
    match decode_base64url(parts[1].as_str()) {
        Ok(bytes) => Ok(bytes),
        Err(err) => Err(IdTokenInfoError::from(err)),
    }
}

/// An outcome of decoding, as the outcome of reading a token.
pub open spec fn lifted<T>(decoded: Result<T, serde_json::Error>) -> Result<T, IdTokenInfoError> {
    match decoded {
        Ok(value) => Ok(value),
        Err(err) => Err(IdTokenInfoError::Json(err)),
    }
}

/// `result` is what reading a JWT comes to when `decode` turns its payload into a value: an error
/// in the envelope, or else whatever `decode` gave for the payload's bytes.
pub open spec fn read_with<T, F: Fn(&[u8]) -> Result<T, serde_json::Error>>(
    jwt: Seq<char>,
    decode: F,
    result: Result<T, IdTokenInfoError>,
) -> bool {
    match payload_bytes(jwt) {
        Err(err) => result == Err::<T, IdTokenInfoError>(err),
        Ok(bytes) => exists|input: &[u8], decoded: Result<T, serde_json::Error>|
            input@ == bytes && #[trigger] call_ensures(decode, (input,), decoded) && result
                == lifted(decoded),
    }
}

/// Reads a JWT's payload, and turns its bytes into a value with `decode`.
pub fn decode_jwt_payload<T, F: Fn(&[u8]) -> Result<T, serde_json::Error>>(
    jwt: &str,
    decode: F,
) -> (result: Result<T, IdTokenInfoError>)
    requires
        forall|input: &[u8]| #[trigger] call_requires(decode, (input,)),
    ensures
        read_with(jwt@, decode, result),
{
    match jwt_payload(jwt) {
        Ok(bytes) => match decode(bytes.as_slice()) {
            Ok(value) => Ok(value),
            Err(err) => Err(IdTokenInfoError::from(err)),
        },
        Err(err) => Err(err),
    }
}

/// The JSON value in a JWT's payload, or why there is none.
pub open spec fn payload_json(jwt: Seq<char>) -> Result<JsonModel, IdTokenInfoError> {
    match payload_bytes(jwt) {
        Err(err) => Err(err),
        Ok(bytes) => match json_document(bytes) {
            Ok(value) => Ok(value),
            Err(err) => Err(IdTokenInfoError::Json(err)),
        },
    }
}

/// Reads the JSON value in a JWT's payload.
pub fn jwt_json_payload(jwt: &str) -> (payload: Result<JsonValue, IdTokenInfoError>)
    ensures
        match payload {
            Ok(value) => payload_json(jwt@) matches Ok(model) && value@ == model
                && model.well_formed(),
            Err(err) => payload_json(jwt@) matches Err(error) && err == error && (
            err matches IdTokenInfoError::Json(inner) ==> !json_error_is_io(inner)),
        },
{
    match jwt_payload(jwt) {
        Ok(bytes) => match parse_json(bytes.as_slice()) {
            Ok(value) => Ok(value),
            Err(err) => Err(IdTokenInfoError::from(err)),
        },
        Err(err) => Err(err),
    }
}

/// The payload of a token made of a header, a payload and a signature, none of them empty and none
/// with a dot, is what was put in the middle, whatever the header and the signature are. More
/// parts after the signature change nothing.
pub proof fn law_payload_is_the_middle_part(parts: Seq<Seq<char>>)
    requires
        parts.len() >= 3,
        forall|i: int| 0 <= i < parts.len() ==> !(#[trigger] parts[i]).contains('.'),
        forall|i: int| 0 <= i < 3 ==> (#[trigger] parts[i]).len() > 0,
    ensures
        payload_part(dotted(parts)) == Some(parts[1]),
{
    law_split_undoes_join(parts);
}

/// Tokens with the same payload part carry the same payload.
pub proof fn law_payload_depends_on_its_part_alone(a: Seq<char>, b: Seq<char>)
    requires
        payload_part(a) == payload_part(b),
    ensures
        payload_bytes(a) == payload_bytes(b),
        payload_json(a) == payload_json(b),
{
}

/// Whether a token has a payload depends on its first three parts alone: there must be three, none
/// of them empty, and the payload is the second.
pub proof fn law_three_full_parts_make_a_payload(jwt: Seq<char>)
    ensures
        payload_part(jwt) is Some <==> dot_pieces(jwt).len() >= 3 && forall|i: int|
            0 <= i < 3 ==> (#[trigger] dot_pieces(jwt)[i]).len() > 0,
        payload_part(jwt) matches Some(part) ==> part == dot_pieces(jwt)[1],
{
    let parts = dot_pieces(jwt);
    if parts.len() >= 3 && forall|i: int| 0 <= i < 3 ==> (#[trigger] parts[i]).len() > 0 {
        assert(parts[0].len() > 0 && parts[1].len() > 0 && parts[2].len() > 0);
    }
}

/// A token without a payload is refused for its format, and one whose payload is no base64url with
/// the decoder's error; else the payload is what the part decodes to.
pub proof fn law_payload_is_what_its_part_decodes_to(jwt: Seq<char>)
    ensures
        payload_part(jwt) is None ==> payload_bytes(jwt) == Err::<Seq<u8>, IdTokenInfoError>(
            IdTokenInfoError::InvalidFormat,
        ),
        payload_part(jwt) matches Some(part) ==> match base64url_decoded(part) {
            Ok(bytes) => payload_bytes(jwt) == Ok::<Seq<u8>, IdTokenInfoError>(bytes),
            Err(err) => payload_bytes(jwt) == Err::<Seq<u8>, IdTokenInfoError>(
                IdTokenInfoError::Base64(err),
            ),
        },
{
}

/// The JSON value of a token is what its payload parses to. What is wrong with the payload is wrong
/// with the value, and a payload that does not parse is refused with the parser's error.
pub proof fn law_json_is_what_the_payload_parses_to(jwt: Seq<char>)
    ensures
        match payload_bytes(jwt) {
            Err(err) => payload_json(jwt) == Err::<JsonModel, IdTokenInfoError>(err),
            Ok(bytes) => match json_document(bytes) {
                Ok(value) => payload_json(jwt) == Ok::<JsonModel, IdTokenInfoError>(value),
                Err(err) => payload_json(jwt) == Err::<JsonModel, IdTokenInfoError>(
                    IdTokenInfoError::Json(err),
                ),
            },
        },
{
}

/// Reading a token hands the bytes of its payload to `decode` and passes on what comes back, an
/// error as a JSON error. A token without such bytes is refused as its payload is.
pub proof fn law_reading_passes_the_payload_on<T, F: Fn(&[u8]) -> Result<T, serde_json::Error>>(
    jwt: Seq<char>,
    decode: F,
    result: Result<T, IdTokenInfoError>,
)
    requires
        read_with(jwt, decode, result),
    ensures
        match payload_bytes(jwt) {
            Err(err) => result == Err::<T, IdTokenInfoError>(err),
            Ok(bytes) => exists|input: &[u8], decoded: Result<T, serde_json::Error>|
                {
                    &&& input@ == bytes
                    &&& #[trigger] call_ensures(decode, (input,), decoded)
                    &&& match decoded {
                        Ok(value) => result == Ok::<T, IdTokenInfoError>(value),
                        Err(err) => result == Err::<T, IdTokenInfoError>(
                            IdTokenInfoError::Json(err),
                        ),
                    }
                },
        },
{
}

} // verus!
