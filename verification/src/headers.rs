//! Detection on an `http::HeaderMap`: looking the field up and decoding its
//! bytes are outside calls, taken on trust with named results; the decision
//! itself is the verified value predicate of `utils`.

use vstd::prelude::*;

use crate::utils::transfer_encoding_value_is_chunked;
use crate::utils::value_is_chunked;

verus! {

#[verifier::external_type_specification]
#[verifier::external_body]
#[verifier::reject_recursive_types(T)]
pub struct ExHeaderMap<T>(http::HeaderMap<T>);

#[verifier::external_type_specification]
#[verifier::external_body]
pub struct ExHeaderValue(http::HeaderValue);

/// The bytes of the first `Transfer-Encoding` value the map holds, if any.
pub uninterp spec fn transfer_encoding_bytes(headers: http::HeaderMap<http::HeaderValue>) -> Option<
    Seq<u8>,
>;

/// The characters `b` decodes to as UTF-8, or nothing when `b` is not valid
/// UTF-8.
pub uninterp spec fn utf8_chars(b: Seq<u8>) -> Option<Seq<char>>;

/// Whether the header collection designates chunked transfer-coding: the
/// `Transfer-Encoding` field is present, its bytes decode as UTF-8, and the
/// decoded value satisfies the value predicate. An absent field or bytes
/// that are not valid text count as not chunked, never as an error.
pub open spec fn headers_designate_chunked(headers: http::HeaderMap<http::HeaderValue>) -> bool {
    match transfer_encoding_bytes(headers) {
        Option::None => false,
        Option::Some(b) => match utf8_chars(b) {
            Option::None => false,
            Option::Some(cs) => value_is_chunked(cs),
        },
    }
}

/// Relies on `http::HeaderMap::get` with the `Transfer-Encoding` name, which
/// returns the first value stored under that field or nothing, and on
/// `http::HeaderValue::as_bytes`, which hands the held value out as plain
/// bytes.
#[verifier::external_body]
fn lookup_transfer_encoding(headers: &http::HeaderMap<http::HeaderValue>) -> (r: Option<Vec<u8>>)
    ensures
        match r {
            Option::Some(v) => transfer_encoding_bytes(*headers) == Option::Some(v@),
            Option::None => transfer_encoding_bytes(*headers) is None,
        },
{
    headers.get(http::header::TRANSFER_ENCODING).map(|value| value.as_bytes().to_vec())
}

/// Relies on `core::str::from_utf8`: it succeeds exactly on valid UTF-8, and
/// the decoded characters are a function of the bytes alone.
#[verifier::external_body]
fn decode_utf8(bytes: &Vec<u8>) -> (r: Option<String>)
    ensures
        match r {
            Option::Some(s) => utf8_chars(bytes@) == Option::Some(s@),
            Option::None => utf8_chars(bytes@) is None,
        },
{
    match core::str::from_utf8(bytes) {
        Ok(s) => Some(s.to_string()),
        Err(_) => None,
    }
}

/// Whether the `Transfer-Encoding` header of the collection designates
/// chunked coding. Absent headers and non-UTF-8 header bytes give `false`.
pub fn transfer_encoding_is_chunked(headers: &http::HeaderMap<http::HeaderValue>) -> (r: bool)
    ensures
        r == headers_designate_chunked(*headers),
{
    match lookup_transfer_encoding(headers) {
        Option::Some(bytes) => match decode_utf8(&bytes) {
            Option::Some(value) => transfer_encoding_value_is_chunked(value.as_str()),
            Option::None => false,
        },
        Option::None => false,
    }
}

} // verus!
