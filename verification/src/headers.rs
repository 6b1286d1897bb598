//! Headers of a response.
use reqwest::header::{HeaderMap, HeaderValue, ToStrError};
use vstd::prelude::*;

verus! {

/// The headers of a response.
#[verifier::external_type_specification]
#[verifier::external_body]
#[verifier::reject_recursive_types(T)]
pub struct ExHeaderMap<T>(reqwest::header::HeaderMap<T>);

/// The value of one header.
#[verifier::external_type_specification]
#[verifier::external_body]
pub struct ExHeaderValue(reqwest::header::HeaderValue);

/// What is reported of a header value that is not text.
#[verifier::external_type_specification]
#[verifier::external_body]
pub struct ExToStrError(reqwest::header::ToStrError);

/// What a header map holds: each text under which it can be asked for a header, with the bytes of
/// the first value of that header. One header can be asked for in upper and in lower case letters.
pub uninterp spec fn first_values(headers: HeaderMap<HeaderValue>) -> Map<Seq<char>, Seq<u8>>;

/// The bytes of a header value.
pub uninterp spec fn header_bytes(value: HeaderValue) -> Seq<u8>;

/// Whether a byte is a visible ASCII character, a space or a tab.
pub open spec fn is_visible(byte: u8) -> bool {
    32 <= byte < 127 || byte == 9
}

/// Whether `bytes` are all visible ASCII.
pub open spec fn all_visible(bytes: Seq<u8>) -> bool {
    forall|i: int| 0 <= i < bytes.len() ==> is_visible(#[trigger] bytes[i])
}

/// Visible ASCII bytes as characters.
pub open spec fn ascii_text(bytes: Seq<u8>) -> Seq<char> {
    bytes.map_values(|byte: u8| byte as char)
}

/// Calls `HeaderMap::get`. Trusted: it finds a value exactly where the map holds one under `name`,
/// and then the first one.
#[verifier::external_body]
pub(crate) fn get_header<'a>(headers: &'a HeaderMap<HeaderValue>, name: &str) -> (value: Option<
    &'a HeaderValue,
>)
    ensures
        match value {
            Some(found) => {
                &&& first_values(*headers).contains_key(name@)
                &&& first_values(*headers)[name@] == header_bytes(*found)
            },
            None => !first_values(*headers).contains_key(name@),
        },
{
    headers.get(name)
}

/// What `HeaderValue::to_str` reports of bytes that are not text.
pub uninterp spec fn to_str_error(bytes: Seq<u8>) -> ToStrError;

/// Calls `HeaderValue::to_str`. Trusted: it succeeds exactly where all bytes are visible ASCII, and
/// then gives them as characters. Of other bytes it reports an error that depends on them alone.
#[verifier::external_body]
pub(crate) fn header_text(value: &HeaderValue) -> (text: Result<&str, ToStrError>)
    ensures
        match text {
            Ok(shown) => all_visible(header_bytes(*value)) && shown@ == ascii_text(
                header_bytes(*value),
            ),
            Err(error) => !all_visible(header_bytes(*value)) && error == to_str_error(
                header_bytes(*value),
            ),
        },
{
    value.to_str()
}

/// Bytes are visible exactly where each is a printable ASCII character, a space or a tab, and as text
/// they are the characters of the same numbers.
pub proof fn law_visible_bytes_are_their_characters(bytes: Seq<u8>)
    ensures
        all_visible(bytes) <==> forall|i: int|
            0 <= i < bytes.len() ==> (32 <= #[trigger] bytes[i] <= 126 || bytes[i] == 9),
        ascii_text(bytes).len() == bytes.len(),
        forall|i: int|
            0 <= i < bytes.len() ==> (#[trigger] ascii_text(bytes)[i]) as int == bytes[i] as int,
{
    if all_visible(bytes) {
        assert forall|i: int| 0 <= i < bytes.len() implies (32 <= #[trigger] bytes[i] <= 126
            || bytes[i] == 9) by {
            assert(is_visible(bytes[i]));
        }
    }
}

} // verus!
