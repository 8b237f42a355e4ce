//! Base64, in the two forms that travel between the parties.
use base64::engine::general_purpose::{STANDARD, URL_SAFE_NO_PAD};
use base64::Engine;
use vstd::prelude::*;

verus! {

/// The reason why `base64` refuses a text.
#[verifier::external_type_specification]
#[verifier::external_body]
pub struct ExDecodeError(base64::DecodeError);

/// What the `STANDARD` engine encodes bytes as.
pub uninterp spec fn standard(data: Seq<u8>) -> Seq<char>;

/// What the `STANDARD` engine decodes a text to, where it accepts it.
pub uninterp spec fn standard_decoded(s: Seq<char>) -> Option<Seq<u8>>;

/// What the `URL_SAFE_NO_PAD` engine encodes bytes as.
pub uninterp spec fn url_safe(data: Seq<u8>) -> Seq<char>;

/// The characters of URL-safe Base64.
pub open spec fn is_url_safe(c: char) -> bool {
    'A' <= c <= 'Z' || 'a' <= c <= 'z' || '0' <= c <= '9' || c == '-' || c == '_'
}

/// `Engine::encode` of `STANDARD`: four characters for every three bytes begun,
/// from which `Engine::decode` of the same engine gives the bytes back.
#[verifier::external_body]
pub(crate) fn standard_encode(data: &[u8]) -> (r: String)
    requires
        data@.len() <= 0x1_0000,
    ensures
        r@ == standard(data@),
        r@.len() == (data@.len() + 2) / 3 * 4,
        standard_decoded(r@) == Some(data@),
{
    STANDARD.encode(data)
}

/// `Engine::decode` of `STANDARD`.
#[verifier::external_body]
pub(crate) fn standard_decode(s: &str) -> (r: Result<Vec<u8>, base64::DecodeError>)
    ensures
        match r {
            Ok(b) => standard_decoded(s@) == Some(b@),
            Err(_) => standard_decoded(s@) is None,
        },
{
    STANDARD.decode(s)
}

/// `Engine::encode` of `URL_SAFE_NO_PAD`: eight bits for every six-bit character,
/// rounded up, and none but URL-safe characters.
#[verifier::external_body]
pub(crate) fn url_safe_encode(data: &[u8]) -> (r: String)
    requires
        data@.len() <= 0x1_0000,
    ensures
        r@ == url_safe(data@),
        r@.len() == (data@.len() * 8 + 5) / 6,
        forall|i: int| 0 <= i < r@.len() ==> is_url_safe(#[trigger] r@[i]),
{
    URL_SAFE_NO_PAD.encode(data)
}

/// The characters of URL-safe Base64 are letters, digits, the hyphen and the underscore:
/// those by which nothing in an address is parted.
pub proof fn law_url_safe_characters(c: char)
    ensures
        is_url_safe(c) <==> 65 <= c as int <= 90 || 97 <= c as int <= 122 || 48 <= c as int <= 57
            || c as int == 45 || c as int == 95,
{
}

} // verus!
