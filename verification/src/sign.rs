//! Signatures of webhook bodies, and base64.

use vstd::prelude::*;
use vstd::string::*;
use vstd::utf8;

verus! {

/// The HMAC-SHA256 of a message under a key.
pub uninterp spec fn hmac_sha256(key: Seq<u8>, message: Seq<u8>) -> Seq<u8>;

/// The bytes that a base64 text stands for.
pub uninterp spec fn base64_bytes(s: Seq<char>) -> Option<Seq<u8>>;

/// The base64 text of bytes.
pub uninterp spec fn base64_text(b: Seq<u8>) -> Seq<char>;

/// `hmac::Hmac` over `sha2::Sha256`: the code of a message under a key. A key of
/// any length is accepted, so there always is one.
#[verifier::external_body]
fn compute_hmac(key: &[u8], message: &[u8]) -> (r: Option<Vec<u8>>)
    ensures
        match r {
            Some(m) => m@ == hmac_sha256(key@, message@),
            None => false,
        },
{
    match <hmac::Hmac<sha2::Sha256> as hmac::KeyInit>::new_from_slice(key) {
        Ok(mut mac) => {
            hmac::Mac::update(&mut mac, message);
            Some(hmac::Mac::finalize(mac).into_bytes().to_vec())
        },
        Err(_) => None,
    }
}

/// `base64::Engine::decode` of the standard alphabet with padding; none where
/// the text is not base64.
#[verifier::external_body]
fn decode_base64(s: &str) -> (r: Option<Vec<u8>>)
    ensures
        match r {
            Some(b) => base64_bytes(s@) == Some(b@),
            None => base64_bytes(s@) is None,
        },
{
    base64::Engine::decode(&base64::engine::general_purpose::STANDARD, s).ok()
}

/// `base64::Engine::encode` of the standard alphabet with padding: a text that
/// is decoded to the same bytes.
#[verifier::external_body]
pub(crate) fn encode_base64(b: &[u8]) -> (r: String)
    ensures
        r@ == base64_text(b@),
        base64_bytes(r@) == Some(b@),
{
    base64::Engine::encode(&base64::engine::general_purpose::STANDARD, b)
}

/// `subtle::ConstantTimeEq::ct_eq` of two slices of bytes: whether they are the
/// same.
#[verifier::external_body]
fn same_bytes(a: &[u8], b: &[u8]) -> (r: bool)
    ensures
        r == (a@ == b@),
{
    subtle::ConstantTimeEq::ct_eq(a, b).into()
}

/// A signature is the base64 text of the code of the body under the secret.
pub open spec fn signs(secret: Seq<char>, body: Seq<u8>, signature: Seq<char>) -> bool {
    base64_bytes(signature) == Some(hmac_sha256(utf8::encode_utf8(secret), body))
}

/// Whether `signature` is the base64 text of `HMAC-SHA256(secret, body)`. The
/// comparison takes the same time wherever the codes differ.
pub fn verify_signature(secret: &str, body: &[u8], signature: &str) -> (r: bool)
    ensures
        r == signs(secret@, body@, signature@),
{
    let computed: Vec<u8> = match compute_hmac(secret.as_bytes(), body) {
        Some(m) => m,
        None => {
            return false;
        },
    };
    match decode_base64(signature) {
        Some(provided) => same_bytes(&computed, &provided),
        None => false,
    }
}

/// A signature that is good for two bodies is so only where both have the same
/// code: a body that was tampered with needs another signature.
pub proof fn signature_fixes_the_code(
    secret: Seq<char>,
    a: Seq<u8>,
    b: Seq<u8>,
    signature: Seq<char>,
)
    requires
        signs(secret, a, signature),
    ensures
        signs(secret, b, signature) <==> hmac_sha256(utf8::encode_utf8(secret), b) == hmac_sha256(
            utf8::encode_utf8(secret),
            a,
        ),
{
}

/// A body is accepted with the code that the secret gives it, and with no other.
pub proof fn only_the_code_of_the_body_is_accepted(
    secret: Seq<char>,
    body: Seq<u8>,
    signature: Seq<char>,
    code: Seq<u8>,
)
    requires
        base64_bytes(signature) == Some(code),
    ensures
        signs(secret, body, signature) <==> code == hmac_sha256(utf8::encode_utf8(secret), body),
{
}

/// A signature that is not base64 is refused.
pub proof fn unreadable_signature_is_refused(
    secret: Seq<char>,
    body: Seq<u8>,
    signature: Seq<char>,
)
    requires
        base64_bytes(signature) is None,
    ensures
        !signs(secret, body, signature),
{
}

} // verus!
