//! HMAC-SHA256 signing of token bytes, through an outside crate.
//!
//! The tag itself is computed outside and is only named here: it is a
//! function of the message and the secret alone.  Its base64url text is
//! given by the library's own verified encoder, so everything around
//! the bare tag is specified exactly.

use vstd::prelude::*;
use crate::base64url::b64_encode_spec;

verus! {

/// The 32-byte HMAC-SHA256 tag of `message` under `secret`.  Named,
/// not written out: nothing in this library restates the hash.
pub uninterp spec fn hs256_raw(message: Seq<u8>, secret: Seq<u8>) -> Seq<u8>;

/// The signature segment of a token: the unpadded base64url text of
/// the HMAC-SHA256 tag, as ASCII bytes.
pub open spec fn hs256_sig(message: Seq<u8>, secret: Seq<u8>) -> Seq<u8> {
    b64_encode_spec(hs256_raw(message, secret))
}

/// Relies on `jsonwebtoken::crypto::sign` with HS256: it returns the
/// unpadded base64url text of the HMAC-SHA256 tag of the message, and
/// it cannot fail for this algorithm.
#[verifier::external_body]
pub fn hs256_sign(message: &Vec<u8>, secret: &Vec<u8>) -> (r: String)
    ensures
        vstd::utf8::encode_utf8(r@) == b64_encode_spec(hs256_raw(message@, secret@)),
{
    jsonwebtoken::crypto::sign(
        message,
        &jsonwebtoken::EncodingKey::from_secret(secret),
        jsonwebtoken::Algorithm::HS256,
    ).unwrap()
}

/// Relies on `jsonwebtoken::crypto::verify` with HS256: it re-signs
/// the message and compares the given signature text against the
/// recomputed one in constant time.
#[verifier::external_body]
pub fn hs256_check(signature: &Vec<u8>, message: &Vec<u8>, secret: &Vec<u8>) -> (r: bool)
    ensures
        r == (signature@ == b64_encode_spec(hs256_raw(message@, secret@))),
{
    match core::str::from_utf8(signature) {
        Ok(s) => jsonwebtoken::crypto::verify(
            s,
            message,
            &jsonwebtoken::DecodingKey::from_secret(secret),
            jsonwebtoken::Algorithm::HS256,
        ).unwrap_or(false),
        Err(_) => false,
    }
}

} // verus!
