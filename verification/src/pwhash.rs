//! Password hashing as a capability: hash a plaintext to a digest,
//! check a plaintext against a digest.  The algorithm lives outside;
//! only the acceptance relation is named.

use vstd::prelude::*;

verus! {

/// Whether checking `password` against `digest` succeeds.  Named: the
/// outcome depends on the two texts alone (the salt is part of the
/// digest).
pub uninterp spec fn bcrypt_accepts(password: Seq<char>, digest: Seq<char>) -> bool;

/// Relies on `bcrypt::verify`: it re-hashes the password with the
/// salt and cost taken from the digest and compares; a malformed
/// digest is simply not accepted.
#[verifier::external_body]
pub fn verify_password(password: &str, digest: &str) -> (r: bool)
    ensures
        r == bcrypt_accepts(password@, digest@),
{
    bcrypt::verify(password, digest).unwrap_or(false)
}

/// Relies on `bcrypt::hash`: it fails only for a cost outside 4..=31,
/// and any digest it returns is one `bcrypt::verify` accepts for the
/// hashed password, whichever salt was drawn.
#[verifier::external_body]
pub fn hash_password(password: &str, cost: u32) -> (r: Option<String>)
    ensures
        r matches Some(d) ==> bcrypt_accepts(password@, d@),
        4 <= cost <= 31 ==> r is Some,
{
    bcrypt::hash(password, cost).ok()
}

} // verus!
