//! The authentication gate: the per-request decision that admits or
//! rejects an inbound request from its `Authorization` header.
//!
//! The order of checks: a missing header is a bad request; a header
//! without the `Bearer ` prefix is a bad request; then the token is
//! verified by the codec; then the subject is parsed as an identity
//! and resolved against the credential store.  A subject that does not
//! resolve is rejected as unauthorized, never as not-found, so user
//! existence cannot be probed.

use vstd::prelude::*;
use vstd::string::StrSliceExecFns;
use crate::codec::str_eq;
use crate::codec::verify_spec;
use crate::codec::verify_token;
use crate::errors::MyError;
use crate::ident::parse_uuid;
use crate::ident::uuid_val;
use crate::policy::TokenPolicy;
use crate::store::spec_user_by_id;
use crate::store::CredentialStore;
use crate::store::UserRecord;

verus! {

/// True when the header text is `Bearer ` followed by a token.
pub open spec fn has_bearer_prefix(h: Seq<char>) -> bool {
    h.len() >= 7 && h.subrange(0, 7) == "Bearer "@
}

/// The view of an optional header value.
pub open spec fn header_view(h: Option<&String>) -> Option<Seq<char>> {
    match h {
        Some(s) => Some(s@),
        None => None,
    }
}

/// The admission decision over the store contents and the header.
pub open spec fn gate_decision(
    users: Seq<UserRecord>,
    header: Option<Seq<char>>,
    secret: Seq<u8>,
    issuer: Seq<char>,
    audience: Seq<char>,
    leeway: int,
    now: int,
) -> Result<u128, MyError> {
    match header {
        None => Err(MyError::MissingHeader),
        Some(h) => if !has_bearer_prefix(h) {
            Err(MyError::InvalidHeader)
        } else {
            match verify_spec(h.skip(7), secret, issuer, audience, leeway, now) {
                Err(e) => Err(e),
                Ok(c) => match uuid_val(c.sub) {
                    None => Err(MyError::InvalidToken),
                    Some(uid) => match spec_user_by_id(users, uid) {
                        None => Err(MyError::UserNotFound),
                        Some(u) => Ok(uid),
                    },
                },
            }
        },
    }
}

/// Admit or reject one request, given its `Authorization` header, the
/// shared policy, the store, and the current time.  On success the
/// admitted subject's identity is returned.
pub fn validate_jwt(
    auth_header: Option<&String>,
    store: &CredentialStore,
    policy: &TokenPolicy,
    now: i64,
) -> (r: Result<u128, MyError>)
    ensures
        match r {
            Ok(uid) => gate_decision(
                store.users@,
                header_view(auth_header),
                policy.secret@,
                policy.issuer@,
                policy.audience@,
                policy.leeway as int,
                now as int,
            ) == Ok::<u128, MyError>(uid),
            Err(e) => gate_decision(
                store.users@,
                header_view(auth_header),
                policy.secret@,
                policy.issuer@,
                policy.audience@,
                policy.leeway as int,
                now as int,
            ) == Err::<u128, MyError>(e),
        },
{
    let h = match auth_header {
        Some(h) => h,
        None => {
            return Err(MyError::MissingHeader);
        },
    };
    let n = h.as_str().unicode_len();
    if n < 7 {
        return Err(MyError::InvalidHeader);
    }
    let prefix = h.as_str().substring_char(0, 7);
    if !str_eq(prefix, "Bearer ") {
        return Err(MyError::InvalidHeader);
    }
    let token = h.as_str().substring_char(7, n);
    proof {
        assert(token@ =~= h@.skip(7));
    }
    let c = match verify_token(
        token,
        &policy.secret,
        policy.issuer.as_str(),
        policy.audience.as_str(),
        policy.leeway,
        now,
    ) {
        Ok(c) => c,
        Err(e) => {
            return Err(e);
        },
    };
    let uid = match parse_uuid(c.sub.as_str()) {
        Some(u) => u,
        None => {
            return Err(MyError::InvalidToken);
        },
    };
    match store.find_user_by_id(uid) {
        Some(_) => Ok(uid),
        None => Err(MyError::UserNotFound),
    }
}

/// The outcome of a store lookup performed outside the library, for
/// deployments whose store can fail.
pub enum LookupOutcome {
    Found(UserRecord),
    NotFound,
    Failed,
}

/// The decision on an outside lookup's outcome: a found user is
/// admitted; an absent user is rejected as unauthorized (existence is
/// not leaked); a store fault is an internal error.
pub fn admit_subject(outcome: LookupOutcome) -> (r: Result<u128, MyError>)
    ensures
        match outcome {
            LookupOutcome::Found(u) => r == Ok::<u128, MyError>(u.id),
            LookupOutcome::NotFound => r == Err::<u128, MyError>(MyError::UserNotFound),
            LookupOutcome::Failed => r == Err::<u128, MyError>(MyError::StoreFailure),
        },
{
    match outcome {
        LookupOutcome::Found(u) => Ok(u.id),
        LookupOutcome::NotFound => Err(MyError::UserNotFound),
        LookupOutcome::Failed => Err(MyError::StoreFailure),
    }
}

} // verus!
