//! The refresh-rotation protocol: validate a presented refresh token,
//! consume it, and mint a new access token.
//!
//! Rotation is single-use: a successful rotation revokes every stored
//! record carrying the consumed token text, so presenting the same
//! token again is rejected (`lemma_rotation_rejects_replay`).

use vstd::prelude::*;
use crate::codec::verify_spec;
use crate::codec::verify_token;
use crate::codec::token_chars;
use crate::errors::MyError;
use crate::ident::parse_uuid;
use crate::ident::uuid_val;
use crate::issuer::access_claims;
use crate::issuer::create_access_token;
use crate::policy::TokenPolicy;
use crate::store::spec_has_active_token;
use crate::store::spec_revoke_token;
use crate::store::spec_user_by_id;
use crate::store::CredentialStore;
use crate::store::RefreshRecord;
use crate::store::UserRecord;

verus! {

/// The decision rotation takes, over the store contents: verify the
/// token, resolve its subject, and demand an active stored record for
/// exactly this token text.
pub open spec fn rotate_decision(
    users: Seq<UserRecord>,
    recs: Seq<RefreshRecord>,
    token: Seq<char>,
    secret: Seq<u8>,
    issuer: Seq<char>,
    audience: Seq<char>,
    leeway: int,
    now: int,
) -> Result<UserRecord, MyError> {
    match verify_spec(token, secret, issuer, audience, leeway, now) {
        Err(e) => Err(e),
        Ok(c) => match uuid_val(c.sub) {
            None => Err(MyError::InvalidToken),
            Some(uid) => match spec_user_by_id(users, uid) {
                None => Err(MyError::UserNotFound),
                Some(u) => if !spec_has_active_token(recs, token) {
                    Err(MyError::InvalidToken)
                } else {
                    Ok(u)
                },
            },
        },
    }
}

/// Validate, rotate, and re-issue: on success the consumed token is
/// revoked in the store and a fresh access token for the resolved
/// user is returned; on failure the store is untouched.
pub fn refresh_access_token_util(
    refresh_token: &str,
    store: &mut CredentialStore,
    policy: &TokenPolicy,
    now: i64,
) -> (r: Result<String, MyError>)
    requires
        policy.wf(),
        now + policy.access_lifetime <= 0x7fff_ffff_ffff_ffff,
    ensures
        final(store).users == old(store).users,
        old(store).wf() ==> final(store).wf(),
        match r {
            Ok(t) => {
                &&& rotate_decision(
                    old(store).users@,
                    old(store).refresh_records@,
                    refresh_token@,
                    policy.secret@,
                    policy.issuer@,
                    policy.audience@,
                    policy.leeway as int,
                    now as int,
                ) matches Ok(u) && t@ == token_chars(
                    access_claims(u, *policy, now as int),
                    policy.secret@,
                )
                &&& final(store).refresh_records@ == spec_revoke_token(
                    old(store).refresh_records@,
                    refresh_token@,
                )
            },
            Err(e) => rotate_decision(
                old(store).users@,
                old(store).refresh_records@,
                refresh_token@,
                policy.secret@,
                policy.issuer@,
                policy.audience@,
                policy.leeway as int,
                now as int,
            ) == Err::<UserRecord, MyError>(e) && *final(store) == *old(store),
        },
{
    let c = match verify_token(
        refresh_token,
        &policy.secret,
        policy.issuer.as_str(),
        policy.audience.as_str(),
        policy.leeway,
        now,
    ) {
        Ok(c) => c,
        Err(e) => {
            return Err(e);
        },
    };
    let uid = match parse_uuid(c.sub.as_str()) {
        Some(u) => u,
        None => {
            return Err(MyError::InvalidToken);
        },
    };
    let user = match store.find_user_by_id(uid) {
        Some(u) => u,
        None => {
            return Err(MyError::UserNotFound);
        },
    };
    if !store.has_active_token(refresh_token) {
        return Err(MyError::InvalidToken);
    }
    store.revoke_token(refresh_token);
    create_access_token(&user, policy, now)
}

/// Replay is rejected: once a rotation has consumed a token and the
/// matching records are revoked, no rotation presenting the same token
/// text can succeed again, at any later time.
pub proof fn lemma_rotation_rejects_replay(
    users: Seq<UserRecord>,
    recs: Seq<RefreshRecord>,
    token: Seq<char>,
    secret: Seq<u8>,
    issuer: Seq<char>,
    audience: Seq<char>,
    leeway: int,
    now1: int,
    now2: int,
)
    requires
        rotate_decision(users, recs, token, secret, issuer, audience, leeway, now1) is Ok,
    ensures
        !(rotate_decision(
            users,
            spec_revoke_token(recs, token),
            token,
            secret,
            issuer,
            audience,
            leeway,
            now2,
        ) is Ok),
{
    let revoked = spec_revoke_token(recs, token);
    assert(!spec_has_active_token(revoked, token)) by {
        assert forall|i: int|
            0 <= i < revoked.len() implies !(#[trigger] revoked[i].token@ == token
            && !revoked[i].revoked) by {
            if recs[i].token@ == token {
                assert(revoked[i].revoked);
            } else {
                assert(revoked[i] == recs[i]);
            }
        }
    }
}

} // verus!
