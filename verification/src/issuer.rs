//! The token issuer: building access and refresh tokens from a user
//! identity and the configured policy.
//!
//! Access tokens are short-lived and carry a textual projection of the
//! user as an opaque data payload; refresh tokens are longer-lived,
//! carry no payload, and come with an envelope for persistence so they
//! can be revoked later.

use vstd::prelude::*;
use vstd::string::StringExecFns;
use crate::claims::Claims;
use crate::claims::ClaimsView;
use crate::codec::sign_token;
use crate::codec::token_chars;
use crate::errors::MyError;
use crate::ident::format_uuid;
use crate::ident::uuid_text;
use crate::policy::TokenPolicy;
use crate::store::UserRecord;

verus! {

/// The refresh-token envelope handed back to the caller for
/// persistence and for the client.
#[derive(Debug)]
pub struct RefreshTokenDTO {
    pub refresh_token: String,
    pub issued_at: i64,
    pub expires_at: i64,
    pub jwt_iss: String,
    pub jwt_aud: String,
    pub revoked: bool,
}

/// The opaque data payload of an access token: a textual projection
/// of the user without the password digest.
pub open spec fn user_data_text(u: UserRecord) -> Seq<char> {
    "{\"id\":\""@ + uuid_text(u.id) + "\",\"username\":\""@ + u.username@ + "\",\"email\":\""@
        + u.email@ + "\"}"@
}

/// The claim set of an access token issued to `u` at `now`.
pub open spec fn access_claims(u: UserRecord, p: TokenPolicy, now: int) -> ClaimsView {
    ClaimsView {
        sub: uuid_text(u.id),
        iat: now,
        exp: now + p.access_lifetime,
        iss: p.issuer@,
        aud: p.audience@,
        data: Some(user_data_text(u)),
    }
}

/// The claim set of a refresh token issued for `user_id` at `now`.
pub open spec fn refresh_claims(user_id: u128, p: TokenPolicy, now: int) -> ClaimsView {
    ClaimsView {
        sub: uuid_text(user_id),
        iat: now,
        exp: now + p.refresh_lifetime,
        iss: p.issuer@,
        aud: p.audience@,
        data: None,
    }
}

/// Issue an access token: subject is the user id, lifetime is the
/// policy's access lifetime, the payload is the user projection.
pub fn create_access_token(user: &UserRecord, policy: &TokenPolicy, now: i64) -> (r: Result<
    String,
    MyError,
>)
    requires
        policy.wf(),
        now + policy.access_lifetime <= 0x7fff_ffff_ffff_ffff,
    ensures
        r matches Ok(t) && t@ == token_chars(
            access_claims(*user, *policy, now as int),
            policy.secret@,
        ),
{
    let sub = format_uuid(user.id);
    let mut data = String::new();
    data.append("{\"id\":\"");
    let idtext = format_uuid(user.id);
    data.append(idtext.as_str());
    data.append("\",\"username\":\"");
    data.append(user.username.as_str());
    data.append("\",\"email\":\"");
    data.append(user.email.as_str());
    data.append("\"}");
    proof {
        assert(data@ =~= user_data_text(*user));
    }
    let claims = Claims {
        sub,
        iat: now,
        exp: now + policy.access_lifetime,
        iss: policy.issuer.clone(),
        aud: policy.audience.clone(),
        data: Some(data),
    };
    proof {
        assert(claims@ == access_claims(*user, *policy, now as int));
    }
    Ok(sign_token(&claims, &policy.secret))
}

/// Issue a refresh token together with its persistence envelope.
pub fn create_refresh_token(user_id: u128, policy: &TokenPolicy, now: i64) -> (r: Result<
    RefreshTokenDTO,
    MyError,
>)
    requires
        policy.wf(),
        now + policy.refresh_lifetime <= 0x7fff_ffff_ffff_ffff,
    ensures
        r matches Ok(dto) && {
            &&& dto.refresh_token@ == token_chars(
                refresh_claims(user_id, *policy, now as int),
                policy.secret@,
            )
            &&& dto.issued_at == now
            &&& dto.expires_at == now + policy.refresh_lifetime
            &&& dto.jwt_iss@ == policy.issuer@
            &&& dto.jwt_aud@ == policy.audience@
            &&& dto.revoked == false
        },
{
    let sub = format_uuid(user_id);
    let claims = Claims {
        sub,
        iat: now,
        exp: now + policy.refresh_lifetime,
        iss: policy.issuer.clone(),
        aud: policy.audience.clone(),
        data: None,
    };
    proof {
        assert(claims@ == refresh_claims(user_id, *policy, now as int));
    }
    let token = sign_token(&claims, &policy.secret);
    Ok(
        RefreshTokenDTO {
            refresh_token: token,
            issued_at: now,
            expires_at: now + policy.refresh_lifetime,
            jwt_iss: policy.issuer.clone(),
            jwt_aud: policy.audience.clone(),
            revoked: false,
        },
    )
}

} // verus!
