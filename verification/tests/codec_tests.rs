//! Tests of the token codec: round trips, expiry, and signatures.

use auth_core::claims::Claims;
use auth_core::codec::sign_token;
use auth_core::codec::verify_token;
use auth_core::errors::MyError;
use auth_core::issuer::create_access_token;
use auth_core::policy::TokenPolicy;
use auth_core::store::UserRecord;

fn secret() -> Vec<u8> {
    b"SECRET-REDACTED".to_vec()
}

fn sample_claims(iat: i64, exp: i64) -> Claims {
    Claims {
        sub: String::from("7f000001-0000-4000-8000-000000000001"),
        iat,
        exp,
        iss: String::from("app"),
        aud: String::from("app-users"),
        data: None,
    }
}

#[test]
fn token_round_trip() {
    let c = sample_claims(1_700_000_000, 1_700_003_600);
    let token = sign_token(&c, &secret());
    let back = verify_token(&token, &secret(), "app", "app-users", 60, 1_700_000_001).unwrap();
    assert_eq!(back.sub, c.sub);
    assert_eq!(back.iat, c.iat);
    assert_eq!(back.exp, c.exp);
    assert_eq!(back.iss, c.iss);
    assert_eq!(back.aud, c.aud);
}

#[test]
fn token_shape_is_compact() {
    let c = sample_claims(1_700_000_000, 1_700_003_600);
    let token = sign_token(&c, &secret());
    let parts: Vec<&str> = token.split('.').collect();
    assert_eq!(parts.len(), 3);
    // fixed header, HS256
    assert_eq!(parts[0], "eyJ0eXAiOiJKV1QiLCJhbGciOiJIUzI1NiJ9");
    // an HMAC-SHA256 tag is 32 bytes: 43 base64url characters
    assert_eq!(parts[2].len(), 43);
}

#[test]
fn expired_beyond_leeway_is_rejected() {
    let c = sample_claims(1_700_000_000, 1_700_000_100);
    let token = sign_token(&c, &secret());
    // 61 seconds past expiry with a 60 second leeway
    let r = verify_token(&token, &secret(), "app", "app-users", 60, 1_700_000_161);
    assert_eq!(r.unwrap_err(), MyError::TokenExpired);
    // 60 seconds past expiry is still tolerated
    assert!(verify_token(&token, &secret(), "app", "app-users", 60, 1_700_000_160).is_ok());
}

#[test]
fn wrong_secret_is_invalid_before_everything_else() {
    // even an expired token under the wrong secret reports InvalidToken
    let c = sample_claims(1_000, 2_000);
    let token = sign_token(&c, &secret());
    let r = verify_token(&token, &b"another-key".to_vec(), "app", "app-users", 0, 1_000_000);
    assert_eq!(r.unwrap_err(), MyError::InvalidToken);
}

#[test]
fn tampered_signature_is_rejected() {
    let c = sample_claims(1_700_000_000, 1_700_003_600);
    let token = sign_token(&c, &secret());
    let mut t = token.into_bytes();
    let last = *t.last().unwrap();
    let n = t.len();
    t[n - 1] = if last == b'A' { b'B' } else { b'A' };
    let tampered = String::from_utf8(t).unwrap();
    let r = verify_token(&tampered, &secret(), "app", "app-users", 60, 1_700_000_001);
    assert_eq!(r.unwrap_err(), MyError::InvalidToken);
}

#[test]
fn issuer_and_audience_must_match() {
    let c = sample_claims(1_700_000_000, 1_700_003_600);
    let token = sign_token(&c, &secret());
    let r = verify_token(&token, &secret(), "other", "app-users", 60, 1_700_000_001);
    assert_eq!(r.unwrap_err(), MyError::IssuerOrAudienceMismatch);
    let r2 = verify_token(&token, &secret(), "app", "other-users", 60, 1_700_000_001);
    assert_eq!(r2.unwrap_err(), MyError::IssuerOrAudienceMismatch);
}

#[test]
fn garbage_is_invalid() {
    for t in ["", "abc", "a.b", "a.b.c", "....", "Bearer x"] {
        let r = verify_token(t, &secret(), "app", "app-users", 60, 0);
        assert_eq!(r.unwrap_err(), MyError::InvalidToken);
    }
}

#[test]
fn issued_access_token_verifies_and_names_the_user() {
    // issue for a fixed identity, lifetime 3600 seconds
    let user = UserRecord {
        id: 0x11111111_1111_1111_1111_111111111111u128,
        username: String::from("alice"),
        email: String::from("alice@example.com"),
        password_digest: String::from("unused"),
    };
    let policy = TokenPolicy {
        issuer: String::from("app"),
        audience: String::from("app-users"),
        secret: secret(),
        access_lifetime: 3600,
        refresh_lifetime: 43200,
        leeway: 0,
    };
    let t0: i64 = 1_700_000_000;
    let token = create_access_token(&user, &policy, t0).unwrap();
    // one second later: success, and the subject is the user id
    let claims = verify_token(&token, &secret(), "app", "app-users", 0, t0 + 1).unwrap();
    assert_eq!(claims.sub, "11111111-1111-1111-1111-111111111111");
    // after 3601 simulated seconds: expired
    let r = verify_token(&token, &secret(), "app", "app-users", 0, t0 + 3601);
    assert_eq!(r.unwrap_err(), MyError::TokenExpired);
}
