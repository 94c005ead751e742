//! Tests of the service flows: registration, login, request
//! admission, and refresh rotation with replay rejection.

use auth_core::errors::MyError;
use auth_core::gate::admit_subject;
use auth_core::gate::validate_jwt;
use auth_core::gate::LookupOutcome;
use auth_core::policy::TokenPolicy;
use auth_core::service::AuthService;
use auth_core::service::UserService;
use auth_core::store::CredentialStore;

fn policy() -> TokenPolicy {
    TokenPolicy {
        issuer: String::from("app"),
        audience: String::from("app-users"),
        secret: b"SECRET-REDACTED".to_vec(),
        access_lifetime: 3600,
        refresh_lifetime: 43200,
        leeway: 60,
    }
}

fn service_with_user(now: i64) -> (AuthService, u128) {
    let mut svc = AuthService::new(CredentialStore::new(), policy(), 4).unwrap();
    let uid = svc.register("alice", "alice@example.com", "open sesame").unwrap();
    let _ = now;
    (svc, uid)
}

#[test]
fn register_then_login_succeeds() {
    let now: i64 = 1_700_000_000;
    let (mut svc, uid) = service_with_user(now);
    let out = svc.login("alice@example.com", "open sesame", now).unwrap();
    assert_eq!(out.user.id, uid);
    assert_eq!(out.user.username, "alice");
    assert_eq!(out.user.email, "alice@example.com");
    assert!(!out.refresh_token.revoked);
    assert_eq!(out.refresh_token.issued_at, now);
    assert_eq!(out.refresh_token.expires_at, now + 43200);
    // the refresh record was persisted, unrevoked
    assert_eq!(svc.store.refresh_records.len(), 1);
    assert!(!svc.store.refresh_records[0].revoked);
}

#[test]
fn login_rejects_wrong_password_and_unknown_email() {
    let now: i64 = 1_700_000_000;
    let (mut svc, _) = service_with_user(now);
    let r = svc.login("alice@example.com", "not the password", now);
    assert_eq!(r.unwrap_err(), MyError::InvalidCredentials);
    let r2 = svc.login("bob@example.com", "open sesame", now);
    assert_eq!(r2.unwrap_err(), MyError::UserNotFound);
}

#[test]
fn register_rejects_taken_email() {
    let now: i64 = 1_700_000_000;
    let (mut svc, _) = service_with_user(now);
    let r = svc.register("alice2", "alice@example.com", "other password");
    assert_eq!(r.unwrap_err(), MyError::StoreFailure);
}

#[test]
fn login_then_refresh_rotates_and_revokes() {
    let now: i64 = 1_700_000_000;
    let (mut svc, _) = service_with_user(now);
    let out = svc.login("alice@example.com", "open sesame", now).unwrap();
    assert!(!out.refresh_token.revoked);
    let refresh = out.refresh_token.refresh_token.clone();
    // rotation succeeds and returns a usable access token
    let new_access = svc.refresh_access_token(&refresh, now + 10).unwrap();
    let header = format!("Bearer {}", new_access);
    let admitted = validate_jwt(Some(&header), &svc.store, &policy(), now + 11);
    assert!(admitted.is_ok());
    // the consumed envelope is now revoked in the store
    assert_eq!(svc.store.refresh_records.len(), 1);
    assert!(svc.store.refresh_records[0].revoked);
}

#[test]
fn replayed_refresh_token_is_rejected() {
    let now: i64 = 1_700_000_000;
    let (mut svc, _) = service_with_user(now);
    let out = svc.login("alice@example.com", "open sesame", now).unwrap();
    let refresh = out.refresh_token.refresh_token.clone();
    assert!(svc.refresh_access_token(&refresh, now + 10).is_ok());
    // presenting the same token again must fail
    let replay = svc.refresh_access_token(&refresh, now + 20);
    assert_eq!(replay.unwrap_err(), MyError::InvalidToken);
}

#[test]
fn refresh_with_garbage_token_is_rejected() {
    let now: i64 = 1_700_000_000;
    let (mut svc, _) = service_with_user(now);
    let r = svc.refresh_access_token("not a token", now);
    assert_eq!(r.unwrap_err(), MyError::InvalidToken);
}

#[test]
fn gate_rejects_missing_and_malformed_headers() {
    let now: i64 = 1_700_000_000;
    let (svc, _) = service_with_user(now);
    let r = validate_jwt(None, &svc.store, &policy(), now);
    assert_eq!(r.unwrap_err(), MyError::MissingHeader);
    assert_eq!(MyError::MissingHeader.status_code(), 400);
    let basic = String::from("Basic dXNlcjpwYXNz");
    let r2 = validate_jwt(Some(&basic), &svc.store, &policy(), now);
    assert_eq!(r2.unwrap_err(), MyError::InvalidHeader);
    assert_eq!(MyError::InvalidHeader.status_code(), 400);
}

#[test]
fn gate_rejects_expired_token() {
    let now: i64 = 1_700_000_000;
    let (mut svc, _) = service_with_user(now);
    let out = svc.login("alice@example.com", "open sesame", now).unwrap();
    let header = format!("Bearer {}", out.access_token);
    // one hour of lifetime plus sixty seconds of leeway, then one more
    let r = validate_jwt(Some(&header), &svc.store, &policy(), now + 3661);
    assert_eq!(r.unwrap_err(), MyError::TokenExpired);
    assert_eq!(MyError::TokenExpired.status_code(), 401);
}

#[test]
fn gate_admits_valid_token_then_rejects_after_user_deletion() {
    let now: i64 = 1_700_000_000;
    let (mut svc, uid) = service_with_user(now);
    let out = svc.login("alice@example.com", "open sesame", now).unwrap();
    let header = format!("Bearer {}", out.access_token);
    let admitted = validate_jwt(Some(&header), &svc.store, &policy(), now + 1).unwrap();
    assert_eq!(admitted, uid);
    // delete the user, then the same token no longer resolves
    let mut users = UserService::new(svc.store);
    assert!(users.get_user(uid).is_some());
    users.delete_user(uid).unwrap();
    assert!(users.get_user(uid).is_none());
    assert_eq!(users.store.refresh_records.len(), 0);
    let r = validate_jwt(Some(&header), &users.store, &policy(), now + 1);
    assert_eq!(r.unwrap_err(), MyError::UserNotFound);
    assert_eq!(MyError::UserNotFound.status_code(), 401);
}

#[test]
fn lookup_outcomes_map_to_the_taxonomy() {
    assert_eq!(admit_subject(LookupOutcome::NotFound).unwrap_err(), MyError::UserNotFound);
    let failed = admit_subject(LookupOutcome::Failed).unwrap_err();
    assert_eq!(failed, MyError::StoreFailure);
    assert_eq!(failed.status_code(), 500);
    assert_eq!(MyError::EncodingFailure.status_code(), 500);
    assert_eq!(MyError::InvalidCredentials.status_code(), 400);
    assert_eq!(MyError::StoreFailure.message(), "Internal Server Error");
}
