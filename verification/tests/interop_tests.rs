//! Tokens minted by the library are ordinary signed JWTs: the outside
//! crate that provides the HMAC primitive accepts them whole, with the
//! same claims, under its own full validation.

use auth_core::claims::Claims;
use auth_core::codec::sign_token;
use auth_core::codec::verify_token;

fn secret() -> Vec<u8> {
    b"SECRET-REDACTED".to_vec()
}

#[test]
fn minted_token_passes_outside_validation() {
    let c = Claims {
        sub: String::from("11111111-1111-1111-1111-111111111111"),
        iat: 1_700_000_000,
        exp: 9_999_999_999,
        iss: String::from("app"),
        aud: String::from("app-users"),
        data: None,
    };
    let token = sign_token(&c, &secret());
    let mut validation = jsonwebtoken::Validation::new(jsonwebtoken::Algorithm::HS256);
    validation.set_issuer(&["app"]);
    validation.set_audience(&["app-users"]);
    validation.leeway = 60;
    let decoded = jsonwebtoken::decode::<serde_json::Value>(
        &token,
        &jsonwebtoken::DecodingKey::from_secret(&secret()),
        &validation,
    )
    .expect("the outside crate accepts the token");
    assert_eq!(decoded.claims["sub"], "11111111-1111-1111-1111-111111111111");
    assert_eq!(decoded.claims["iat"], 1_700_000_000i64);
    assert_eq!(decoded.claims["exp"], 9_999_999_999i64);
    assert_eq!(decoded.claims["iss"], "app");
    assert_eq!(decoded.claims["aud"], "app-users");
    assert!(decoded.claims["data"].is_null());
}

#[test]
fn outside_minted_token_fails_under_wrong_secret_here() {
    // a token signed outside with one key is rejected here under another
    let header = jsonwebtoken::Header::default();
    let claims: serde_json::Value = serde_json::from_str(
        "{\"sub\":\"s\",\"iat\":1,\"exp\":9999999999,\"iss\":\"app\",\"aud\":\"app-users\",\"data\":null}",
    )
    .unwrap();
    let token = jsonwebtoken::encode(
        &header,
        &claims,
        &jsonwebtoken::EncodingKey::from_secret(b"some other key"),
    )
    .unwrap();
    let r = verify_token(&token, &secret(), "app", "app-users", 60, 2);
    assert!(r.is_err());
}
