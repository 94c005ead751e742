//! The token codec: signing a claim set into a compact token, and
//! verifying a presented token against a secret and policy constraints.
//!
//! A token is `base64url(header) . base64url(claims-json) . signature`,
//! where the header is fixed, the claims JSON is the canonical text of
//! [`crate::claims`], and the signature is the base64url HMAC-SHA256
//! tag of everything before the second dot.
//!
//! Verification checks, in order and stopping at the first failure:
//! structure and signature (`InvalidToken`), expiry against a caller-
//! supplied clock with leeway (`TokenExpired`), then issuer and
//! audience (`IssuerOrAudienceMismatch`).
//!
//! Two directions are proved about the pair: a freshly issued token
//! verifies under the same secret and a matching policy
//! (`lemma_token_round_trip`), and any token that verifies is, byte
//! for byte, the canonical signed token of the claims it yields
//! (`lemma_verified_token_is_canonical`).

use vstd::prelude::*;
use vstd::slice::slice_subrange;
use vstd::slice::slice_to_vec;
use vstd::string::StrSliceExecFns;
use vstd::utf8::decode_utf8;
use vstd::utf8::encode_utf8;
use vstd::utf8::valid_utf8;
use crate::base64url::b64_decode;
use crate::base64url::b64_decode_spec;
use crate::base64url::b64_encode;
use crate::base64url::b64_encode_spec;
use crate::base64url::is_b64_byte;
use crate::base64url::lemma_b64_encode_charset;
use crate::base64url::lemma_b64_round_trip;
use crate::claims::claims_json;
use crate::claims::claims_to_json;
use crate::claims::lemma_claims_round_trip;
use crate::claims::parse_claims;
use crate::claims::sp_claims;
use crate::claims::Claims;
use crate::claims::ClaimsView;
use crate::crypto::hs256_check;
use crate::crypto::hs256_raw;
use crate::crypto::hs256_sig;
use crate::crypto::hs256_sign;
use crate::errors::MyError;
use crate::strconv::string_from_utf8;

verus! {

broadcast use vstd::utf8::encode_utf8_valid_utf8, vstd::utf8::encode_utf8_decode_utf8, vstd::utf8::decode_utf8_encode_utf8;

/// The fixed token header, as JSON bytes.
pub open spec fn header_bytes() -> Seq<u8> {
    encode_utf8("{\"typ\":\"JWT\",\"alg\":\"HS256\"}"@)
}

/// Everything before the second dot: the signed part of a token.
pub open spec fn signing_input(c: ClaimsView) -> Seq<u8> {
    b64_encode_spec(header_bytes()) + seq![46u8] + b64_encode_spec(claims_json(c))
}

/// The full token, as ASCII bytes.
pub open spec fn token_bytes(c: ClaimsView, secret: Seq<u8>) -> Seq<u8> {
    signing_input(c) + seq![46u8] + hs256_sig(signing_input(c), secret)
}

/// The full token, as text.
pub open spec fn token_chars(c: ClaimsView, secret: Seq<u8>) -> Seq<char> {
    decode_utf8(token_bytes(c, secret))
}

// ---------------------------------------------------------------------
// Locating the dots
// ---------------------------------------------------------------------
/// First position at or after `i` holding byte `x`.
pub open spec fn sp_find(b: Seq<u8>, i: int, x: u8) -> Option<int>
    decreases b.len() - i,
{
    if i < 0 || i >= b.len() {
        None
    } else if b[i] == x {
        Some(i)
    } else {
        sp_find(b, i + 1, x)
    }
}

proof fn lemma_find_hit(b: Seq<u8>, from: int, k: int, x: u8)
    requires
        0 <= from <= k < b.len(),
        b[k] == x,
        forall|j: int| from <= j < k ==> b[j] != x,
    ensures
        sp_find(b, from, x) == Some(k),
    decreases k - from,
{
    if from < k {
        lemma_find_hit(b, from + 1, k, x);
    }
}

proof fn lemma_find_miss(b: Seq<u8>, from: int, x: u8)
    requires
        0 <= from,
        forall|j: int| from <= j < b.len() ==> b[j] != x,
    ensures
        sp_find(b, from, x) is None,
    decreases b.len() - from,
{
    if from < b.len() {
        lemma_find_miss(b, from + 1, x);
    }
}

/// Exec search for a byte.
fn find_byte(b: &Vec<u8>, start: usize, x: u8) -> (r: Option<usize>)
    requires
        start <= b@.len(),
    ensures
        match r {
            Some(d) => sp_find(b@, start as int, x) == Some(d as int) && start <= d < b@.len(),
            None => sp_find(b@, start as int, x) is None,
        },
{
    let mut i: usize = start;
    while i < b.len()
        invariant
            start <= i <= b@.len(),
            sp_find(b@, start as int, x) == sp_find(b@, i as int, x),
        decreases b@.len() - i,
    {
        if b[i] == x {
            return Some(i);
        }
        i = i + 1;
    }
    None
}

// ---------------------------------------------------------------------
// Byte and text comparison helpers
// ---------------------------------------------------------------------
/// Byte-vector equality, decided.
pub fn vec_eq(a: &Vec<u8>, b: &Vec<u8>) -> (r: bool)
    ensures
        r == (a@ == b@),
{
    if a.len() != b.len() {
        return false;
    }
    let mut k: usize = 0;
    while k < a.len()
        invariant
            k <= a@.len(),
            a@.len() == b@.len(),
            forall|t: int| 0 <= t < k ==> a@[t] == b@[t],
        decreases a@.len() - k,
    {
        if a[k] != b[k] {
            return false;
        }
        k = k + 1;
    }
    proof {
        assert(a@ =~= b@);
    }
    true
}

/// String equality, decided through the UTF-8 encodings.
pub fn str_eq(a: &str, b: &str) -> (r: bool)
    ensures
        r == (a@ == b@),
{
    let av = a.as_bytes_vec();
    let bv = b.as_bytes_vec();
    let r = vec_eq(&av, &bv);
    proof {
        if av@ == bv@ {
            assert(decode_utf8(encode_utf8(a@)) == a@);
            assert(decode_utf8(encode_utf8(b@)) == b@);
        }
    }
    r
}

// ---------------------------------------------------------------------
// ASCII facts about token bytes
// ---------------------------------------------------------------------
/// An alphabet byte is ASCII and is not a dot.
proof fn lemma_b64_byte_props(x: u8)
    requires
        is_b64_byte(x),
    ensures
        x < 128,
        x != 46,
{
}

/// A sequence of ASCII bytes is valid UTF-8.
pub proof fn lemma_ascii_valid(s: Seq<u8>)
    requires
        forall|i: int| 0 <= i < s.len() ==> s[i] < 128,
    ensures
        valid_utf8(s),
{
    assert(s.subrange(0, 0) =~= Seq::<u8>::empty());
    assert(vstd::utf8::partial_valid_utf8(s, 0));
    assert forall|i: int|
        0 <= 0 <= i < s.len() <= s.len() implies #[trigger] vstd::utf8::is_leading_byte_width_1(
        s[i],
    ) by {
        assert(s[i] < 128);
    }
    vstd::utf8::partial_valid_utf8_extend_ascii_block(s, 0, s.len() as int);
    assert(s.subrange(0, s.len() as int) =~= s);
}

/// Every byte of a token is ASCII, so a token is valid UTF-8 text.
pub proof fn lemma_token_bytes_ascii(c: ClaimsView, secret: Seq<u8>)
    ensures
        forall|i: int|
            0 <= i < token_bytes(c, secret).len() ==> #[trigger] token_bytes(c, secret)[i] < 128,
        valid_utf8(token_bytes(c, secret)),
        encode_utf8(token_chars(c, secret)) == token_bytes(c, secret),
{
    let tb = token_bytes(c, secret);
    lemma_b64_encode_charset(header_bytes());
    lemma_b64_encode_charset(claims_json(c));
    lemma_b64_encode_charset(hs256_raw(signing_input(c), secret));
    let aa = b64_encode_spec(header_bytes());
    let bb = b64_encode_spec(claims_json(c));
    let ss = hs256_sig(signing_input(c), secret);
    assert forall|i: int| 0 <= i < tb.len() implies #[trigger] tb[i] < 128 by {
        let d1 = aa.len() as int;
        let d2 = d1 + 1 + bb.len() as int;
        if i < d1 {
            assert(tb[i] == aa[i]);
            lemma_b64_byte_props(aa[i]);
        } else if i == d1 {
            assert(tb[i] == 46);
        } else if i < d2 {
            assert(tb[i] == bb[i - d1 - 1]);
            lemma_b64_byte_props(bb[i - d1 - 1]);
        } else if i == d2 {
            assert(tb[i] == 46);
        } else {
            assert(tb[i] == ss[i - d2 - 1]);
            lemma_b64_byte_props(ss[i - d2 - 1]);
        }
    }
    lemma_ascii_valid(tb);
}

// ---------------------------------------------------------------------
// Verification, specification
// ---------------------------------------------------------------------
/// Structural decoding of a token: split at the dots, check the header,
/// check the signature, decode and read the claims.  Any failure is
/// `InvalidToken`.
pub open spec fn decode_token_spec(token: Seq<char>, secret: Seq<u8>) -> Result<
    ClaimsView,
    MyError,
> {
    let b = encode_utf8(token);
    match sp_find(b, 0, 46) {
        None => Err(MyError::InvalidToken),
        Some(d1) => match sp_find(b, d1 + 1, 46) {
            None => Err(MyError::InvalidToken),
            Some(d2) => if sp_find(b, d2 + 1, 46) is Some {
                Err(MyError::InvalidToken)
            } else if b.subrange(0, d1) != b64_encode_spec(header_bytes()) {
                Err(MyError::InvalidToken)
            } else if b.subrange(d2 + 1, b.len() as int) != hs256_sig(b.subrange(0, d2), secret) {
                Err(MyError::InvalidToken)
            } else {
                match b64_decode_spec(b.subrange(d1 + 1, d2)) {
                    None => Err(MyError::InvalidToken),
                    Some(cj) => match sp_claims(cj) {
                        None => Err(MyError::InvalidToken),
                        Some(c) => Ok(c),
                    },
                }
            },
        },
    }
}

/// The semantic checks on a decoded claim set, in order: expiry with
/// leeway against the supplied clock, then issuer, then audience.
pub open spec fn check_claims_spec(
    c: ClaimsView,
    issuer: Seq<char>,
    audience: Seq<char>,
    leeway: int,
    now: int,
) -> Result<ClaimsView, MyError> {
    if c.exp + leeway < now {
        Err(MyError::TokenExpired)
    } else if c.iss != issuer {
        Err(MyError::IssuerOrAudienceMismatch)
    } else if c.aud != audience {
        Err(MyError::IssuerOrAudienceMismatch)
    } else {
        Ok(c)
    }
}

/// Full verification: structure and signature first, then the
/// semantic checks.
pub open spec fn verify_spec(
    token: Seq<char>,
    secret: Seq<u8>,
    issuer: Seq<char>,
    audience: Seq<char>,
    leeway: int,
    now: int,
) -> Result<ClaimsView, MyError> {
    match decode_token_spec(token, secret) {
        Err(e) => Err(e),
        Ok(c) => check_claims_spec(c, issuer, audience, leeway, now),
    }
}

// ---------------------------------------------------------------------
// Executable codec
// ---------------------------------------------------------------------
/// Sign a claim set into a compact token.
pub fn sign_token(c: &Claims, secret: &Vec<u8>) -> (r: String)
    ensures
        encode_utf8(r@) == token_bytes(c@, secret@),
        r@ == token_chars(c@, secret@),
{
    let hb = "{\"typ\":\"JWT\",\"alg\":\"HS256\"}".as_bytes_vec();
    let mut tok = b64_encode(&hb);
    tok.push(46);
    let cj = claims_to_json(c);
    let mut cb64 = b64_encode(&cj);
    tok.append(&mut cb64);
    proof {
        assert(tok@ =~= signing_input(c@));
    }
    let sig = hs256_sign(&tok, secret);
    let mut sigb = sig.as_str().as_bytes_vec();
    tok.push(46);
    tok.append(&mut sigb);
    proof {
        assert(tok@ =~= token_bytes(c@, secret@));
        lemma_token_bytes_ascii(c@, secret@);
    }
    match string_from_utf8(tok) {
        Some(s) => s,
        None => {
            proof {
                assert(false);
            }
            String::new()
        },
    }
}

/// Verify a presented token under a secret, an issuer and audience
/// policy, a clock-skew leeway, and the current time in seconds.
pub fn verify_token(
    token: &str,
    secret: &Vec<u8>,
    issuer: &str,
    audience: &str,
    leeway: i64,
    now: i64,
) -> (r: Result<Claims, MyError>)
    ensures
        match r {
            Ok(c) => verify_spec(token@, secret@, issuer@, audience@, leeway as int, now as int)
                == Ok::<ClaimsView, MyError>(c@),
            Err(e) => verify_spec(token@, secret@, issuer@, audience@, leeway as int, now as int)
                == Err::<ClaimsView, MyError>(e),
        },
{
    let b = token.as_bytes_vec();
    let d1 = match find_byte(&b, 0, 46) {
        Some(d) => d,
        None => {
            return Err(MyError::InvalidToken);
        },
    };
    let d2 = match find_byte(&b, d1 + 1, 46) {
        Some(d) => d,
        None => {
            return Err(MyError::InvalidToken);
        },
    };
    match find_byte(&b, d2 + 1, 46) {
        Some(_) => {
            return Err(MyError::InvalidToken);
        },
        None => {},
    }
    let hseg = slice_to_vec(slice_subrange(b.as_slice(), 0, d1));
    let msg = slice_to_vec(slice_subrange(b.as_slice(), 0, d2));
    let cseg = slice_to_vec(slice_subrange(b.as_slice(), d1 + 1, d2));
    let sig = slice_to_vec(slice_subrange(b.as_slice(), d2 + 1, b.len()));
    let hb = "{\"typ\":\"JWT\",\"alg\":\"HS256\"}".as_bytes_vec();
    let hb64 = b64_encode(&hb);
    if !vec_eq(&hseg, &hb64) {
        return Err(MyError::InvalidToken);
    }
    if !hs256_check(&sig, &msg, secret) {
        return Err(MyError::InvalidToken);
    }
    let cj = match b64_decode(&cseg) {
        Some(v) => v,
        None => {
            return Err(MyError::InvalidToken);
        },
    };
    let c = match parse_claims(&cj) {
        Some(c) => c,
        None => {
            return Err(MyError::InvalidToken);
        },
    };
    if (c.exp as i128) + (leeway as i128) < (now as i128) {
        return Err(MyError::TokenExpired);
    }
    if !str_eq(c.iss.as_str(), issuer) {
        return Err(MyError::IssuerOrAudienceMismatch);
    }
    if !str_eq(c.aud.as_str(), audience) {
        return Err(MyError::IssuerOrAudienceMismatch);
    }
    Ok(c)
}

// ---------------------------------------------------------------------
// Laws
// ---------------------------------------------------------------------
/// Where the dots of a freshly built token lie, and what its segments
/// are.
#[verifier::rlimit(100)]
#[verifier::spinoff_prover]
proof fn lemma_token_structure(c: ClaimsView, secret: Seq<u8>)
    ensures
        ({
            let tb = token_bytes(c, secret);
            let aa = b64_encode_spec(header_bytes());
            let bb = b64_encode_spec(claims_json(c));
            let d1 = aa.len() as int;
            let d2 = d1 + 1 + bb.len() as int;
            &&& sp_find(tb, 0, 46) == Some(d1)
            &&& sp_find(tb, d1 + 1, 46) == Some(d2)
            &&& sp_find(tb, d2 + 1, 46) is None
            &&& tb.subrange(0, d1) == aa
            &&& tb.subrange(0, d2) == signing_input(c)
            &&& tb.subrange(d1 + 1, d2) == bb
            &&& tb.subrange(d2 + 1, tb.len() as int) == hs256_sig(signing_input(c), secret)
            &&& encode_utf8(token_chars(c, secret)) == tb
        }),
{
    let tb = token_bytes(c, secret);
    let aa = b64_encode_spec(header_bytes());
    let bb = b64_encode_spec(claims_json(c));
    let ss = hs256_sig(signing_input(c), secret);
    let d1 = aa.len() as int;
    let d2 = d1 + 1 + bb.len() as int;
    lemma_b64_encode_charset(header_bytes());
    lemma_b64_encode_charset(claims_json(c));
    lemma_b64_encode_charset(hs256_raw(signing_input(c), secret));
    lemma_token_bytes_ascii(c, secret);
    assert forall|j: int| 0 <= j < d1 implies tb[j] != 46 by {
        assert(tb[j] == aa[j]);
        lemma_b64_byte_props(aa[j]);
    }
    assert(tb[d1] == 46);
    assert forall|j: int| d1 + 1 <= j < d2 implies tb[j] != 46 by {
        assert(tb[j] == bb[j - d1 - 1]);
        lemma_b64_byte_props(bb[j - d1 - 1]);
    }
    assert(tb[d2] == 46);
    assert forall|j: int| d2 + 1 <= j < tb.len() implies tb[j] != 46 by {
        assert(tb[j] == ss[j - d2 - 1]);
        lemma_b64_byte_props(ss[j - d2 - 1]);
    }
    lemma_find_hit(tb, 0, d1, 46);
    lemma_find_hit(tb, d1 + 1, d2, 46);
    lemma_find_miss(tb, d2 + 1, 46);
    assert(tb.subrange(0, d1) =~= aa);
    assert(tb.subrange(0, d2) =~= signing_input(c));
    assert(tb.subrange(d1 + 1, d2) =~= bb);
    assert(tb.subrange(d2 + 1, tb.len() as int) =~= ss);
}

/// Structural decoding of a freshly built token returns its claim set.
#[verifier::rlimit(100)]
#[verifier::spinoff_prover]
pub proof fn lemma_decode_canonical(c: ClaimsView, secret: Seq<u8>)
    requires
        -0x8000_0000_0000_0000 <= c.iat <= 0x7fff_ffff_ffff_ffff,
        -0x8000_0000_0000_0000 <= c.exp <= 0x7fff_ffff_ffff_ffff,
    ensures
        decode_token_spec(token_chars(c, secret), secret) == Ok::<ClaimsView, MyError>(c),
{
    lemma_token_structure(c, secret);
    lemma_b64_round_trip(claims_json(c));
    lemma_claims_round_trip(c);
}

/// Round trip: a token issued from a claim set verifies under the same
/// secret and a policy its claims match, when checked no later than
/// its expiry plus the leeway.
pub proof fn lemma_token_round_trip(c: ClaimsView, secret: Seq<u8>, leeway: int, now: int)
    requires
        -0x8000_0000_0000_0000 <= c.iat <= 0x7fff_ffff_ffff_ffff,
        -0x8000_0000_0000_0000 <= c.exp <= 0x7fff_ffff_ffff_ffff,
        now <= c.exp + leeway,
    ensures
        verify_spec(token_chars(c, secret), secret, c.iss, c.aud, leeway, now) == Ok::<
            ClaimsView,
            MyError,
        >(c),
{
    lemma_decode_canonical(c, secret);
}

/// A token whose expiry lies more than the leeway in the past fails
/// with `TokenExpired`, whatever issuer and audience are expected.
pub proof fn lemma_expired_token(
    c: ClaimsView,
    secret: Seq<u8>,
    issuer: Seq<char>,
    audience: Seq<char>,
    leeway: int,
    now: int,
)
    requires
        -0x8000_0000_0000_0000 <= c.iat <= 0x7fff_ffff_ffff_ffff,
        -0x8000_0000_0000_0000 <= c.exp <= 0x7fff_ffff_ffff_ffff,
        now > c.exp + leeway,
    ensures
        verify_spec(token_chars(c, secret), secret, issuer, audience, leeway, now) == Err::<
            ClaimsView,
            MyError,
        >(MyError::TokenExpired),
{
    lemma_decode_canonical(c, secret);
}

/// A found position holds the byte searched for.
proof fn lemma_find_props(b: Seq<u8>, i: int, x: u8)
    requires
        sp_find(b, i, x) is Some,
    ensures
        i <= sp_find(b, i, x)->Some_0 < b.len(),
        b[sp_find(b, i, x)->Some_0] == x,
    decreases b.len() - i,
{
    if b[i] != x {
        lemma_find_props(b, i + 1, x);
    }
}

/// Strictness of decoding: any token that structurally decodes is,
/// byte for byte, the canonical signed token of the claims it yields.
#[verifier::rlimit(100)]
#[verifier::spinoff_prover]
pub proof fn lemma_decode_strict(token: Seq<char>, secret: Seq<u8>)
    requires
        decode_token_spec(token, secret) is Ok,
    ensures
        encode_utf8(token) == token_bytes(decode_token_spec(token, secret)->Ok_0, secret),
        token == token_chars(decode_token_spec(token, secret)->Ok_0, secret),
{
    let c = decode_token_spec(token, secret)->Ok_0;
    let b = encode_utf8(token);
    let d1 = sp_find(b, 0, 46)->Some_0;
    let d2 = sp_find(b, d1 + 1, 46)->Some_0;
    lemma_find_props(b, 0, 46);
    lemma_find_props(b, d1 + 1, 46);
    let hseg = b.subrange(0, d1);
    let cseg = b.subrange(d1 + 1, d2);
    let sig = b.subrange(d2 + 1, b.len() as int);
    let cj = b64_decode_spec(cseg)->Some_0;
    crate::base64url::lemma_b64_decode_sound(cseg);
    crate::claims::lemma_claims_sound(cj);
    assert(cj == claims_json(c));
    assert(b.subrange(0, d2) =~= hseg + seq![46u8] + cseg);
    assert(b.subrange(0, d2) == signing_input(c));
    assert(sig == hs256_sig(signing_input(c), secret));
    assert(b =~= b.subrange(0, d2) + seq![46u8] + sig);
    assert(b == token_bytes(c, secret));
    assert(decode_utf8(encode_utf8(token)) == token);
}

/// What verifies is canonical: a token accepted under a secret and a
/// policy is exactly the token the issuer builds for the returned
/// claims, and those claims match the expected issuer and audience
/// and are not yet expired.
pub proof fn lemma_verified_token_is_canonical(
    token: Seq<char>,
    secret: Seq<u8>,
    issuer: Seq<char>,
    audience: Seq<char>,
    leeway: int,
    now: int,
)
    requires
        verify_spec(token, secret, issuer, audience, leeway, now) is Ok,
    ensures
        ({
            let c = verify_spec(token, secret, issuer, audience, leeway, now)->Ok_0;
            &&& token == token_chars(c, secret)
            &&& encode_utf8(token) == token_bytes(c, secret)
            &&& c.iss == issuer
            &&& c.aud == audience
            &&& now <= c.exp + leeway
        }),
{
    lemma_decode_strict(token, secret);
}

/// Any token that decodes at all, whatever its origin, is rejected
/// with `TokenExpired` when its expiry lies more than the leeway
/// before the clock reading: the expiry check comes before issuer and
/// audience.
pub proof fn lemma_decoded_token_expiry(
    token: Seq<char>,
    secret: Seq<u8>,
    issuer: Seq<char>,
    audience: Seq<char>,
    leeway: int,
    now: int,
)
    requires
        decode_token_spec(token, secret) is Ok,
        now > decode_token_spec(token, secret)->Ok_0.exp + leeway,
    ensures
        verify_spec(token, secret, issuer, audience, leeway, now) == Err::<ClaimsView, MyError>(
            MyError::TokenExpired,
        ),
{
}

/// Two different byte sequences have different encodings.
proof fn lemma_b64_injective(x: Seq<u8>, y: Seq<u8>)
    requires
        x != y,
    ensures
        b64_encode_spec(x) != b64_encode_spec(y),
{
    if b64_encode_spec(x) == b64_encode_spec(y) {
        lemma_b64_round_trip(x);
        lemma_b64_round_trip(y);
    }
}

/// A token signed under one secret fails verification under another
/// with `InvalidToken`, whatever the claims hold and whatever the
/// clock says: the signature check comes before every semantic check.
/// The one excluded case is a collision of the two tags.
#[verifier::rlimit(100)]
#[verifier::spinoff_prover]
pub proof fn lemma_wrong_secret(
    c: ClaimsView,
    secret_used: Seq<u8>,
    secret_checked: Seq<u8>,
    issuer: Seq<char>,
    audience: Seq<char>,
    leeway: int,
    now: int,
)
    requires
        hs256_raw(signing_input(c), secret_used) != hs256_raw(signing_input(c), secret_checked),
    ensures
        verify_spec(token_chars(c, secret_used), secret_checked, issuer, audience, leeway, now)
            == Err::<ClaimsView, MyError>(MyError::InvalidToken),
{
    lemma_token_structure(c, secret_used);
    lemma_b64_injective(
        hs256_raw(signing_input(c), secret_used),
        hs256_raw(signing_input(c), secret_checked),
    );
}

} // verus!
