//! The claim set carried by a signed token, and its canonical JSON form.
//!
//! A claim set is written as one fixed-shape JSON object,
//! `{"sub":...,"iat":...,"exp":...,"iss":...,"aud":...,"data":...}`,
//! with no whitespace and with the canonical text forms of
//! [`crate::jsontext`].  The reader and writer are exact inverses:
//! reading back a written claim set returns the same claim set
//! (`lemma_claims_round_trip`), and whatever the reader accepts is the
//! canonical text of what it returns (`lemma_claims_sound`).

use vstd::prelude::*;
use vstd::utf8::decode_utf8;
use vstd::utf8::encode_utf8;
use vstd::utf8::is_ascii_chars;
use vstd::utf8::valid_utf8;
use vstd::string::StrSliceExecFns;
use crate::jsontext::dec_digits;
use crate::jsontext::esc;
use crate::jsontext::hex_digit;
use crate::jsontext::int_bytes;
use crate::jsontext::is_digit;
use crate::jsontext::lemma_esc_snoc;
use crate::jsontext::lemma_parse_esc;
use crate::jsontext::lemma_parse_int;
use crate::jsontext::lemma_sp_int_sound;
use crate::jsontext::lemma_sp_str_sound;
use crate::jsontext::lemma_split_tail;
use crate::jsontext::parse_i64;
use crate::jsontext::parse_lit;
use crate::jsontext::parse_str;
use crate::jsontext::sp_int;
use crate::jsontext::sp_lit;
use crate::jsontext::sp_str;
use crate::jsontext::tail;
use crate::strconv::string_from_utf8;

verus! {

broadcast use vstd::utf8::encode_utf8_valid_utf8, vstd::utf8::encode_utf8_decode_utf8;

/// Payload of a signed token.
#[derive(Debug)]
pub struct Claims {
    /// Subject: the identity the token was minted for, as text.
    pub sub: String,
    /// Issued-at, seconds since the Unix epoch.
    pub iat: i64,
    /// Expires-at, seconds since the Unix epoch.
    pub exp: i64,
    /// Issuer policy string.
    pub iss: String,
    /// Audience policy string.
    pub aud: String,
    /// Optional opaque data payload.
    pub data: Option<String>,
}

/// Mathematical image of a claim set.
pub struct ClaimsView {
    pub sub: Seq<char>,
    pub iat: int,
    pub exp: int,
    pub iss: Seq<char>,
    pub aud: Seq<char>,
    pub data: Option<Seq<char>>,
}

impl View for Claims {
    type V = ClaimsView;

    open spec fn view(&self) -> ClaimsView {
        ClaimsView {
            sub: self.sub@,
            iat: self.iat as int,
            exp: self.exp as int,
            iss: self.iss@,
            aud: self.aud@,
            data: match self.data {
                Some(d) => Some(d@),
                None => None,
            },
        }
    }
}

/// The `"data"` member: `null`, or an escaped string.
pub open spec fn data_json(d: Option<Seq<char>>) -> Seq<u8> {
    match d {
        None => encode_utf8("null"@),
        Some(s) => seq![34u8] + esc(encode_utf8(s)) + seq![34u8],
    }
}

/// The canonical JSON text of a claim set, as UTF-8 bytes.
pub open spec fn claims_json(c: ClaimsView) -> Seq<u8> {
    encode_utf8("{\"sub\":\""@) + esc(encode_utf8(c.sub)) + seq![34u8] + encode_utf8(",\"iat\":"@)
        + int_bytes(c.iat) + encode_utf8(",\"exp\":"@) + int_bytes(c.exp) + encode_utf8(
        ",\"iss\":\""@,
    ) + esc(encode_utf8(c.iss)) + seq![34u8] + encode_utf8(",\"aud\":\""@) + esc(
        encode_utf8(c.aud),
    ) + seq![34u8] + encode_utf8(",\"data\":"@) + data_json(c.data) + encode_utf8("}"@)
}

// ---------------------------------------------------------------------
// Writer
// ---------------------------------------------------------------------
/// Append the UTF-8 bytes of a literal.
pub(crate) fn push_lit(out: &mut Vec<u8>, lit: &str)
    ensures
        final(out)@ == old(out)@ + encode_utf8(lit@),
{
    let mut v = lit.as_bytes_vec();
    out.append(&mut v);
}

/// Exec form of `hex_digit`.
fn hex_digit_exec(v: u8) -> (c: u8)
    requires
        v < 16,
    ensures
        c == hex_digit(v),
{
    if v < 10 {
        48 + v
    } else {
        87 + v
    }
}

/// Append the escaped UTF-8 bytes of a string.
fn push_esc(out: &mut Vec<u8>, s: &str)
    ensures
        final(out)@ == old(out)@ + esc(encode_utf8(s@)),
{
    let fb = s.as_bytes_vec();
    let ghost fbs = fb@;
    let ghost out0 = out@;
    proof {
        assert(fbs.subrange(0, 0) =~= Seq::<u8>::empty());
        assert(out@ + esc(fbs.subrange(0, 0)) =~= out@);
    }
    let mut j: usize = 0;
    while j < fb.len()
        invariant
            j <= fb.len(),
            fb@ == fbs,
            out@ == out0 + esc(fbs.subrange(0, j as int)),
        decreases fb.len() - j,
    {
        let x = fb[j];
        proof {
            lemma_esc_snoc(fbs, j as int);
        }
        if x == 34 {
            out.push(92);
            out.push(34);
        } else if x == 92 {
            out.push(92);
            out.push(92);
        } else if x < 32 {
            out.push(92);
            out.push(117);
            out.push(48);
            out.push(48);
            out.push(hex_digit_exec(x / 16));
            out.push(hex_digit_exec(x % 16));
        } else {
            out.push(x);
        }
        proof {
            assert(out@ =~= out0 + esc(fbs.subrange(0, j as int + 1)));
        }
        j = j + 1;
    }
    proof {
        assert(fbs.subrange(0, fbs.len() as int) =~= fbs);
    }
}

/// Append the canonical digits of a non-negative number.
pub(crate) fn push_nat(out: &mut Vec<u8>, m: u64)
    ensures
        final(out)@ == old(out)@ + dec_digits(m as int),
    decreases m,
{
    if m < 10 {
        out.push(48 + (m as u8));
        proof {
            assert(old(out)@ + dec_digits(m as int) =~= out@);
        }
    } else {
        push_nat(out, m / 10);
        out.push(48 + ((m % 10) as u8));
        proof {
            assert(old(out)@ + dec_digits(m as int) =~= out@);
        }
    }
}

/// Append the canonical decimal text of an integer.
fn push_int(out: &mut Vec<u8>, n: i64)
    ensures
        final(out)@ == old(out)@ + int_bytes(n as int),
{
    if n < 0 {
        out.push(45);
        let m: u64 = if n == -9223372036854775807i64 - 1 {
            9223372036854775808u64
        } else {
            (-n) as u64
        };
        push_nat(out, m);
        proof {
            assert(old(out)@ + int_bytes(n as int) =~= out@);
        }
    } else {
        push_nat(out, n as u64);
    }
}

/// Write a claim set as its canonical JSON bytes.
pub fn claims_to_json(c: &Claims) -> (out: Vec<u8>)
    ensures
        out@ == claims_json(c@),
{
    let mut out: Vec<u8> = Vec::new();
    push_lit(&mut out, "{\"sub\":\"");
    push_esc(&mut out, c.sub.as_str());
    out.push(34);
    push_lit(&mut out, ",\"iat\":");
    push_int(&mut out, c.iat);
    push_lit(&mut out, ",\"exp\":");
    push_int(&mut out, c.exp);
    push_lit(&mut out, ",\"iss\":\"");
    push_esc(&mut out, c.iss.as_str());
    out.push(34);
    push_lit(&mut out, ",\"aud\":\"");
    push_esc(&mut out, c.aud.as_str());
    out.push(34);
    push_lit(&mut out, ",\"data\":");
    match &c.data {
        None => {
            push_lit(&mut out, "null");
        },
        Some(d) => {
            out.push(34);
            push_esc(&mut out, d.as_str());
            out.push(34);
        },
    }
    push_lit(&mut out, "}");
    proof {
        assert(out@ =~= claims_json(c@));
    }
    out
}

// ---------------------------------------------------------------------
// Reader, specification
// ---------------------------------------------------------------------
/// Read a full claim-set object; `Some` exactly on the canonical image
/// of a claim set whose timestamps fit in 64-bit signed seconds.
pub open spec fn sp_claims(b: Seq<u8>) -> Option<ClaimsView> {
    match sp_lit(b, 0, encode_utf8("{\"sub\":\""@)) {
        None => None,
        Some(p1) => match sp_str(b, p1) {
            None => None,
            Some((subb, p2)) => match sp_lit(b, p2, encode_utf8(",\"iat\":"@)) {
                None => None,
                Some(p3) => match sp_int(b, p3) {
                    None => None,
                    Some((iat, p4)) => match sp_lit(b, p4, encode_utf8(",\"exp\":"@)) {
                        None => None,
                        Some(p5) => match sp_int(b, p5) {
                            None => None,
                            Some((exp, p6)) => match sp_lit(b, p6, encode_utf8(",\"iss\":\""@)) {
                                None => None,
                                Some(p7) => match sp_str(b, p7) {
                                    None => None,
                                    Some((issb, p8)) => match sp_lit(
                                        b,
                                        p8,
                                        encode_utf8(",\"aud\":\""@),
                                    ) {
                                        None => None,
                                        Some(p9) => match sp_str(b, p9) {
                                            None => None,
                                            Some((audb, p10)) => match sp_lit(
                                                b,
                                                p10,
                                                encode_utf8(",\"data\":"@),
                                            ) {
                                                None => None,
                                                Some(p11) => sp_claims_data(
                                                    b,
                                                    p11,
                                                    subb,
                                                    iat,
                                                    exp,
                                                    issb,
                                                    audb,
                                                ),
                                            },
                                        },
                                    },
                                },
                            },
                        },
                    },
                },
            },
        },
    }
}

/// The `"data"` member and the closing brace.
pub open spec fn sp_claims_data(
    b: Seq<u8>,
    p11: int,
    subb: Seq<u8>,
    iat: int,
    exp: int,
    issb: Seq<u8>,
    audb: Seq<u8>,
) -> Option<ClaimsView> {
    match sp_lit(b, p11, encode_utf8("null"@)) {
        Some(p12) => sp_claims_finish(b, p12, subb, iat, exp, issb, audb, None),
        None => if p11 < b.len() && b[p11] == 34 {
            match sp_str(b, p11 + 1) {
                Some((datab, p12)) => if valid_utf8(datab) {
                    sp_claims_finish(b, p12, subb, iat, exp, issb, audb, Some(decode_utf8(datab)))
                } else {
                    None
                },
                None => None,
            }
        } else {
            None
        },
    }
}

/// Closing brace, end of input, field decoding and range checks.
pub open spec fn sp_claims_finish(
    b: Seq<u8>,
    p12: int,
    subb: Seq<u8>,
    iat: int,
    exp: int,
    issb: Seq<u8>,
    audb: Seq<u8>,
    data: Option<Seq<char>>,
) -> Option<ClaimsView> {
    match sp_lit(b, p12, encode_utf8("}"@)) {
        Some(p13) => if p13 == b.len() && valid_utf8(subb) && valid_utf8(issb) && valid_utf8(audb)
            && -0x8000_0000_0000_0000 <= iat <= 0x7fff_ffff_ffff_ffff && -0x8000_0000_0000_0000
            <= exp <= 0x7fff_ffff_ffff_ffff {
            Some(
                ClaimsView {
                    sub: decode_utf8(subb),
                    iat: iat,
                    exp: exp,
                    iss: decode_utf8(issb),
                    aud: decode_utf8(audb),
                    data: data,
                },
            )
        } else {
            None
        },
        None => None,
    }
}

// ---------------------------------------------------------------------
// Reader, executable
// ---------------------------------------------------------------------
/// Read a claim set from its canonical JSON bytes.
pub fn parse_claims(b: &Vec<u8>) -> (r: Option<Claims>)
    ensures
        match r {
            Some(c) => sp_claims(b@) == Some(c@),
            None => sp_claims(b@) is None,
        },
{
    let p1 = match parse_lit(b, 0, "{\"sub\":\"") {
        Some(p) => p,
        None => {
            return None;
        },
    };
    let (subv, p2) = match parse_str(b, p1) {
        Some(p) => p,
        None => {
            return None;
        },
    };
    let p3 = match parse_lit(b, p2, ",\"iat\":") {
        Some(p) => p,
        None => {
            return None;
        },
    };
    let (iat, p4) = match parse_i64(b, p3) {
        Some(p) => p,
        None => {
            return None;
        },
    };
    let p5 = match parse_lit(b, p4, ",\"exp\":") {
        Some(p) => p,
        None => {
            return None;
        },
    };
    let (exp, p6) = match parse_i64(b, p5) {
        Some(p) => p,
        None => {
            return None;
        },
    };
    let p7 = match parse_lit(b, p6, ",\"iss\":\"") {
        Some(p) => p,
        None => {
            return None;
        },
    };
    let (issv, p8) = match parse_str(b, p7) {
        Some(p) => p,
        None => {
            return None;
        },
    };
    let p9 = match parse_lit(b, p8, ",\"aud\":\"") {
        Some(p) => p,
        None => {
            return None;
        },
    };
    let (audv, p10) = match parse_str(b, p9) {
        Some(p) => p,
        None => {
            return None;
        },
    };
    let p11 = match parse_lit(b, p10, ",\"data\":") {
        Some(p) => p,
        None => {
            return None;
        },
    };
    let (data, p13): (Option<String>, usize) = match parse_lit(b, p11, "null") {
        Some(p12) => (None, p12),
        None => {
            if p11 < b.len() && b[p11] == 34 {
                let (datav, p12) = match parse_str(b, p11 + 1) {
                    Some(p) => p,
                    None => {
                        return None;
                    },
                };
                let ds = match string_from_utf8(datav) {
                    Some(s) => s,
                    None => {
                        return None;
                    },
                };
                (Some(ds), p12)
            } else {
                return None;
            }
        },
    };
    let p14 = match parse_lit(b, p13, "}") {
        Some(p) => p,
        None => {
            return None;
        },
    };
    if p14 != b.len() {
        return None;
    }
    let sub = match string_from_utf8(subv) {
        Some(s) => s,
        None => {
            return None;
        },
    };
    let iss = match string_from_utf8(issv) {
        Some(s) => s,
        None => {
            return None;
        },
    };
    let aud = match string_from_utf8(audv) {
        Some(s) => s,
        None => {
            return None;
        },
    };
    let c = Claims { sub, iat, exp, iss, aud, data };
    Some(c)
}


// ---------------------------------------------------------------------
// Round trip
// ---------------------------------------------------------------------
/// A literal's bytes are its characters, and the first one is known.
proof fn lemma_lit_first(l: Seq<char>, first: u8)
    requires
        is_ascii_chars(l),
        l.len() > 0,
        l[0] as u8 == first,
    ensures
        encode_utf8(l).len() == l.len(),
        encode_utf8(l)[0] == first,
{
    vstd::utf8::is_ascii_chars_encode_utf8(l);
}

// Positions of the members inside the canonical JSON text.
spec fn cp1(c: ClaimsView) -> int {
    encode_utf8("{\"sub\":\""@).len() as int
}

spec fn cp2(c: ClaimsView) -> int {
    cp1(c) + esc(encode_utf8(c.sub)).len() + 1
}

spec fn cp3(c: ClaimsView) -> int {
    cp2(c) + encode_utf8(",\"iat\":"@).len()
}

spec fn cp4(c: ClaimsView) -> int {
    cp3(c) + int_bytes(c.iat).len()
}

spec fn cp5(c: ClaimsView) -> int {
    cp4(c) + encode_utf8(",\"exp\":"@).len()
}

spec fn cp6(c: ClaimsView) -> int {
    cp5(c) + int_bytes(c.exp).len()
}

spec fn cp7(c: ClaimsView) -> int {
    cp6(c) + encode_utf8(",\"iss\":\""@).len()
}

spec fn cp8(c: ClaimsView) -> int {
    cp7(c) + esc(encode_utf8(c.iss)).len() + 1
}

spec fn cp9(c: ClaimsView) -> int {
    cp8(c) + encode_utf8(",\"aud\":\""@).len()
}

spec fn cp10(c: ClaimsView) -> int {
    cp9(c) + esc(encode_utf8(c.aud)).len() + 1
}

spec fn cp11(c: ClaimsView) -> int {
    cp10(c) + encode_utf8(",\"data\":"@).len()
}

spec fn cp12(c: ClaimsView) -> int {
    cp11(c) + data_json(c.data).len()
}

// The suffix of the text from selected member boundaries on.
spec fn suf2(c: ClaimsView) -> Seq<u8> {
    encode_utf8(",\"iat\":"@) + int_bytes(c.iat) + encode_utf8(",\"exp\":"@) + int_bytes(c.exp)
        + encode_utf8(",\"iss\":\""@) + esc(encode_utf8(c.iss)) + seq![34u8] + encode_utf8(
        ",\"aud\":\""@,
    ) + esc(encode_utf8(c.aud)) + seq![34u8] + encode_utf8(",\"data\":"@) + data_json(c.data)
        + encode_utf8("}"@)
}

spec fn suf6(c: ClaimsView) -> Seq<u8> {
    encode_utf8(",\"iss\":\""@) + esc(encode_utf8(c.iss)) + seq![34u8] + encode_utf8(
        ",\"aud\":\""@,
    ) + esc(encode_utf8(c.aud)) + seq![34u8] + encode_utf8(",\"data\":"@) + data_json(c.data)
        + encode_utf8("}"@)
}

spec fn suf10(c: ClaimsView) -> Seq<u8> {
    encode_utf8(",\"data\":"@) + data_json(c.data) + encode_utf8("}"@)
}

// Step 1: object head and subject.
#[verifier::rlimit(100)]
#[verifier::spinoff_prover]
proof fn lemma_rt_1(c: ClaimsView)
    ensures
        sp_lit(claims_json(c), 0, encode_utf8("{\"sub\":\""@)) == Some(cp1(c)),
        sp_str(claims_json(c), cp1(c)) == Some((encode_utf8(c.sub), cp2(c))),
        0 <= cp2(c) <= claims_json(c).len(),
        tail(claims_json(c), cp2(c)) == suf2(c),
{
    let b = claims_json(c);
    let l1 = encode_utf8("{\"sub\":\""@);
    let sb = encode_utf8(c.sub);
    let q = seq![34u8];
    assert(tail(b, 0) =~= b);
    assert(b =~= l1 + (esc(sb) + q + suf2(c)));
    lemma_split_tail(b, 0, l1, esc(sb) + q + suf2(c));
    lemma_parse_esc(b, cp1(c), sb, suf2(c));
    assert(tail(b, cp1(c)) == (esc(sb) + q) + suf2(c)) by {
        assert(esc(sb) + q + suf2(c) =~= (esc(sb) + q) + suf2(c));
    }
    lemma_split_tail(b, cp1(c), esc(sb) + q, suf2(c));
}

// Step 2: the two timestamps.
#[verifier::rlimit(100)]
#[verifier::spinoff_prover]
proof fn lemma_rt_2(c: ClaimsView)
    requires
        -0x8000_0000_0000_0000 <= c.iat <= 0x7fff_ffff_ffff_ffff,
        -0x8000_0000_0000_0000 <= c.exp <= 0x7fff_ffff_ffff_ffff,
        0 <= cp2(c) <= claims_json(c).len(),
        tail(claims_json(c), cp2(c)) == suf2(c),
    ensures
        sp_lit(claims_json(c), cp2(c), encode_utf8(",\"iat\":"@)) == Some(cp3(c)),
        sp_int(claims_json(c), cp3(c)) == Some((c.iat, cp4(c))),
        sp_lit(claims_json(c), cp4(c), encode_utf8(",\"exp\":"@)) == Some(cp5(c)),
        sp_int(claims_json(c), cp5(c)) == Some((c.exp, cp6(c))),
        0 <= cp6(c) <= claims_json(c).len(),
        tail(claims_json(c), cp6(c)) == suf6(c),
{
    let b = claims_json(c);
    let l2 = encode_utf8(",\"iat\":"@);
    let l3 = encode_utf8(",\"exp\":"@);
    let l4 = encode_utf8(",\"iss\":\""@);
    let r3 = int_bytes(c.iat) + (l3 + (int_bytes(c.exp) + suf6(c)));
    assert(tail(b, cp2(c)) == l2 + r3) by {
        assert(suf2(c) =~= l2 + r3);
    }
    lemma_split_tail(b, cp2(c), l2, r3);
    assert(tail(b, cp3(c)) == int_bytes(c.iat) + (l3 + (int_bytes(c.exp) + suf6(c))));
    assert(is_ascii_chars(",\"exp\":"@) && (",\"exp\":"@).len() == 7 && (",\"exp\":"@)[0]
        == ',') by {
        reveal_strlit(",\"exp\":");
    }
    lemma_lit_first(",\"exp\":"@, 44);
    assert((l3 + (int_bytes(c.exp) + suf6(c)))[0] == 44);
    assert(!is_digit(44));
    lemma_parse_int(b, cp3(c), c.iat, l3 + (int_bytes(c.exp) + suf6(c)));
    lemma_split_tail(b, cp3(c), int_bytes(c.iat), l3 + (int_bytes(c.exp) + suf6(c)));
    assert(tail(b, cp4(c)) == l3 + (int_bytes(c.exp) + suf6(c)));
    lemma_split_tail(b, cp4(c), l3, int_bytes(c.exp) + suf6(c));
    assert(tail(b, cp5(c)) == int_bytes(c.exp) + suf6(c));
    assert(is_ascii_chars(",\"iss\":\""@) && (",\"iss\":\""@).len() == 8 && (",\"iss\":\""@)[0]
        == ',') by {
        reveal_strlit(",\"iss\":\"");
    }
    lemma_lit_first(",\"iss\":\""@, 44);
    assert(suf6(c)[0] == 44) by {
        assert(suf6(c)[0] == l4[0]);
    }
    lemma_parse_int(b, cp5(c), c.exp, suf6(c));
    lemma_split_tail(b, cp5(c), int_bytes(c.exp), suf6(c));
}

// Step 3: issuer and audience.
#[verifier::rlimit(100)]
#[verifier::spinoff_prover]
proof fn lemma_rt_3(c: ClaimsView)
    requires
        0 <= cp6(c) <= claims_json(c).len(),
        tail(claims_json(c), cp6(c)) == suf6(c),
    ensures
        sp_lit(claims_json(c), cp6(c), encode_utf8(",\"iss\":\""@)) == Some(cp7(c)),
        sp_str(claims_json(c), cp7(c)) == Some((encode_utf8(c.iss), cp8(c))),
        sp_lit(claims_json(c), cp8(c), encode_utf8(",\"aud\":\""@)) == Some(cp9(c)),
        sp_str(claims_json(c), cp9(c)) == Some((encode_utf8(c.aud), cp10(c))),
        0 <= cp10(c) <= claims_json(c).len(),
        tail(claims_json(c), cp10(c)) == suf10(c),
{
    let b = claims_json(c);
    let l4 = encode_utf8(",\"iss\":\""@);
    let l5 = encode_utf8(",\"aud\":\""@);
    let ib = encode_utf8(c.iss);
    let ab = encode_utf8(c.aud);
    let q = seq![34u8];
    let r7 = esc(ib) + q + (l5 + (esc(ab) + q + suf10(c)));
    assert(tail(b, cp6(c)) == l4 + r7) by {
        assert(suf6(c) =~= l4 + r7);
    }
    lemma_split_tail(b, cp6(c), l4, r7);
    assert(tail(b, cp7(c)) == r7);
    lemma_parse_esc(b, cp7(c), ib, l5 + (esc(ab) + q + suf10(c)));
    assert(tail(b, cp7(c)) == (esc(ib) + q) + (l5 + (esc(ab) + q + suf10(c)))) by {
        assert(r7 =~= (esc(ib) + q) + (l5 + (esc(ab) + q + suf10(c))));
    }
    lemma_split_tail(b, cp7(c), esc(ib) + q, l5 + (esc(ab) + q + suf10(c)));
    assert(tail(b, cp8(c)) == l5 + (esc(ab) + q + suf10(c)));
    lemma_split_tail(b, cp8(c), l5, esc(ab) + q + suf10(c));
    assert(tail(b, cp9(c)) == esc(ab) + q + suf10(c));
    lemma_parse_esc(b, cp9(c), ab, suf10(c));
    assert(tail(b, cp9(c)) == (esc(ab) + q) + suf10(c)) by {
        assert(esc(ab) + q + suf10(c) =~= (esc(ab) + q) + suf10(c));
    }
    lemma_split_tail(b, cp9(c), esc(ab) + q, suf10(c));
}

// Step 4: the data member and the closing brace.
#[verifier::rlimit(100)]
#[verifier::spinoff_prover]
proof fn lemma_rt_4(c: ClaimsView)
    requires
        0 <= cp10(c) <= claims_json(c).len(),
        tail(claims_json(c), cp10(c)) == suf10(c),
    ensures
        sp_lit(claims_json(c), cp10(c), encode_utf8(",\"data\":"@)) == Some(cp11(c)),
        match c.data {
            None => sp_lit(claims_json(c), cp11(c), encode_utf8("null"@)) == Some(cp12(c)),
            Some(d) => sp_lit(claims_json(c), cp11(c), encode_utf8("null"@)) is None && cp11(c)
                < claims_json(c).len() && claims_json(c)[cp11(c)] == 34 && sp_str(
                claims_json(c),
                cp11(c) + 1,
            ) == Some((encode_utf8(d), cp12(c))),
        },
        sp_lit(claims_json(c), cp12(c), encode_utf8("}"@)) == Some(cp12(c) + 1),
        cp12(c) + 1 == claims_json(c).len(),
{
    let b = claims_json(c);
    let l6 = encode_utf8(",\"data\":"@);
    let l7 = encode_utf8("}"@);
    let dd = data_json(c.data);
    let q = seq![34u8];
    assert(tail(b, cp10(c)) == l6 + (dd + l7)) by {
        assert(suf10(c) =~= l6 + (dd + l7));
    }
    lemma_split_tail(b, cp10(c), l6, dd + l7);
    assert(tail(b, cp11(c)) == dd + l7);
    assert(is_ascii_chars("null"@) && ("null"@).len() == 4 && ("null"@)[0] == 'n') by {
        reveal_strlit("null");
    }
    lemma_lit_first("null"@, 110);
    let nl = encode_utf8("null"@);
    match c.data {
        None => {
            assert(dd == nl);
            lemma_split_tail(b, cp11(c), nl, l7);
        },
        Some(d) => {
            let db = encode_utf8(d);
            assert(dd == q + esc(db) + q);
            assert(tail(b, cp11(c)) == q + (esc(db) + q + l7)) by {
                assert(dd + l7 =~= q + (esc(db) + q + l7));
            }
            crate::jsontext::lemma_tail_first(b, cp11(c), q, esc(db) + q + l7, 0);
            assert(b[cp11(c)] == 34);
            assert(sp_lit(b, cp11(c), nl) is None) by {
                if sp_lit(b, cp11(c), nl) is Some {
                    assert(b.subrange(cp11(c), cp11(c) + nl.len() as int) == nl);
                    assert(b.subrange(cp11(c), cp11(c) + nl.len() as int)[0] == b[cp11(c)]);
                }
            }
            lemma_split_tail(b, cp11(c), q, esc(db) + q + l7);
            lemma_parse_esc(b, cp11(c) + 1, db, l7);
            assert(tail(b, cp11(c)) == (q + esc(db) + q) + l7) by {
                assert(dd + l7 =~= (q + esc(db) + q) + l7);
            }
            lemma_split_tail(b, cp11(c), q + esc(db) + q, l7);
            assert(cp12(c) == cp11(c) + 1 + esc(db).len() + 1);
        },
    }
    assert(tail(b, cp12(c)) == l7 + Seq::<u8>::empty()) by {
        assert(tail(b, cp12(c)) =~= l7 + Seq::<u8>::empty());
    }
    lemma_split_tail(b, cp12(c), l7, Seq::<u8>::empty());
    assert(tail(b, cp12(c) + l7.len()).len() == 0);
    assert(is_ascii_chars("}"@) && ("}"@).len() == 1) by {
        reveal_strlit("}");
    }
    vstd::utf8::is_ascii_chars_encode_utf8("}"@);
    assert(l7.len() == 1);
}

/// Consecutive regions of `b` concatenate.
proof fn lemma_glue(b: Seq<u8>, m: int, n: int, p: int)
    requires
        0 <= m <= n <= p <= b.len(),
    ensures
        b.subrange(m, p) == b.subrange(m, n) + b.subrange(n, p),
{
    assert(b.subrange(m, p) =~= b.subrange(m, n) + b.subrange(n, p));
}

/// Region one: head literal, subject, and the two timestamps.
#[verifier::rlimit(100)]
#[verifier::spinoff_prover]
proof fn lemma_sound_head(
    b: Seq<u8>,
    p1: int,
    subb: Seq<u8>,
    p2: int,
    p3: int,
    iat: int,
    p4: int,
    p5: int,
    exp: int,
    p6: int,
)
    requires
        sp_lit(b, 0, encode_utf8("{\"sub\":\""@)) == Some(p1),
        sp_str(b, p1) == Some((subb, p2)),
        sp_lit(b, p2, encode_utf8(",\"iat\":"@)) == Some(p3),
        sp_int(b, p3) == Some((iat, p4)),
        sp_lit(b, p4, encode_utf8(",\"exp\":"@)) == Some(p5),
        sp_int(b, p5) == Some((exp, p6)),
    ensures
        0 <= p6 <= b.len(),
        b.subrange(0, p6) == encode_utf8("{\"sub\":\""@) + (esc(subb) + seq![34u8])
            + encode_utf8(",\"iat\":"@) + int_bytes(iat) + encode_utf8(",\"exp\":"@)
            + int_bytes(exp),
{
    lemma_sp_str_sound(b, p1);
    lemma_sp_int_sound(b, p3);
    lemma_sp_int_sound(b, p5);
    lemma_glue(b, 0, p1, p2);
    lemma_glue(b, 0, p2, p3);
    lemma_glue(b, 0, p3, p4);
    lemma_glue(b, 0, p4, p5);
    lemma_glue(b, 0, p5, p6);
    assert(b.subrange(0, p1) == encode_utf8("{\"sub\":\""@));
    assert(b.subrange(0, p6) =~= encode_utf8("{\"sub\":\""@) + (esc(subb) + seq![34u8])
        + encode_utf8(",\"iat\":"@) + int_bytes(iat) + encode_utf8(",\"exp\":"@) + int_bytes(
        exp,
    ));
}

/// Region two: issuer, audience, and the data label.
#[verifier::rlimit(100)]
#[verifier::spinoff_prover]
proof fn lemma_sound_mid(
    b: Seq<u8>,
    p6: int,
    p7: int,
    issb: Seq<u8>,
    p8: int,
    p9: int,
    audb: Seq<u8>,
    p10: int,
    p11: int,
)
    requires
        0 <= p6,
        sp_lit(b, p6, encode_utf8(",\"iss\":\""@)) == Some(p7),
        sp_str(b, p7) == Some((issb, p8)),
        sp_lit(b, p8, encode_utf8(",\"aud\":\""@)) == Some(p9),
        sp_str(b, p9) == Some((audb, p10)),
        sp_lit(b, p10, encode_utf8(",\"data\":"@)) == Some(p11),
    ensures
        p6 <= p11 <= b.len(),
        b.subrange(p6, p11) == encode_utf8(",\"iss\":\""@) + (esc(issb) + seq![34u8])
            + encode_utf8(",\"aud\":\""@) + (esc(audb) + seq![34u8]) + encode_utf8(
            ",\"data\":"@,
        ),
{
    lemma_sp_str_sound(b, p7);
    lemma_sp_str_sound(b, p9);
    lemma_glue(b, p6, p7, p8);
    lemma_glue(b, p6, p8, p9);
    lemma_glue(b, p6, p9, p10);
    lemma_glue(b, p6, p10, p11);
    assert(b.subrange(p6, p11) =~= encode_utf8(",\"iss\":\""@) + (esc(issb) + seq![34u8])
        + encode_utf8(",\"aud\":\""@) + (esc(audb) + seq![34u8]) + encode_utf8(",\"data\":"@));
}

/// Region three: the data member and the closing brace.
#[verifier::rlimit(100)]
#[verifier::spinoff_prover]
proof fn lemma_sound_data(b: Seq<u8>, p11: int, d: Option<Seq<char>>, p13: int)
    requires
        0 <= p11,
        p13 == (match sp_lit(b, p11, encode_utf8("null"@)) {
            Some(q) => q,
            None => sp_str(b, p11 + 1)->Some_0.1,
        }),
        match sp_lit(b, p11, encode_utf8("null"@)) {
            Some(q) => d == None::<Seq<char>>,
            None => {
                &&& p11 < b.len() && b[p11] == 34
                &&& sp_str(b, p11 + 1) is Some
                &&& valid_utf8(sp_str(b, p11 + 1)->Some_0.0)
                &&& d == Some(decode_utf8(sp_str(b, p11 + 1)->Some_0.0))
            },
        },
        sp_lit(b, p13, encode_utf8("}"@)) == Some(b.len() as int),
    ensures
        p11 <= p13 <= b.len(),
        b.subrange(p11, b.len() as int) == data_json(d) + encode_utf8("}"@),
{
    if sp_lit(b, p11, encode_utf8("null"@)) is Some {
        assert(b.subrange(p11, p13) == encode_utf8("null"@));
        lemma_glue(b, p11, p13, b.len() as int);
        assert(b.subrange(p13, b.len() as int) == encode_utf8("}"@));
    } else {
        let (datab, p12) = sp_str(b, p11 + 1)->Some_0;
        lemma_sp_str_sound(b, p11 + 1);
        assert(encode_utf8(decode_utf8(datab)) == datab) by {
            vstd::utf8::decode_utf8_encode_utf8(datab);
        }
        assert(b.subrange(p11, p11 + 1) =~= seq![34u8]);
        lemma_glue(b, p11, p11 + 1, p12);
        assert(b.subrange(p11, p13) =~= seq![34u8] + (esc(datab) + seq![34u8]));
        assert(data_json(d) =~= b.subrange(p11, p13));
        lemma_glue(b, p11, p13, b.len() as int);
        assert(b.subrange(p13, b.len() as int) == encode_utf8("}"@));
    }
    assert(b.subrange(p11, b.len() as int) =~= b.subrange(p11, p13) + b.subrange(
        p13,
        b.len() as int,
    ));
}

/// The three regions concatenate to the canonical text.
#[verifier::rlimit(100)]
#[verifier::spinoff_prover]
proof fn lemma_sound_combine(
    b: Seq<u8>,
    c: ClaimsView,
    subb: Seq<u8>,
    iat: int,
    exp: int,
    issb: Seq<u8>,
    audb: Seq<u8>,
    p6: int,
    p11: int,
)
    requires
        0 <= p6 <= p11 <= b.len(),
        b.subrange(0, p6) == encode_utf8("{\"sub\":\""@) + (esc(subb) + seq![34u8])
            + encode_utf8(",\"iat\":"@) + int_bytes(iat) + encode_utf8(",\"exp\":"@)
            + int_bytes(exp),
        b.subrange(p6, p11) == encode_utf8(",\"iss\":\""@) + (esc(issb) + seq![34u8])
            + encode_utf8(",\"aud\":\""@) + (esc(audb) + seq![34u8]) + encode_utf8(
            ",\"data\":"@,
        ),
        b.subrange(p11, b.len() as int) == data_json(c.data) + encode_utf8("}"@),
        encode_utf8(c.sub) == subb,
        encode_utf8(c.iss) == issb,
        encode_utf8(c.aud) == audb,
        c.iat == iat,
        c.exp == exp,
    ensures
        b == claims_json(c),
{
    lemma_glue(b, 0, p6, p11);
    assert(b =~= b.subrange(0, p11) + b.subrange(p11, b.len() as int));
    assert(b =~= claims_json(c));
}

/// Strictness: whatever the reader accepts is, byte for byte, the
/// canonical text of the claim set it returns.
#[verifier::rlimit(100)]
#[verifier::spinoff_prover]
pub proof fn lemma_claims_sound(b: Seq<u8>)
    requires
        sp_claims(b) is Some,
    ensures
        b == claims_json(sp_claims(b)->Some_0),
{
    let c = sp_claims(b)->Some_0;
    let nl = encode_utf8("null"@);
    let p1 = sp_lit(b, 0, encode_utf8("{\"sub\":\""@))->Some_0;
    let (subb, p2) = sp_str(b, p1)->Some_0;
    let p3 = sp_lit(b, p2, encode_utf8(",\"iat\":"@))->Some_0;
    let (iat, p4) = sp_int(b, p3)->Some_0;
    let p5 = sp_lit(b, p4, encode_utf8(",\"exp\":"@))->Some_0;
    let (exp, p6) = sp_int(b, p5)->Some_0;
    let p7 = sp_lit(b, p6, encode_utf8(",\"iss\":\""@))->Some_0;
    let (issb, p8) = sp_str(b, p7)->Some_0;
    let p9 = sp_lit(b, p8, encode_utf8(",\"aud\":\""@))->Some_0;
    let (audb, p10) = sp_str(b, p9)->Some_0;
    let p11 = sp_lit(b, p10, encode_utf8(",\"data\":"@))->Some_0;
    let p13: int = if sp_lit(b, p11, nl) is Some {
        sp_lit(b, p11, nl)->Some_0
    } else {
        sp_str(b, p11 + 1)->Some_0.1
    };
    lemma_sound_head(b, p1, subb, p2, p3, iat, p4, p5, exp, p6);
    lemma_sound_mid(b, p6, p7, issb, p8, p9, audb, p10, p11);
    lemma_sound_data(b, p11, c.data, p13);
    assert(encode_utf8(c.sub) == subb) by {
        vstd::utf8::decode_utf8_encode_utf8(subb);
    }
    assert(encode_utf8(c.iss) == issb) by {
        vstd::utf8::decode_utf8_encode_utf8(issb);
    }
    assert(encode_utf8(c.aud) == audb) by {
        vstd::utf8::decode_utf8_encode_utf8(audb);
    }
    assert(c.iat == iat && c.exp == exp);
    lemma_sound_combine(b, c, subb, iat, exp, issb, audb, p6, p11);
}

/// Reading back a written claim set returns the same claim set.
#[verifier::rlimit(50)]
pub proof fn lemma_claims_round_trip(c: ClaimsView)
    requires
        -0x8000_0000_0000_0000 <= c.iat <= 0x7fff_ffff_ffff_ffff,
        -0x8000_0000_0000_0000 <= c.exp <= 0x7fff_ffff_ffff_ffff,
    ensures
        sp_claims(claims_json(c)) == Some(c),
{
    let b = claims_json(c);
    lemma_rt_1(c);
    lemma_rt_2(c);
    lemma_rt_3(c);
    lemma_rt_4(c);
    assert(decode_utf8(encode_utf8(c.sub)) == c.sub && valid_utf8(encode_utf8(c.sub)));
    assert(decode_utf8(encode_utf8(c.iss)) == c.iss && valid_utf8(encode_utf8(c.iss)));
    assert(decode_utf8(encode_utf8(c.aud)) == c.aud && valid_utf8(encode_utf8(c.aud)));
    match c.data {
        None => {
            assert(sp_claims(b) == Some(c));
        },
        Some(d) => {
            assert(decode_utf8(encode_utf8(d)) == d && valid_utf8(encode_utf8(d)));
            assert(sp_claims(b) == Some(c));
        },
    }
}

} // verus!
