//! URL-safe base64 without padding, over byte sequences.
//!
//! This is the alphabet and framing used for the segments of a compact
//! signed token: `A`-`Z`, `a`-`z`, `0`-`9`, `-`, `_`, no `=` padding.
//! Encoding and decoding are verified against each other both ways:
//! decoding an encoded sequence returns the original bytes
//! (`lemma_b64_round_trip`), and whatever decodes was the encoding of
//! its result (`lemma_b64_decode_sound`).

use vstd::prelude::*;

verus! {

/// The alphabet byte for a 6-bit value.
pub open spec fn b64_char(v: u8) -> u8
    recommends
        v < 64,
{
    if v < 26 {
        (65 + v) as u8  // 'A'..='Z'
    } else if v < 52 {
        (71 + v) as u8  // 'a'..='z'
    } else if v < 62 {
        (v - 4) as u8  // '0'..='9'
    } else if v == 62 {
        45u8  // '-'
    } else {
        95u8  // '_'
    }
}

/// The 6-bit value of an alphabet byte, or `None` outside the alphabet.
pub open spec fn b64_val(c: u8) -> Option<u8> {
    if 65 <= c <= 90 {
        Some((c - 65) as u8)
    } else if 97 <= c <= 122 {
        Some((c - 71) as u8)
    } else if 48 <= c <= 57 {
        Some((c + 4) as u8)
    } else if c == 45 {
        Some(62u8)
    } else if c == 95 {
        Some(63u8)
    } else {
        None
    }
}

/// True when `c` is an alphabet byte.
pub open spec fn is_b64_byte(c: u8) -> bool {
    b64_val(c) is Some
}

/// The unpadded base64url encoding of a byte sequence.
pub open spec fn b64_encode_spec(s: Seq<u8>) -> Seq<u8>
    decreases s.len(),
{
    if s.len() == 0 {
        seq![]
    } else if s.len() == 1 {
        let b0 = s[0];
        seq![b64_char(b0 >> 2), b64_char((b0 & 3) << 4)]
    } else if s.len() == 2 {
        let b0 = s[0];
        let b1 = s[1];
        seq![b64_char(b0 >> 2), b64_char(((b0 & 3) << 4) | (b1 >> 4)), b64_char((b1 & 15) << 2)]
    } else {
        let b0 = s[0];
        let b1 = s[1];
        let b2 = s[2];
        seq![
            b64_char(b0 >> 2),
            b64_char(((b0 & 3) << 4) | (b1 >> 4)),
            b64_char(((b1 & 15) << 2) | (b2 >> 6)),
            b64_char(b2 & 63),
        ] + b64_encode_spec(s.skip(3))
    }
}

/// Strict decoding: `Some` exactly on canonical unpadded encodings.
pub open spec fn b64_decode_spec(s: Seq<u8>) -> Option<Seq<u8>>
    decreases s.len(),
{
    if s.len() == 0 {
        Some(seq![])
    } else if s.len() == 1 {
        None
    } else if s.len() == 2 {
        match (b64_val(s[0]), b64_val(s[1])) {
            (Some(v0), Some(v1)) => if v1 & 15 == 0 {
                Some(seq![(v0 << 2) | (v1 >> 4)])
            } else {
                None
            },
            _ => None,
        }
    } else if s.len() == 3 {
        match (b64_val(s[0]), b64_val(s[1]), b64_val(s[2])) {
            (Some(v0), Some(v1), Some(v2)) => if v2 & 3 == 0 {
                Some(seq![(v0 << 2) | (v1 >> 4), (v1 << 4) | (v2 >> 2)])
            } else {
                None
            },
            _ => None,
        }
    } else {
        match (b64_val(s[0]), b64_val(s[1]), b64_val(s[2]), b64_val(s[3])) {
            (Some(v0), Some(v1), Some(v2), Some(v3)) => match b64_decode_spec(s.skip(4)) {
                Some(rest) => Some(
                    seq![(v0 << 2) | (v1 >> 4), (v1 << 4) | (v2 >> 2), (v2 << 6) | v3] + rest,
                ),
                None => None,
            },
            _ => None,
        }
    }
}

/// Every alphabet value maps back to itself through the alphabet.
proof fn lemma_char_val(v: u8)
    requires
        v < 64,
    ensures
        b64_val(b64_char(v)) == Some(v),
{
}

proof fn lemma_group3_bits(b0: u8, b1: u8, b2: u8)
    by (bit_vector)
    ensures
        b0 >> 2 < 64,
        ((b0 & 3) << 4) | (b1 >> 4) < 64,
        ((b1 & 15) << 2) | (b2 >> 6) < 64,
        b2 & 63 < 64,
        ((b0 >> 2) << 2) | ((((b0 & 3) << 4) | (b1 >> 4)) >> 4) == b0,
        ((((b0 & 3) << 4) | (b1 >> 4)) << 4) | ((((b1 & 15) << 2) | (b2 >> 6)) >> 2) == b1,
        ((((b1 & 15) << 2) | (b2 >> 6)) << 6) | (b2 & 63) == b2,
{
}

proof fn lemma_group2_bits(b0: u8, b1: u8)
    by (bit_vector)
    ensures
        b0 >> 2 < 64,
        ((b0 & 3) << 4) | (b1 >> 4) < 64,
        (b1 & 15) << 2 < 64,
        ((b1 & 15) << 2) & 3 == 0,
        ((b0 >> 2) << 2) | ((((b0 & 3) << 4) | (b1 >> 4)) >> 4) == b0,
        ((((b0 & 3) << 4) | (b1 >> 4)) << 4) | (((b1 & 15) << 2) >> 2) == b1,
{
}

proof fn lemma_group1_bits(b0: u8)
    by (bit_vector)
    ensures
        b0 >> 2 < 64,
        (b0 & 3) << 4 < 64,
        ((b0 & 3) << 4) & 15 == 0,
        ((b0 >> 2) << 2) | (((b0 & 3) << 4) >> 4) == b0,
{
}

/// Decoding is a left inverse of encoding.
pub proof fn lemma_b64_round_trip(s: Seq<u8>)
    ensures
        b64_decode_spec(b64_encode_spec(s)) == Some(s),
    decreases s.len(),
{
    let e = b64_encode_spec(s);
    if s.len() == 0 {
        assert(b64_decode_spec(e) == Some(s));
    } else if s.len() == 1 {
        lemma_group1_bits(s[0]);
        lemma_char_val(s[0] >> 2);
        lemma_char_val((s[0] & 3) << 4);
        assert(b64_decode_spec(e)->Some_0 =~= s);
    } else if s.len() == 2 {
        lemma_group2_bits(s[0], s[1]);
        lemma_char_val(s[0] >> 2);
        lemma_char_val(((s[0] & 3) << 4) | (s[1] >> 4));
        lemma_char_val((s[1] & 15) << 2);
        assert(b64_decode_spec(e)->Some_0 =~= s);
    } else {
        lemma_group3_bits(s[0], s[1], s[2]);
        let v0 = s[0] >> 2;
        let v1 = ((s[0] & 3) << 4) | (s[1] >> 4);
        let v2 = ((s[1] & 15) << 2) | (s[2] >> 6);
        let v3 = s[2] & 63;
        lemma_char_val(v0);
        lemma_char_val(v1);
        lemma_char_val(v2);
        lemma_char_val(v3);
        lemma_b64_round_trip(s.skip(3));
        assert(e.skip(4) =~= b64_encode_spec(s.skip(3)));
        assert(e.len() >= 4);
        assert(b64_decode_spec(e)->Some_0 =~= s);
    }
}

/// Every 6-bit value read from an alphabet byte maps back to it.
proof fn lemma_val_char(c: u8)
    requires
        b64_val(c) is Some,
    ensures
        b64_char(b64_val(c)->Some_0) == c,
{
}

proof fn lemma_group3_rebits(v0: u8, v1: u8, v2: u8, v3: u8)
    by (bit_vector)
    requires
        v0 < 64,
        v1 < 64,
        v2 < 64,
        v3 < 64,
    ensures
        ((v0 << 2) | (v1 >> 4)) >> 2 == v0,
        ((((v0 << 2) | (v1 >> 4)) & 3) << 4) | (((v1 << 4) | (v2 >> 2)) >> 4) == v1,
        ((((v1 << 4) | (v2 >> 2)) & 15) << 2) | (((v2 << 6) | v3) >> 6) == v2,
        ((v2 << 6) | v3) & 63 == v3,
{
}

proof fn lemma_group2_rebits(v0: u8, v1: u8, v2: u8)
    by (bit_vector)
    requires
        v0 < 64,
        v1 < 64,
        v2 < 64,
        v2 & 3 == 0,
    ensures
        ((v0 << 2) | (v1 >> 4)) >> 2 == v0,
        ((((v0 << 2) | (v1 >> 4)) & 3) << 4) | (((v1 << 4) | (v2 >> 2)) >> 4) == v1,
        (((v1 << 4) | (v2 >> 2)) & 15) << 2 == v2,
{
}

proof fn lemma_group1_rebits(v0: u8, v1: u8)
    by (bit_vector)
    requires
        v0 < 64,
        v1 < 64,
        v1 & 15 == 0,
    ensures
        ((v0 << 2) | (v1 >> 4)) >> 2 == v0,
        (((v0 << 2) | (v1 >> 4)) & 3) << 4 == v1,
{
}

/// Decoding is strict: whatever decodes is the encoding of its result.
pub proof fn lemma_b64_decode_sound(y: Seq<u8>)
    requires
        b64_decode_spec(y) is Some,
    ensures
        y == b64_encode_spec(b64_decode_spec(y)->Some_0),
    decreases y.len(),
{
    let x = b64_decode_spec(y)->Some_0;
    if y.len() == 0 {
        assert(y =~= b64_encode_spec(x));
    } else if y.len() == 2 {
        let v0 = b64_val(y[0])->Some_0;
        let v1 = b64_val(y[1])->Some_0;
        lemma_val_char(y[0]);
        lemma_val_char(y[1]);
        lemma_group1_rebits(v0, v1);
        assert(x =~= seq![(v0 << 2) | (v1 >> 4)]);
        assert(y =~= b64_encode_spec(x));
    } else if y.len() == 3 {
        let v0 = b64_val(y[0])->Some_0;
        let v1 = b64_val(y[1])->Some_0;
        let v2 = b64_val(y[2])->Some_0;
        lemma_val_char(y[0]);
        lemma_val_char(y[1]);
        lemma_val_char(y[2]);
        lemma_group2_rebits(v0, v1, v2);
        assert(x =~= seq![(v0 << 2) | (v1 >> 4), (v1 << 4) | (v2 >> 2)]);
        assert(y =~= b64_encode_spec(x));
    } else {
        let v0 = b64_val(y[0])->Some_0;
        let v1 = b64_val(y[1])->Some_0;
        let v2 = b64_val(y[2])->Some_0;
        let v3 = b64_val(y[3])->Some_0;
        lemma_val_char(y[0]);
        lemma_val_char(y[1]);
        lemma_val_char(y[2]);
        lemma_val_char(y[3]);
        lemma_group3_rebits(v0, v1, v2, v3);
        lemma_b64_decode_sound(y.skip(4));
        let rest = b64_decode_spec(y.skip(4))->Some_0;
        let b0 = (v0 << 2) | (v1 >> 4);
        let b1 = (v1 << 4) | (v2 >> 2);
        let b2 = (v2 << 6) | v3;
        assert(x =~= seq![b0, b1, b2] + rest);
        assert(x.len() >= 3);
        assert(x.skip(3) =~= rest);
        assert(y =~= b64_encode_spec(x));
    }
}

/// Every byte of an encoding is an alphabet byte.
pub proof fn lemma_b64_encode_charset(s: Seq<u8>)
    ensures
        forall|j: int|
            0 <= j < b64_encode_spec(s).len() ==> is_b64_byte(#[trigger] b64_encode_spec(s)[j]),
    decreases s.len(),
{
    let e = b64_encode_spec(s);
    if s.len() == 0 {
    } else if s.len() == 1 {
        lemma_group1_bits(s[0]);
        lemma_char_val(s[0] >> 2);
        lemma_char_val((s[0] & 3) << 4);
    } else if s.len() == 2 {
        lemma_group2_bits(s[0], s[1]);
        lemma_char_val(s[0] >> 2);
        lemma_char_val(((s[0] & 3) << 4) | (s[1] >> 4));
        lemma_char_val((s[1] & 15) << 2);
    } else {
        lemma_group3_bits(s[0], s[1], s[2]);
        lemma_char_val(s[0] >> 2);
        lemma_char_val(((s[0] & 3) << 4) | (s[1] >> 4));
        lemma_char_val(((s[1] & 15) << 2) | (s[2] >> 6));
        lemma_char_val(s[2] & 63);
        lemma_b64_encode_charset(s.skip(3));
        assert forall|j: int| 0 <= j < e.len() implies is_b64_byte(e[j]) by {
            if j >= 4 {
                assert(e[j] == b64_encode_spec(s.skip(3))[j - 4]);
            }
        }
    }
}

/// Exec form of `b64_char`.
fn b64_char_exec(v: u8) -> (c: u8)
    requires
        v < 64,
    ensures
        c == b64_char(v),
{
    if v < 26 {
        65 + v
    } else if v < 52 {
        71 + v
    } else if v < 62 {
        v - 4
    } else if v == 62 {
        45
    } else {
        95
    }
}

/// Exec form of `b64_val`.
fn b64_val_exec(c: u8) -> (v: Option<u8>)
    ensures
        v == b64_val(c),
{
    if 65 <= c && c <= 90 {
        Some(c - 65)
    } else if 97 <= c && c <= 122 {
        Some(c - 71)
    } else if 48 <= c && c <= 57 {
        Some(c + 4)
    } else if c == 45 {
        Some(62)
    } else if c == 95 {
        Some(63)
    } else {
        None
    }
}

/// Encode a byte vector as unpadded base64url.
pub fn b64_encode(s: &Vec<u8>) -> (out: Vec<u8>)
    ensures
        out@ == b64_encode_spec(s@),
{
    let mut out: Vec<u8> = Vec::new();
    let mut i: usize = 0;
    proof {
        assert(s@.skip(0) =~= s@);
    }
    while s.len() - i >= 3
        invariant
            i <= s.len(),
            out@ + b64_encode_spec(s@.skip(i as int)) == b64_encode_spec(s@),
        decreases s.len() - i,
    {
        let b0 = s[i];
        let b1 = s[i + 1];
        let b2 = s[i + 2];
        proof {
            lemma_group3_bits(b0, b1, b2);
            assert(s@.skip(i as int).skip(3) =~= s@.skip(i as int + 3));
        }
        out.push(b64_char_exec(b0 >> 2));
        out.push(b64_char_exec(((b0 & 3) << 4) | (b1 >> 4)));
        out.push(b64_char_exec(((b1 & 15) << 2) | (b2 >> 6)));
        out.push(b64_char_exec(b2 & 63));
        i = i + 3;
        proof {
            assert(out@ + b64_encode_spec(s@.skip(i as int)) =~= b64_encode_spec(s@));
        }
    }
    if s.len() - i == 1 {
        let b0 = s[i];
        proof {
            lemma_group1_bits(b0);
        }
        out.push(b64_char_exec(b0 >> 2));
        out.push(b64_char_exec((b0 & 3) << 4));
        proof {
            assert(out@ =~= b64_encode_spec(s@));
        }
    } else if s.len() - i == 2 {
        let b0 = s[i];
        let b1 = s[i + 1];
        proof {
            lemma_group2_bits(b0, b1);
        }
        out.push(b64_char_exec(b0 >> 2));
        out.push(b64_char_exec(((b0 & 3) << 4) | (b1 >> 4)));
        out.push(b64_char_exec((b1 & 15) << 2));
        proof {
            assert(out@ =~= b64_encode_spec(s@));
        }
    } else {
        proof {
            assert(out@ =~= b64_encode_spec(s@));
        }
    }
    out
}

/// Helper: prepend a decoded prefix to an optional decoded suffix.
pub open spec fn opt_prepend(pre: Seq<u8>, o: Option<Seq<u8>>) -> Option<Seq<u8>> {
    match o {
        Some(r) => Some(pre + r),
        None => None,
    }
}

/// Decode unpadded base64url; `None` on any non-canonical input.
pub fn b64_decode(s: &Vec<u8>) -> (out: Option<Vec<u8>>)
    ensures
        match out {
            Some(v) => b64_decode_spec(s@) == Some(v@),
            None => b64_decode_spec(s@) is None,
        },
{
    let mut out: Vec<u8> = Vec::new();
    let mut i: usize = 0;
    proof {
        assert(s@.skip(0) =~= s@);
        assert(opt_prepend(out@, b64_decode_spec(s@.skip(0))) == b64_decode_spec(s@));
    }
    while s.len() - i >= 4
        invariant
            i <= s.len(),
            opt_prepend(out@, b64_decode_spec(s@.skip(i as int))) == b64_decode_spec(s@),
        decreases s.len() - i,
    {
        let v0 = b64_val_exec(s[i]);
        let v1 = b64_val_exec(s[i + 1]);
        let v2 = b64_val_exec(s[i + 2]);
        let v3 = b64_val_exec(s[i + 3]);
        proof {
            assert(s@.skip(i as int).skip(4) =~= s@.skip(i as int + 4));
        }
        match (v0, v1, v2, v3) {
            (Some(v0), Some(v1), Some(v2), Some(v3)) => {
                out.push((v0 << 2) | (v1 >> 4));
                out.push((v1 << 4) | (v2 >> 2));
                out.push((v2 << 6) | v3);
                i = i + 4;
                proof {
                    assert(opt_prepend(out@, b64_decode_spec(s@.skip(i as int)))
                        == b64_decode_spec(s@)) by {
                        match b64_decode_spec(s@.skip(i as int)) {
                            Some(rest) => {
                                assert(out@ + rest =~= b64_decode_spec(s@)->Some_0);
                            },
                            None => {},
                        }
                    }
                }
            },
            _ => {
                return None;
            },
        }
    }
    if i == s.len() {
        proof {
            assert(out@ =~= b64_decode_spec(s@)->Some_0);
        }
        Some(out)
    } else if s.len() - i == 2 {
        match (b64_val_exec(s[i]), b64_val_exec(s[i + 1])) {
            (Some(v0), Some(v1)) => {
                if v1 & 15 == 0 {
                    out.push((v0 << 2) | (v1 >> 4));
                    proof {
                        assert(out@ =~= b64_decode_spec(s@)->Some_0);
                    }
                    Some(out)
                } else {
                    None
                }
            },
            _ => None,
        }
    } else if s.len() - i == 3 {
        match (b64_val_exec(s[i]), b64_val_exec(s[i + 1]), b64_val_exec(s[i + 2])) {
            (Some(v0), Some(v1), Some(v2)) => {
                if v2 & 3 == 0 {
                    out.push((v0 << 2) | (v1 >> 4));
                    out.push((v1 << 4) | (v2 >> 2));
                    proof {
                        assert(out@ =~= b64_decode_spec(s@)->Some_0);
                    }
                    Some(out)
                } else {
                    None
                }
            },
            _ => None,
        }
    } else {
        None
    }
}

} // verus!
