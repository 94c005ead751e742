//! Byte-level building blocks of the claim-set wire format.
//!
//! A claim set travels as a fixed-shape JSON object.  This module gives
//! the canonical text forms (string escaping, decimal integers) and a
//! strict recursive-descent reader for each form, together with the
//! completeness lemmas: reading a canonically written value yields the
//! value back.

use vstd::prelude::*;
use vstd::string::StrSliceExecFns;
use vstd::utf8::encode_utf8;

verus! {

// ---------------------------------------------------------------------
// String escaping
// ---------------------------------------------------------------------
/// Lowercase hex digit for a value below 16.
pub open spec fn hex_digit(v: u8) -> u8
    recommends
        v < 16,
{
    if v < 10 {
        (48 + v) as u8
    } else {
        (87 + v) as u8
    }
}

/// Hex digit value of a byte, accepting exactly `0`-`9` and `a`-`f`.
pub open spec fn hex_val(c: u8) -> Option<u8> {
    if 48 <= c <= 57 {
        Some((c - 48) as u8)
    } else if 97 <= c <= 102 {
        Some((c - 87) as u8)
    } else {
        None
    }
}

/// The escaped form of one byte inside a JSON string: quote and
/// backslash get a backslash escape, control bytes become `\u00xx`,
/// everything else (including UTF-8 continuation bytes) passes through.
pub open spec fn esc_byte(x: u8) -> Seq<u8> {
    if x == 34 {
        seq![92u8, 34u8]
    } else if x == 92 {
        seq![92u8, 92u8]
    } else if x < 32 {
        seq![92u8, 117u8, 48u8, 48u8, hex_digit((x / 16) as u8), hex_digit((x % 16) as u8)]
    } else {
        seq![x]
    }
}

/// The escaped form of a byte sequence.
pub open spec fn esc(s: Seq<u8>) -> Seq<u8>
    decreases s.len(),
{
    if s.len() == 0 {
        seq![]
    } else {
        esc_byte(s[0]) + esc(s.drop_first())
    }
}

/// Escaping distributes over concatenation.
pub proof fn lemma_esc_concat(a: Seq<u8>, b: Seq<u8>)
    ensures
        esc(a + b) == esc(a) + esc(b),
    decreases a.len(),
{
    if a.len() == 0 {
        assert(a + b =~= b);
        assert(esc(a) + esc(b) =~= esc(b));
    } else {
        lemma_esc_concat(a.drop_first(), b);
        assert((a + b).drop_first() =~= a.drop_first() + b);
        assert(esc_byte((a + b)[0]) + (esc(a.drop_first()) + esc(b)) =~= (esc_byte(a[0]) + esc(
            a.drop_first(),
        )) + esc(b));
    }
}

/// Escaping one byte appends that byte's escape unit.
pub proof fn lemma_esc_snoc(s: Seq<u8>, i: int)
    requires
        0 <= i < s.len(),
    ensures
        esc(s.subrange(0, i + 1)) == esc(s.subrange(0, i)) + esc_byte(s[i]),
{
    lemma_esc_concat(s.subrange(0, i), seq![s[i]]);
    assert(s.subrange(0, i + 1) =~= s.subrange(0, i) + seq![s[i]]);
    assert(seq![s[i]].drop_first() =~= Seq::<u8>::empty());
    assert(esc(Seq::<u8>::empty()) =~= Seq::<u8>::empty());
    assert(esc(seq![s[i]]) =~= esc_byte(s[i]));
}

/// An element inside the left part of a split region of `b`.
pub proof fn lemma_tail_first(b: Seq<u8>, i: int, x: Seq<u8>, y: Seq<u8>, k: int)
    requires
        0 <= i <= b.len(),
        tail(b, i) == x + y,
        0 <= k < x.len(),
    ensures
        b[i + k] == x[k],
{
    assert(tail(b, i).len() == b.len() - i);
    assert(tail(b, i)[k] == b[i + k]);
    assert((x + y)[k] == x[k]);
}

// ---------------------------------------------------------------------
// Canonical decimal integers
// ---------------------------------------------------------------------
/// Canonical decimal digits of a non-negative number.
pub open spec fn dec_digits(n: int) -> Seq<u8>
    recommends
        n >= 0,
    decreases n,
{
    if n < 10 {
        seq![(48 + n) as u8]
    } else {
        dec_digits(n / 10) + seq![(48 + n % 10) as u8]
    }
}

/// Canonical decimal text of an integer, with `-` for negatives.
pub open spec fn int_bytes(n: int) -> Seq<u8> {
    if n < 0 {
        seq![45u8] + dec_digits(-n)
    } else {
        dec_digits(n)
    }
}

/// True for ASCII digit bytes.
pub open spec fn is_digit(c: u8) -> bool {
    48 <= c <= 57
}

/// Powers of ten.
pub open spec fn pow10(k: int) -> int
    recommends
        k >= 0,
    decreases k,
{
    if k <= 0 {
        1
    } else {
        10 * pow10(k - 1)
    }
}

/// Every byte of a canonical digit run is a digit.
pub proof fn lemma_dec_digits_are_digits(n: int)
    requires
        n >= 0,
    ensures
        dec_digits(n).len() >= 1,
        forall|j: int| 0 <= j < dec_digits(n).len() ==> is_digit(#[trigger] dec_digits(n)[j]),
    decreases n,
{
    if n >= 10 {
        lemma_dec_digits_are_digits(n / 10);
        assert forall|j: int| 0 <= j < dec_digits(n).len() implies is_digit(dec_digits(n)[j]) by {
            if j < dec_digits(n / 10).len() {
                assert(dec_digits(n)[j] == dec_digits(n / 10)[j]);
            }
        }
    }
}

/// The leading digit of a positive number is not zero.
pub proof fn lemma_dec_digits_leading(n: int)
    requires
        n >= 1,
    ensures
        dec_digits(n)[0] != 48,
    decreases n,
{
    if n >= 10 {
        lemma_dec_digits_leading(n / 10);
        assert(dec_digits(n)[0] == dec_digits(n / 10)[0]);
    }
}

/// A number below `pow10(k)` has at most `k` digits.
pub proof fn lemma_dec_digits_len(n: int, k: int)
    requires
        n >= 0,
        k >= 1,
        n < pow10(k),
    ensures
        dec_digits(n).len() <= k,
    decreases k,
{
    if n >= 10 {
        assert(pow10(k) == 10 * pow10(k - 1));
        assert(n / 10 < pow10(k - 1)) by (nonlinear_arith)
            requires
                n < 10 * pow10(k - 1),
                n >= 10,
        ;
        assert(k >= 2) by {
            if k == 1 {
                assert(pow10(1) == 10);
            }
        }
        lemma_dec_digits_len(n / 10, k - 1);
    }
}

// ---------------------------------------------------------------------
// Readers
// ---------------------------------------------------------------------
/// The rest of `b` from position `i`.
pub open spec fn tail(b: Seq<u8>, i: int) -> Seq<u8> {
    b.subrange(i, b.len() as int)
}

/// Expect the literal `lit` at position `i`; the position after it.
pub open spec fn sp_lit(b: Seq<u8>, i: int, lit: Seq<u8>) -> Option<int> {
    if 0 <= i && i + lit.len() <= b.len() && b.subrange(i, i + lit.len()) == lit {
        Some(i + lit.len())
    } else {
        None
    }
}

/// Read a JSON string body starting after the opening quote: the
/// unescaped content and the position after the closing quote.  Strict:
/// only the escapes `esc_byte` emits are accepted.
pub open spec fn sp_str(b: Seq<u8>, i: int) -> Option<(Seq<u8>, int)>
    decreases b.len() - i,
{
    if i < 0 || i >= b.len() {
        None
    } else if b[i] == 34 {
        Some((seq![], i + 1))
    } else if b[i] == 92 {
        if i + 1 >= b.len() {
            None
        } else if b[i + 1] == 34 || b[i + 1] == 92 {
            match sp_str(b, i + 2) {
                Some((content, j)) => Some((seq![b[i + 1]] + content, j)),
                None => None,
            }
        } else if b[i + 1] == 117 {
            if i + 5 >= b.len() {
                None
            } else if b[i + 2] == 48 && b[i + 3] == 48 {
                match (hex_val(b[i + 4]), hex_val(b[i + 5])) {
                    (Some(h1), Some(h2)) => {
                        let v = (16 * h1 + h2) as u8;
                        if v < 32 {
                            match sp_str(b, i + 6) {
                                Some((content, j)) => Some((seq![v] + content, j)),
                                None => None,
                            }
                        } else {
                            None
                        }
                    },
                    _ => None,
                }
            } else {
                None
            }
        } else {
            None
        }
    } else if b[i] < 32 {
        None
    } else {
        match sp_str(b, i + 1) {
            Some((content, j)) => Some((seq![b[i]] + content, j)),
            None => None,
        }
    }
}

/// Read a maximal digit run with an accumulator: the value and the
/// position of the first non-digit.
pub open spec fn sp_digits(b: Seq<u8>, i: int, acc: int) -> (int, int)
    decreases b.len() - i,
{
    if 0 <= i < b.len() && is_digit(b[i]) {
        sp_digits(b, i + 1, acc * 10 + (b[i] - 48))
    } else {
        (acc, i)
    }
}

/// Read a canonical non-negative number: a single `0`, or a run of at
/// most 19 digits not starting with `0`.
pub open spec fn sp_nat(b: Seq<u8>, i: int) -> Option<(int, int)> {
    if 0 <= i < b.len() && is_digit(b[i]) {
        if b[i] == 48 {
            Some((0, i + 1))
        } else {
            let (v, j) = sp_digits(b, i, 0);
            if j - i > 19 {
                None
            } else {
                Some((v, j))
            }
        }
    } else {
        None
    }
}

/// Read a canonical integer: an optional `-` (never `-0`) and a number.
pub open spec fn sp_int(b: Seq<u8>, i: int) -> Option<(int, int)> {
    if 0 <= i < b.len() && b[i] == 45 {
        match sp_nat(b, i + 1) {
            Some((v, j)) => if v > 0 {
                Some((-v, j))
            } else {
                None
            },
            None => None,
        }
    } else {
        sp_nat(b, i)
    }
}

// ---------------------------------------------------------------------
// Splitting helpers
// ---------------------------------------------------------------------
/// Splitting the rest of `b` at `i` into `x + y` pins the two regions.
pub proof fn lemma_split_tail(b: Seq<u8>, i: int, x: Seq<u8>, y: Seq<u8>)
    requires
        0 <= i <= b.len(),
        tail(b, i) == x + y,
    ensures
        i + x.len() <= b.len(),
        b.subrange(i, i + x.len()) =~= x,
        tail(b, i + x.len()) =~= y,
{
    assert(tail(b, i).len() == b.len() - i);
    assert forall|k: int| 0 <= k < x.len() implies b.subrange(i, i + x.len() as int)[k] == x[k] by {
        assert(tail(b, i)[k] == b[i + k]);
        assert((x + y)[k] == x[k]);
    }
    assert forall|k: int| 0 <= k < y.len() implies tail(b, i + x.len())[k] == y[k] by {
        assert(tail(b, i)[x.len() + k] == b[i + x.len() + k]);
        assert((x + y)[x.len() + k] == y[k]);
        assert(tail(b, i + x.len())[k] == b[i + x.len() + k]);
    }
}

// ---------------------------------------------------------------------
// Completeness: reading back a canonically written value
// ---------------------------------------------------------------------
/// Hex digits read back to their value.
proof fn lemma_hex_round(v: u8)
    requires
        v < 16,
    ensures
        hex_val(hex_digit(v)) == Some(v),
{
}

/// Reading an escaped string body: the content and the closing quote
/// are consumed, whatever follows.
pub proof fn lemma_parse_esc(b: Seq<u8>, i: int, s: Seq<u8>, rest: Seq<u8>)
    requires
        0 <= i <= b.len(),
        tail(b, i) == esc(s) + seq![34u8] + rest,
    ensures
        sp_str(b, i) == Some((s, i + esc(s).len() + 1)),
    decreases s.len(),
{
    if s.len() == 0 {
        assert(tail(b, i) == seq![34u8] + rest) by {
            assert(esc(s) + seq![34u8] + rest =~= seq![34u8] + rest);
        }
        lemma_tail_first(b, i, seq![34u8], rest, 0);
        assert(b[i] == 34);
        assert(tail(b, i).len() == b.len() - i);
        assert(i < b.len());
        assert(s =~= Seq::<u8>::empty());
        assert(sp_str(b, i) == Some((Seq::<u8>::empty(), i + 1)));
    } else {
        let x = s[0];
        let s1 = s.drop_first();
        assert(esc(s) == esc_byte(x) + esc(s1));
        let u = esc_byte(x);
        assert(tail(b, i) =~= u + (esc(s1) + seq![34u8] + rest));
        lemma_split_tail(b, i, u, esc(s1) + seq![34u8] + rest);
        let i2 = i + u.len();
        lemma_parse_esc(b, i2, s1, rest);
        let y = esc(s1) + seq![34u8] + rest;
        if x == 34 {
            lemma_tail_first(b, i, u, y, 0);
            lemma_tail_first(b, i, u, y, 1);
            assert(b[i] == 92 && b[i + 1] == 34);
            assert(seq![b[i + 1]] + s1 =~= s);
        } else if x == 92 {
            lemma_tail_first(b, i, u, y, 0);
            lemma_tail_first(b, i, u, y, 1);
            assert(b[i] == 92 && b[i + 1] == 92);
            assert(seq![b[i + 1]] + s1 =~= s);
        } else if x < 32 {
            lemma_tail_first(b, i, u, y, 0);
            lemma_tail_first(b, i, u, y, 1);
            lemma_tail_first(b, i, u, y, 2);
            lemma_tail_first(b, i, u, y, 3);
            lemma_tail_first(b, i, u, y, 4);
            lemma_tail_first(b, i, u, y, 5);
            assert(b[i] == 92 && b[i + 1] == 117 && b[i + 2] == 48 && b[i + 3] == 48);
            assert(b[i + 4] == hex_digit((x / 16) as u8) && b[i + 5] == hex_digit((x % 16) as u8));
            lemma_hex_round((x / 16) as u8);
            lemma_hex_round((x % 16) as u8);
            assert(16 * ((x / 16) as u8) + ((x % 16) as u8) == x as int);
            assert(seq![x] + s1 =~= s);
        } else {
            lemma_tail_first(b, i, u, y, 0);
            assert(b[i] == x);
            assert(seq![b[i]] + s1 =~= s);
        }
    }
}

/// Reading a digit run threads the accumulator through the whole run.
proof fn lemma_parse_digits(b: Seq<u8>, i: int, n: int, acc: int, rest: Seq<u8>)
    requires
        0 <= i <= b.len(),
        n >= 0,
        tail(b, i) == dec_digits(n) + rest,
    ensures
        sp_digits(b, i, acc) == sp_digits(
            b,
            i + dec_digits(n).len(),
            acc * pow10(dec_digits(n).len() as int) + n,
        ),
    decreases n,
{
    lemma_dec_digits_are_digits(n);
    let d = dec_digits(n);
    if n < 10 {
        lemma_tail_first(b, i, d, rest, 0);
        assert(b[i] == d[0]);
        assert(d[0] == 48 + n);
        assert(tail(b, i).len() == b.len() - i);
        assert(0 <= i < b.len());
        assert(is_digit(b[i]));
        assert(b[i] - 48 == n);
        assert(sp_digits(b, i, acc) == sp_digits(b, i + 1, acc * 10 + n));
        assert(pow10(0) == 1);
        assert(pow10(1) == 10);
    } else {
        let dh = dec_digits(n / 10);
        let last = (48 + n % 10) as u8;
        assert(d == dh + seq![last]);
        assert(tail(b, i) =~= dh + (seq![last] + rest));
        lemma_parse_digits(b, i, n / 10, acc, seq![last] + rest);
        let k1 = dh.len() as int;
        let j = i + k1;
        lemma_split_tail(b, i, dh, seq![last] + rest);
        assert(tail(b, j) == seq![last] + rest);
        lemma_tail_first(b, j, seq![last], rest, 0);
        assert(b[j] == last);
        assert(is_digit(last));
        let acc1 = acc * pow10(k1) + n / 10;
        assert(sp_digits(b, j, acc1) == sp_digits(b, j + 1, acc1 * 10 + (n % 10)));
        assert(acc1 * 10 + n % 10 == acc * pow10(k1 + 1) + n) by (nonlinear_arith)
            requires
                acc1 == acc * pow10(k1) + n / 10,
                pow10(k1 + 1) == 10 * pow10(k1),
                n == 10 * (n / 10) + n % 10,
        ;
        assert(pow10(k1 + 1) == 10 * pow10(k1));
        assert(n == 10 * (n / 10) + n % 10);
        assert(d.len() == k1 + 1);
    }
}

/// Digit runs end at the first non-digit.
proof fn lemma_sp_digits_stop(b: Seq<u8>, i: int, acc: int)
    requires
        !(0 <= i < b.len() && is_digit(b[i])),
    ensures
        sp_digits(b, i, acc) == (acc, i),
{
}

/// Reading back a canonically written non-negative number below
/// `pow10(19)`, when what follows is not a digit.
pub proof fn lemma_parse_nat(b: Seq<u8>, i: int, n: int, rest: Seq<u8>)
    requires
        0 <= i <= b.len(),
        0 <= n < pow10(19),
        tail(b, i) == dec_digits(n) + rest,
        rest.len() > 0 ==> !is_digit(rest[0]),
    ensures
        sp_nat(b, i) == Some((n, i + dec_digits(n).len())),
{
    lemma_dec_digits_are_digits(n);
    let d = dec_digits(n);
    lemma_split_tail(b, i, d, rest);
    let j = i + d.len();
    lemma_tail_first(b, i, d, rest, 0);
    assert(b[i] == d[0]);
    if n == 0 {
        assert(d =~= seq![48u8]);
        assert(b[i] == 48);
    } else {
        lemma_dec_digits_leading(n);
        assert(b[i] != 48);
        assert(is_digit(b[i]));
        lemma_parse_digits(b, i, n, 0, rest);
        if j < b.len() {
            assert(tail(b, j) == rest + Seq::<u8>::empty()) by {
                assert(tail(b, j) =~= rest + Seq::<u8>::empty());
            }
            lemma_tail_first(b, j, rest, Seq::<u8>::empty(), 0);
            assert(b[j] == rest[0]);
        }
        lemma_sp_digits_stop(b, j, n);
        assert(sp_digits(b, i, 0) == (n, j));
        lemma_dec_digits_len(n, 19);
    }
}

/// A digit run's end never lies before its start.
proof fn lemma_sp_digits_pos(b: Seq<u8>, i: int, acc: int)
    ensures
        sp_digits(b, i, acc).1 >= i,
    decreases b.len() - i,
{
    if 0 <= i < b.len() && is_digit(b[i]) {
        lemma_sp_digits_pos(b, i + 1, acc * 10 + (b[i] - 48));
    }
}

/// Reading back a canonically written integer in the signed 64-bit
/// range, when what follows is not a digit.
pub proof fn lemma_parse_int(b: Seq<u8>, i: int, n: int, rest: Seq<u8>)
    requires
        0 <= i <= b.len(),
        -0x8000_0000_0000_0000 <= n <= 0x7fff_ffff_ffff_ffff,
        tail(b, i) == int_bytes(n) + rest,
        rest.len() > 0 ==> !is_digit(rest[0]),
    ensures
        sp_int(b, i) == Some((n, i + int_bytes(n).len())),
{
    assert(pow10(19) == 10_000_000_000_000_000_000) by {
        reveal_with_fuel(pow10, 21);
    }
    if n >= 0 {
        lemma_parse_nat(b, i, n, rest);
        lemma_tail_first(b, i, dec_digits(n), rest, 0);
        assert(b[i] == dec_digits(n)[0]);
        lemma_dec_digits_are_digits(n);
        assert(b[i] != 45);
    } else {
        let m = -n;
        assert(int_bytes(n) == seq![45u8] + dec_digits(m));
        assert(tail(b, i) =~= seq![45u8] + (dec_digits(m) + rest));
        lemma_split_tail(b, i, seq![45u8], dec_digits(m) + rest);
        lemma_tail_first(b, i, seq![45u8], dec_digits(m) + rest, 0);
        assert(b[i] == 45);
        lemma_parse_nat(b, i + 1, m, rest);
        assert(int_bytes(n).len() == 1 + dec_digits(m).len());
    }
}

// ---------------------------------------------------------------------
// Soundness: whatever is read back is in canonical text form
// ---------------------------------------------------------------------
/// Value of the digit run `b[i..j)`, most significant digit first.
pub open spec fn digits_val(b: Seq<u8>, i: int, j: int) -> int
    decreases j - i,
{
    if i >= j {
        0
    } else {
        digits_val(b, i, j - 1) * 10 + (b[j - 1] - 48)
    }
}

/// Where a digit run stops: everything before is a digit, what
/// follows is not.
proof fn lemma_sp_digits_shape(b: Seq<u8>, i: int, acc: int)
    requires
        0 <= i <= b.len(),
    ensures
        i <= sp_digits(b, i, acc).1 <= b.len(),
        forall|t: int| i <= t < sp_digits(b, i, acc).1 ==> is_digit(#[trigger] b[t]),
        sp_digits(b, i, acc).1 == b.len() || !is_digit(b[sp_digits(b, i, acc).1]),
    decreases b.len() - i,
{
    if 0 <= i < b.len() && is_digit(b[i]) {
        lemma_sp_digits_shape(b, i + 1, acc * 10 + (b[i] - 48));
    }
}

/// A digit run is read to its end, threading the accumulated value.
proof fn lemma_sp_digits_run(b: Seq<u8>, i: int, k: int, j: int)
    requires
        0 <= i <= k <= j <= b.len(),
        forall|t: int| i <= t < j ==> is_digit(#[trigger] b[t]),
        j == b.len() || !is_digit(b[j]),
    ensures
        sp_digits(b, k, digits_val(b, i, k)) == (digits_val(b, i, j), j),
    decreases j - k,
{
    if k < j {
        lemma_sp_digits_run(b, i, k + 1, j);
    }
}

/// A run with a nonzero leading digit has a positive value.
proof fn lemma_digits_val_pos(b: Seq<u8>, i: int, j: int)
    requires
        0 <= i < j <= b.len(),
        forall|t: int| i <= t < j ==> is_digit(#[trigger] b[t]),
        b[i] != 48,
    ensures
        digits_val(b, i, j) >= 1,
    decreases j - i,
{
    assert(digits_val(b, i, i) == 0);
    if j > i + 1 {
        lemma_digits_val_pos(b, i, j - 1);
    } else {
        assert(digits_val(b, i, j) == 0 * 10 + (b[i] - 48));
    }
}

/// A run with a nonzero leading digit is the canonical text of its
/// value.
proof fn lemma_digits_val_text(b: Seq<u8>, i: int, j: int)
    requires
        0 <= i < j <= b.len(),
        forall|t: int| i <= t < j ==> is_digit(#[trigger] b[t]),
        b[i] != 48,
    ensures
        dec_digits(digits_val(b, i, j)) == b.subrange(i, j),
    decreases j - i,
{
    let v = digits_val(b, i, j);
    if j == i + 1 {
        assert(v == b[i] - 48);
        assert(dec_digits(v) =~= b.subrange(i, j));
    } else {
        lemma_digits_val_pos(b, i, j - 1);
        let v1 = digits_val(b, i, j - 1);
        let d = b[j - 1] - 48;
        assert(v == v1 * 10 + d);
        assert(v >= 10);
        assert(v / 10 == v1 && v % 10 == d) by (nonlinear_arith)
            requires
                v == v1 * 10 + d,
                0 <= d < 10,
        ;
        lemma_digits_val_text(b, i, j - 1);
        assert(dec_digits(v) == dec_digits(v1) + seq![(48 + v % 10) as u8]);
        assert((48 + v % 10) as u8 == b[j - 1]);
        assert(dec_digits(v) =~= b.subrange(i, j));
    }
}

/// Whatever `sp_nat` reads is the canonical text of the value read.
pub proof fn lemma_sp_nat_sound(b: Seq<u8>, i: int)
    requires
        sp_nat(b, i) is Some,
    ensures
        ({
            let (v, j) = sp_nat(b, i)->Some_0;
            &&& 0 <= v
            &&& i < j <= b.len()
            &&& b.subrange(i, j) == dec_digits(v)
        }),
{
    let (v, j) = sp_nat(b, i)->Some_0;
    if b[i] == 48 {
        assert(b.subrange(i, i + 1) =~= dec_digits(0));
    } else {
        lemma_sp_digits_shape(b, i, 0);
        let jj = sp_digits(b, i, 0).1;
        assert(jj > i);
        lemma_sp_digits_run(b, i, i, jj);
        assert(digits_val(b, i, i) == 0);
        assert(sp_digits(b, i, 0) == (digits_val(b, i, jj), jj));
        lemma_digits_val_pos(b, i, jj);
        lemma_digits_val_text(b, i, jj);
    }
}

/// Whatever `sp_int` reads is the canonical text of the value read.
pub proof fn lemma_sp_int_sound(b: Seq<u8>, i: int)
    requires
        sp_int(b, i) is Some,
    ensures
        ({
            let (v, j) = sp_int(b, i)->Some_0;
            &&& i < j <= b.len()
            &&& b.subrange(i, j) == int_bytes(v)
        }),
{
    let (v, j) = sp_int(b, i)->Some_0;
    if 0 <= i < b.len() && b[i] == 45 {
        lemma_sp_nat_sound(b, i + 1);
        let (m, jj) = sp_nat(b, i + 1)->Some_0;
        assert(int_bytes(v) == seq![45u8] + dec_digits(m));
        assert(b.subrange(i, j) =~= seq![b[i]] + b.subrange(i + 1, j));
        assert(b.subrange(i, j) =~= int_bytes(v));
    } else {
        lemma_sp_nat_sound(b, i);
    }
}

/// Whatever `sp_str` reads stood escaped and quote-terminated.
pub proof fn lemma_sp_str_sound(b: Seq<u8>, i: int)
    requires
        sp_str(b, i) is Some,
    ensures
        ({
            let (s, j) = sp_str(b, i)->Some_0;
            &&& i < j <= b.len()
            &&& b.subrange(i, j) == esc(s) + seq![34u8]
        }),
    decreases b.len() - i,
{
    let (s, j) = sp_str(b, i)->Some_0;
    if b[i] == 34 {
        assert(esc(s) =~= Seq::<u8>::empty());
        assert(b.subrange(i, j) =~= esc(s) + seq![34u8]);
    } else if b[i] == 92 {
        if b[i + 1] == 34 || b[i + 1] == 92 {
            lemma_sp_str_sound(b, i + 2);
            let (s1, j1) = sp_str(b, i + 2)->Some_0;
            assert(s == seq![b[i + 1]] + s1);
            assert(s.drop_first() =~= s1);
            assert(esc(s) == esc_byte(s[0]) + esc(s1));
            assert(esc_byte(s[0]) =~= seq![92u8, b[i + 1]]);
            assert(esc(s) + seq![34u8] =~= seq![92u8, b[i + 1]] + (esc(s1) + seq![34u8]));
            assert(b.subrange(i, j) =~= esc(s) + seq![34u8]);
        } else {
            let h1 = hex_val(b[i + 4])->Some_0;
            let h2 = hex_val(b[i + 5])->Some_0;
            let v = (16 * h1 + h2) as u8;
            lemma_sp_str_sound(b, i + 6);
            let (s1, j1) = sp_str(b, i + 6)->Some_0;
            assert(s == seq![v] + s1);
            assert(s.drop_first() =~= s1);
            assert(esc(s) == esc_byte(v) + esc(s1));
            assert(hex_digit((v / 16) as u8) == b[i + 4] && hex_digit((v % 16) as u8) == b[i
                + 5]) by {
                assert(v / 16 == h1 && v % 16 == h2);
            }
            assert(esc_byte(v) =~= seq![92u8, 117u8, 48u8, 48u8, b[i + 4], b[i + 5]]);
            assert(esc(s) + seq![34u8] =~= seq![92u8, 117u8, 48u8, 48u8, b[i + 4], b[i + 5]] + (
            esc(s1) + seq![34u8]));
            assert(b.subrange(i, j) =~= esc(s) + seq![34u8]);
        }
    } else {
        lemma_sp_str_sound(b, i + 1);
        let (s1, j1) = sp_str(b, i + 1)->Some_0;
        assert(s == seq![b[i]] + s1);
        assert(s.drop_first() =~= s1);
        assert(esc(s) == esc_byte(s[0]) + esc(s1));
        assert(esc_byte(s[0]) =~= seq![b[i]]);
        assert(esc(s) + seq![34u8] =~= seq![b[i]] + (esc(s1) + seq![34u8]));
        assert(b.subrange(i, j) =~= esc(s) + seq![34u8]);
    }
}

// ---------------------------------------------------------------------
// Readers, executable
// ---------------------------------------------------------------------
proof fn lemma_pow10_pos(k: int)
    ensures
        pow10(k) >= 1,
    decreases k,
{
    if k > 0 {
        lemma_pow10_pos(k - 1);
    }
}

proof fn lemma_pow10_mono(a: int, c: int)
    requires
        0 <= a <= c,
    ensures
        pow10(a) <= pow10(c),
    decreases c - a,
{
    if a < c {
        lemma_pow10_mono(a, c - 1);
        lemma_pow10_pos(c - 1);
        assert(pow10(c) == 10 * pow10(c - 1));
    }
}

/// Exec form of `hex_val`.
fn hex_val_exec(c: u8) -> (v: Option<u8>)
    ensures
        v == hex_val(c),
{
    if 48 <= c && c <= 57 {
        Some(c - 48)
    } else if 97 <= c && c <= 102 {
        Some(c - 87)
    } else {
        None
    }
}

/// Expect the UTF-8 bytes of `lit` at `start`.
pub fn parse_lit(b: &Vec<u8>, start: usize, lit: &str) -> (r: Option<usize>)
    requires
        start <= b@.len(),
    ensures
        match r {
            Some(j) => sp_lit(b@, start as int, encode_utf8(lit@)) == Some(j as int) && start <= j
                <= b@.len(),
            None => sp_lit(b@, start as int, encode_utf8(lit@)) is None,
        },
{
    let lb = lit.as_bytes_vec();
    let blen = b.len();
    if blen - start < lb.len() {
        return None;
    }
    let mut k: usize = 0;
    while k < lb.len()
        invariant
            k <= lb.len(),
            start + lb@.len() <= blen,
            blen == b@.len(),
            lb@ == encode_utf8(lit@),
            forall|t: int| 0 <= t < k ==> b@[start + t] == lb@[t],
        decreases lb.len() - k,
    {
        if b[start + k] != lb[k] {
            proof {
                let sub = b@.subrange(start as int, start as int + lb@.len() as int);
                if sub == lb@ {
                    assert(sub[k as int] == b@[start + k]);
                }
            }
            return None;
        }
        k = k + 1;
    }
    proof {
        assert(b@.subrange(start as int, start as int + lb@.len() as int) =~= lb@);
    }
    Some(start + lb.len())
}

/// Prepend already-read content to a reader outcome.
pub open spec fn str_step(pre: Seq<u8>, o: Option<(Seq<u8>, int)>) -> Option<(Seq<u8>, int)> {
    match o {
        Some(p) => Some((pre + p.0, p.1)),
        None => None,
    }
}

/// Read a JSON string body starting after the opening quote.
pub fn parse_str(b: &Vec<u8>, start: usize) -> (r: Option<(Vec<u8>, usize)>)
    requires
        start <= b@.len(),
    ensures
        match r {
            Some(p) => sp_str(b@, start as int) == Some((p.0@, p.1 as int)) && start < p.1
                <= b@.len(),
            None => sp_str(b@, start as int) is None,
        },
{
    let mut content: Vec<u8> = Vec::new();
    let mut i: usize = start;
    proof {
        match sp_str(b@, start as int) {
            Some(p) => {
                assert(Seq::<u8>::empty() + p.0 =~= p.0);
            },
            None => {},
        }
    }
    loop
        invariant
            start <= i <= b@.len(),
            sp_str(b@, start as int) == str_step(content@, sp_str(b@, i as int)),
        decreases b@.len() - i,
    {
        if i >= b.len() {
            return None;
        }
        let x = b[i];
        if x == 34 {
            proof {
                assert(content@ + Seq::<u8>::empty() =~= content@);
            }
            return Some((content, i + 1));
        } else if x == 92 {
            if b.len() - i <= 1 {
                return None;
            }
            let y = b[i + 1];
            if y == 34 || y == 92 {
                let ghost pre = content@;
                content.push(y);
                i = i + 2;
                proof {
                    match sp_str(b@, i as int) {
                        Some(p) => {
                            assert(pre + (seq![y] + p.0) =~= content@ + p.0);
                        },
                        None => {},
                    }
                }
            } else if y == 117 {
                if b.len() - i <= 5 {
                    return None;
                }
                if b[i + 2] == 48 && b[i + 3] == 48 {
                    let h1o = hex_val_exec(b[i + 4]);
                    let h2o = hex_val_exec(b[i + 5]);
                    match (h1o, h2o) {
                        (Some(h1), Some(h2)) => {
                            let v = 16 * h1 + h2;
                            if v < 32 {
                                let ghost pre = content@;
                                content.push(v);
                                i = i + 6;
                                proof {
                                    match sp_str(b@, i as int) {
                                        Some(p) => {
                                            assert(pre + (seq![v] + p.0) =~= content@ + p.0);
                                        },
                                        None => {},
                                    }
                                }
                            } else {
                                return None;
                            }
                        },
                        _ => {
                            return None;
                        },
                    }
                } else {
                    return None;
                }
            } else {
                return None;
            }
        } else if x < 32 {
            return None;
        } else {
            let ghost pre = content@;
            content.push(x);
            i = i + 1;
            proof {
                match sp_str(b@, i as int) {
                    Some(p) => {
                        assert(pre + (seq![x] + p.0) =~= content@ + p.0);
                    },
                    None => {},
                }
            }
        }
    }
}

/// Read a canonical integer that fits 64 signed bits; `None` both on
/// malformed text and on a canonical number out of that range.
pub fn parse_i64(b: &Vec<u8>, start: usize) -> (r: Option<(i64, usize)>)
    requires
        start <= b@.len(),
    ensures
        match r {
            Some(p) => sp_int(b@, start as int) == Some((p.0 as int, p.1 as int)) && start < p.1
                <= b@.len(),
            None => match sp_int(b@, start as int) {
                Some(q) => !(-0x8000_0000_0000_0000 <= q.0 <= 0x7fff_ffff_ffff_ffff),
                None => true,
            },
        },
{
    let neg = start < b.len() && b[start] == 45;
    let i0: usize = if neg {
        start + 1
    } else {
        start
    };
    if i0 >= b.len() {
        return None;
    }
    let c0 = b[i0];
    if !(48 <= c0 && c0 <= 57) {
        return None;
    }
    if c0 == 48 {
        if neg {
            return None;
        }
        return Some((0i64, i0 + 1));
    }
    let mut acc: u64 = 0;
    let mut i: usize = i0;
    proof {
        assert(pow10(0) == 1);
    }
    while i < b.len() && 48 <= b[i] && b[i] <= 57
        invariant
            start <= i0 <= i <= b@.len(),
            i - i0 <= 19,
            (acc as int) < pow10(i - i0),
            i > i0 ==> acc >= 1,
            i0 < b@.len() && is_digit(b@[i0 as int]) && b@[i0 as int] != 48,
            sp_digits(b@, i0 as int, 0) == sp_digits(b@, i as int, acc as int),
            neg == (start < b@.len() && b@[start as int] == 45),
            i0 as int == if neg {
                start as int + 1
            } else {
                start as int
            },
        decreases b@.len() - i,
    {
        let d = b[i];
        if i - i0 == 19 {
            proof {
                lemma_sp_digits_pos(b@, i as int + 1, acc as int * 10 + (d - 48));
                assert(sp_digits(b@, i as int, acc as int) == sp_digits(
                    b@,
                    i as int + 1,
                    acc as int * 10 + (d - 48),
                ));
                assert(sp_digits(b@, i0 as int, 0).1 >= i as int + 1);
                assert(sp_nat(b@, i0 as int) is None);
                assert(sp_int(b@, start as int) is None);
            }
            return None;
        }
        proof {
            assert(pow10(19) == 10_000_000_000_000_000_000) by {
                reveal_with_fuel(pow10, 21);
            }
            lemma_pow10_mono(i - i0 + 1, 19);
            assert(pow10(i - i0 + 1) == 10 * pow10(i - i0));
            assert((acc as int) * 10 + (d - 48) < pow10(i - i0 + 1)) by (nonlinear_arith)
                requires
                    (acc as int) < pow10(i - i0),
                    pow10(i - i0 + 1) == 10 * pow10(i - i0),
                    d - 48 < 10,
            ;
        }
        acc = acc * 10 + ((d - 48) as u64);
        i = i + 1;
    }
    proof {
        assert(sp_digits(b@, i as int, acc as int) == (acc as int, i as int));
        assert(sp_nat(b@, i0 as int) == Some((acc as int, i as int)));
    }
    if neg {
        if acc > 9223372036854775808u64 {
            return None;
        }
        if acc == 9223372036854775808u64 {
            return Some((-9223372036854775807i64 - 1, i));
        }
        Some((-(acc as i64), i))
    } else {
        if acc > 9223372036854775807u64 {
            return None;
        }
        Some((acc as i64, i))
    }
}

} // verus!
