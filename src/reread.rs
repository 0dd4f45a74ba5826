//! A duration shown as a clock reads back, in the colon grammar, as the
//! duration cut to the places shown.

use crate::display::{decimal, digit_char, duration_text, padded};
use crate::duration::max_nanos;
use crate::parse::{has_colon, parse_model, Failure};
use crate::sw::{add_fraction, add_whole, scan, scan_start, sw_model, Group, Scan};
use crate::lexer::{data_left, delim_at, lex_next, SwTokenKind, Tok, COLON, DOT};
use crate::num::{
    digits_value, frac_value, is_digit, lemma_pow_step, u64_value, ParseFracErr, DIGIT_ZERO,
};
use crate::text::{blank_at, cluster, edge, grapheme_spans, is_space_char, printable, singles};
use vstd::utf8::*;
use vstd::arithmetic::power::{lemma_pow_adds, lemma_pow_positive, pow};
use vstd::prelude::*;

verus! {

/// The bytes of an ASCII text.
pub open spec fn cbytes(t: Seq<char>) -> Seq<u8> {
    Seq::new(t.len(), |i: int| t[i] as u8)
}

/// The digits `d[i..]` read onto `acc`, left to right.
pub open spec fn fold_digits(d: Seq<u8>, i: int, acc: int) -> int
    decreases d.len() - i,
{
    if i >= d.len() {
        acc
    } else {
        fold_digits(d, i + 1, acc * 10 + (d[i] - DIGIT_ZERO))
    }
}

/// `d[i..]` are all digits.
pub open spec fn digits_from(d: Seq<u8>, i: int) -> bool {
    forall|k: int| i <= k < d.len() ==> is_digit(#[trigger] d[k])
}

/// Reading onto `acc` shifts `acc` left by the digits read.
proof fn lemma_fold_shift(d: Seq<u8>, i: int, acc: int)
    requires
        0 <= i <= d.len(),
    ensures
        fold_digits(d, i, acc) == acc * pow(10, (d.len() - i) as nat) + fold_digits(d, i, 0),
    decreases d.len() - i,
{
    lemma_pow_step((d.len() - i) as nat);
    if i < d.len() {
        let c = d[i] - DIGIT_ZERO;
        let p = pow(10, (d.len() - i - 1) as nat);
        lemma_pow_step((d.len() - i - 1) as nat);
        lemma_fold_shift(d, i + 1, acc * 10 + c);
        lemma_fold_shift(d, i + 1, c);
        assert((acc * 10 + c) * p == acc * (10 * p) + c * p) by (nonlinear_arith);
    }
}

/// Digits read onto a non-negative number give no less than it.
proof fn lemma_fold_mono(d: Seq<u8>, i: int, acc: int)
    requires
        0 <= i <= d.len(),
        0 <= acc,
        digits_from(d, i),
    ensures
        fold_digits(d, i, acc) >= acc,
    decreases d.len() - i,
{
    if i < d.len() {
        lemma_fold_mono(d, i + 1, acc * 10 + (d[i] - DIGIT_ZERO));
    }
}

/// `digits_value` of digits that stay within `u64` is their value.
proof fn lemma_digits_value(d: Seq<u8>, i: int, acc: int)
    requires
        0 <= i <= d.len(),
        0 <= acc,
        digits_from(d, i),
        fold_digits(d, i, acc) <= u64::MAX,
    ensures
        digits_value(d, i, acc) == Ok::<u64, crate::num::IntError>(fold_digits(d, i, acc) as u64),
    decreases d.len() - i,
{
    if i < d.len() {
        let next = acc * 10 + (d[i] - DIGIT_ZERO);
        lemma_fold_mono(d, i + 1, next);
        lemma_digits_value(d, i + 1, next);
    }
}

/// Reading `x + y` reads `x` and then `y`.
proof fn lemma_fold_concat(x: Seq<u8>, y: Seq<u8>, i: int, acc: int)
    requires
        0 <= i <= x.len(),
    ensures
        fold_digits(x + y, i, acc) == fold_digits(y, 0, fold_digits(x, i, acc)),
    decreases x.len() - i,
{
    if i < x.len() {
        assert((x + y)[i] == x[i]);
        lemma_fold_concat(x, y, i + 1, acc * 10 + (x[i] - DIGIT_ZERO));
    } else {
        lemma_fold_skip(x, y, 0, acc);
    }
}

/// Reading `x + y` from the end of `x` reads `y`.
proof fn lemma_fold_skip(x: Seq<u8>, y: Seq<u8>, k: int, acc: int)
    requires
        0 <= k <= y.len(),
    ensures
        fold_digits(x + y, x.len() + k, acc) == fold_digits(y, k, acc),
    decreases y.len() - k,
{
    if k < y.len() {
        assert((x + y)[x.len() + k] == y[k]);
        lemma_fold_skip(x, y, k + 1, acc * 10 + (y[k] - DIGIT_ZERO));
    }
}

/// The byte of a digit character.
proof fn lemma_digit_byte(d: int)
    requires
        0 <= d <= 9,
    ensures
        digit_char(d) as u8 == DIGIT_ZERO + d,
        (digit_char(d) as u32) == 0x30 + d,
{
}

/// The bytes of a joined text are the joined bytes.
proof fn lemma_cbytes_concat(x: Seq<char>, y: Seq<char>)
    ensures
        cbytes(x + y) == cbytes(x) + cbytes(y),
{
    assert(cbytes(x + y) =~= cbytes(x) + cbytes(y));
}

/// A number's decimal reads back as the number, and is made of digits.
pub proof fn lemma_decimal_reads(n: nat)
    ensures
        fold_digits(cbytes(decimal(n)), 0, 0) == n,
        digits_from(cbytes(decimal(n)), 0),
        decimal(n).len() >= 1,
    decreases n,
{
    let c = seq![digit_char((n % 10) as int)];
    lemma_digit_byte((n % 10) as int);
    assert(cbytes(c) =~= seq![(DIGIT_ZERO + n % 10) as u8]);
    let b1 = cbytes(c);
    assert(b1[0] - DIGIT_ZERO == n % 10);
    if n < 10 {
        assert(cbytes(decimal(n)) == cbytes(c));
        assert(fold_digits(b1, 1, (n % 10) as int) == n % 10);
    } else {
        lemma_decimal_reads(n / 10);
        let x = cbytes(decimal(n / 10));
        lemma_cbytes_concat(decimal(n / 10), c);
        lemma_fold_concat(x, cbytes(c), 0, 0);
        let a = (n / 10) as int;
        assert(fold_digits(b1, 1, a * 10 + n % 10) == a * 10 + n % 10);
        assert(fold_digits(b1, 0, a) == a * 10 + n % 10);
        assert(digits_from(cbytes(decimal(n)), 0)) by {
            assert(cbytes(decimal(n)) == x + cbytes(c));
            assert forall|k: int| 0 <= k < cbytes(decimal(n)).len() implies is_digit(
                #[trigger] cbytes(decimal(n))[k],
            ) by {
                if k < x.len() {
                    assert(cbytes(decimal(n))[k] == x[k]);
                } else {
                    assert(cbytes(decimal(n))[k] == cbytes(c)[k - x.len()]);
                }
            }
        }
    }
}

/// Zeros in front change nothing, and a padded number is made of digits.
pub proof fn lemma_padded_reads(n: nat, w: nat)
    ensures
        fold_digits(cbytes(padded(n, w)), 0, 0) == n,
        digits_from(cbytes(padded(n, w)), 0),
        padded(n, w).len() >= 1,
        padded(n, w).len() >= w,
{
    lemma_decimal_reads(n);
    let d = decimal(n);
    if d.len() < w {
        let z = Seq::new((w - d.len()) as nat, |i: int| '0');
        lemma_cbytes_concat(z, d);
        lemma_fold_concat(cbytes(z), cbytes(d), 0, 0);
        lemma_zeros(cbytes(z), 0);
        let all = cbytes(padded(n, w));
        assert(all == cbytes(z) + cbytes(d));
        assert forall|k: int| 0 <= k < all.len() implies is_digit(#[trigger] all[k]) by {
            if k < cbytes(z).len() {
                assert(all[k] == cbytes(z)[k]);
            } else {
                assert(all[k] == cbytes(d)[k - cbytes(z).len()]);
            }
        }
    }
}

/// Zeros read as zero.
proof fn lemma_zeros(z: Seq<u8>, i: int)
    requires
        0 <= i <= z.len(),
        forall|k: int| 0 <= k < z.len() ==> #[trigger] z[k] == DIGIT_ZERO,
    ensures
        fold_digits(z, i, 0) == 0,
    decreases z.len() - i,
{
    if i < z.len() {
        lemma_zeros(z, i + 1);
    }
}

/// The whole number a padded decimal gives is the number.
pub proof fn lemma_padded_value(n: nat, w: nat)
    requires
        n <= u64::MAX,
    ensures
        u64_value(cbytes(padded(n, w))) == Ok::<u64, crate::num::IntError>(n as u64),
{
    lemma_padded_reads(n, w);
    let d = cbytes(padded(n, w));
    assert(is_digit(d[0]));
    lemma_digits_value(d, 0, 0);
}

/// A character of a clock: a decimal digit, a colon or a point.
pub open spec fn clock_char(c: char) -> bool {
    ('0' <= c <= '9') || c == ':' || c == '.'
}

/// Every character of `t` is one of a clock.
pub open spec fn clock_chars(t: Seq<char>) -> bool {
    forall|i: int| 0 <= i < t.len() ==> clock_char(#[trigger] t[i])
}

/// The bytes of a clock text, cut into single bytes: each is its own
/// cluster, none is blank, and only colons and points are delimiters.
#[verifier::rlimit(40)]
proof fn lemma_clock_byte(t: Seq<char>, k: int)
    requires
        clock_chars(t),
        0 <= k < t.len(),
        t.len() <= usize::MAX,
    ensures
        ({
            let b = encode_utf8(t);
            let g = singles(t.len());
            &&& b.len() == t.len()
            &&& b[k] == t[k] as u8
            &&& cluster(b, g, k) == seq![b[k]]
            &&& !blank_at(b, g, k)
            &&& delim_at(b, g, k) == (if b[k] == COLON {
                Some(SwTokenKind::Colon)
            } else if b[k] == DOT {
                Some(SwTokenKind::Dot)
            } else {
                None
            })
            &&& (b[k] != COLON && b[k] != DOT) ==> is_digit(b[k])
        }),
{
    let b = encode_utf8(t);
    let g = singles(t.len());
    assert(is_ascii_chars(t)) by {
        assert forall|i: int| 0 <= i < t.len() implies '\0' <= #[trigger] t[i] <= '\u{7f}' by {
            assert(clock_char(t[i]));
        }
    }
    assert(clock_char(t[k]));
    is_ascii_chars_encode_utf8(t);
    let one = t.subrange(k, k + 1);
    assert(is_ascii_chars(one));
    is_ascii_chars_encode_utf8(one);
    assert(encode_utf8(one) =~= b.subrange(k, k + 1));
    encode_utf8_decode_utf8(one);
    assert(cluster(b, g, k) =~= b.subrange(k, k + 1));
    assert(decode_utf8(cluster(b, g, k)) == one);
    assert(one[0] == t[k]);
    assert(!is_space_char(t[k]));
    assert(cluster(b, g, k) =~= seq![b[k]]);
}

/// The clusters of the single bytes of a text end where the text does.
proof fn lemma_single_edges(b: Seq<u8>, k: int)
    requires
        0 <= k <= b.len(),
        b.len() <= usize::MAX,
    ensures
        edge(b, singles(b.len()), k) == k,
{
}

/// Walking left over a run of digits `a..` that starts the text or follows a
/// delimiter stops at `a`.
proof fn lemma_run_left(t: Seq<char>, a: int, z: int, k: int, lo: int)
    requires
        clock_chars(t),
        t.len() <= usize::MAX,
        0 <= a <= k <= z <= t.len(),
        forall|i: int| a <= i < z ==> is_digit(#[trigger] encode_utf8(t)[i]),
        a > 0 ==> (encode_utf8(t)[a - 1] == COLON || encode_utf8(t)[a - 1] == DOT),
    ensures
        data_left(encode_utf8(t), singles(t.len()), k, lo) == (a, if k > a {
            a
        } else {
            lo
        }),
    decreases k,
{
    let b = encode_utf8(t);
    if k > a {
        lemma_clock_byte(t, k - 1);
        lemma_run_left(t, a, z, k - 1, k - 1);
    } else if a > 0 {
        lemma_clock_byte(t, a - 1);
    }
}

/// A run of digits `a..z` that starts the text or follows a delimiter is
/// one data token.
proof fn lemma_run_token(t: Seq<char>, a: int, z: int)
    requires
        clock_chars(t),
        0 <= a < z <= t.len(),
        t.len() <= usize::MAX,
        forall|i: int| a <= i < z ==> is_digit(#[trigger] encode_utf8(t)[i]),
        a > 0 ==> (encode_utf8(t)[a - 1] == COLON || encode_utf8(t)[a - 1] == DOT),
    ensures
        lex_next(encode_utf8(t), singles(t.len()), z) == Some(
            (Tok { kind: SwTokenKind::Data, start: a as usize, end: z as usize }, a),
        ),
{
    let b = encode_utf8(t);
    lemma_clock_byte(t, z - 1);
    assert(b[z - 1] != COLON && b[z - 1] != DOT);
    lemma_run_left(t, a, z, z - 1, z - 1);
}

/// A colon or point is a token of its own.
proof fn lemma_delim_token(t: Seq<char>, p: int)
    requires
        clock_chars(t),
        0 <= p < t.len(),
        t.len() <= usize::MAX,
        encode_utf8(t)[p] == COLON || encode_utf8(t)[p] == DOT,
    ensures
        lex_next(encode_utf8(t), singles(t.len()), p + 1) == Some(
            (
                Tok {
                    kind: if encode_utf8(t)[p] == COLON {
                        SwTokenKind::Colon
                    } else {
                        SwTokenKind::Dot
                    },
                    start: p as usize,
                    end: (p + 1) as usize,
                },
                p,
            ),
        ),
{
    lemma_clock_byte(t, p);
}

/// Digits read as a fraction with room for them give their value, shifted
/// to the places left.
#[verifier::rlimit(40)]
proof fn lemma_frac_reads(b: Seq<u8>, i: int, hi: int, place: nat, acc: int)
    requires
        0 <= i <= hi <= b.len(),
        b.len() <= usize::MAX,
        forall|k: int| i <= k < hi ==> is_digit(#[trigger] b[k]),
        hi - i <= place <= 9,
        0 <= acc,
        acc + pow(10, place) <= 1_000_000_000,
    ensures
        frac_value(b, singles(b.len()), i, hi, place, acc) == Ok::<u32, ParseFracErr>(
            (acc + fold_digits(b.subrange(i, hi), 0, 0) * pow(10, (place - (hi - i)) as nat)) as u32,
        ),
        acc + fold_digits(b.subrange(i, hi), 0, 0) * pow(10, (place - (hi - i)) as nat) < 1_000_000_000,
    decreases hi - i,
{
    let g = singles(b.len());
    lemma_pow_positive(10, place);
    if i == hi {
        assert(b.subrange(i, hi).len() == 0);
        assert(fold_digits(b.subrange(i, hi), 0, 0) == 0);
        assert(fold_digits(b.subrange(i, hi), 0, 0) * pow(10, (place - (hi - i)) as nat) == 0);
    } else {
        let c = b[i] - DIGIT_ZERO;
        let lower = (place - 1) as nat;
        lemma_pow_step(lower);
        lemma_pow_positive(10, lower);
        assert(cluster(b, g, i) =~= seq![b[i]]);
        let next = acc + c * pow(10, lower);
        assert(c * pow(10, lower) <= 9 * pow(10, lower)) by (nonlinear_arith)
            requires
                0 <= c <= 9,
                pow(10, lower) > 0,
        ;
        lemma_frac_reads(b, i + 1, hi, lower, next);
        let whole = b.subrange(i, hi);
        let rest = b.subrange(i + 1, hi);
        assert(whole =~= seq![b[i]] + rest);
        lemma_fold_concat(seq![b[i]], rest, 0, 0);
        assert(fold_digits(seq![b[i]], 1, c) == c);
        lemma_fold_shift(rest, 0, c);
        let e = (place - (hi - i)) as nat;
        let r = (hi - i - 1) as nat;
        lemma_pow_adds(10, r, e);
        assert(r + e == lower);
        let fr = fold_digits(rest, 0, 0);
        assert((c * pow(10, r) + fr) * pow(10, e) == c * (pow(10, r) * pow(10, e)) + fr * pow(10, e))
            by (nonlinear_arith);
        assert(fold_digits(whole, 0, 0) == c * pow(10, r) + fr);
        assert(acc + fold_digits(whole, 0, 0) * pow(10, e) == next + fr * pow(10, e));
        assert(frac_value(b, g, i, hi, place, acc) == frac_value(b, g, i + 1, hi, lower, next));
        assert((lower - (hi - (i + 1))) as nat == e);
    }
}

/// The digits of a number are characters of a clock.
proof fn lemma_decimal_clock(n: nat)
    ensures
        clock_chars(decimal(n)),
    decreases n,
{
    if n >= 10 {
        lemma_decimal_clock(n / 10);
        let x = decimal(n / 10);
        let c = seq![digit_char((n % 10) as int)];
        assert forall|i: int| 0 <= i < decimal(n).len() implies clock_char(#[trigger] decimal(n)[i]) by {
            if i < x.len() {
                assert(decimal(n)[i] == x[i]);
            } else {
                assert(decimal(n)[i] == c[i - x.len()]);
            }
        }
    }
}

/// A padded number is made of characters of a clock.
proof fn lemma_padded_clock(n: nat, w: nat)
    ensures
        clock_chars(padded(n, w)),
{
    lemma_decimal_clock(n);
}

/// A number below ten to the `k` has at most `k` digits.
proof fn lemma_decimal_fits(n: nat, k: nat)
    requires
        k >= 1,
        n < pow(10, k),
    ensures
        decimal(n).len() <= k,
    decreases k,
{
    lemma_pow_step((k - 1) as nat);
    lemma_pow_positive(10, (k - 1) as nat);
    lemma_decimal_reads(n);
    if n >= 10 {
        if k == 1 {
            reveal(pow);
            assert(pow(10, 1) == 10 * pow(10, 0));
            assert(false);
        }
        let t = pow(10, (k - 1) as nat);
        assert(n / 10 < t) by (nonlinear_arith)
            requires
                n < 10 * t,
        ;
        lemma_decimal_fits(n / 10, (k - 1) as nat);
    }
}

/// The bytes of a clock text are its characters, one byte each.
proof fn lemma_clock_bytes(t: Seq<char>)
    requires
        clock_chars(t),
    ensures
        encode_utf8(t) == cbytes(t),
{
    assert(is_ascii_chars(t)) by {
        assert forall|i: int| 0 <= i < t.len() implies '\0' <= #[trigger] t[i] <= '\u{7f}' by {
            assert(clock_char(t[i]));
        }
    }
    is_ascii_chars_encode_utf8(t);
    assert(encode_utf8(t) =~= cbytes(t));
}

/// Hours, minutes and seconds of a count of seconds add back up to it.
proof fn lemma_clock_fields(x: nat)
    ensures
        (x / 60) / 60 == x / 3600,
        (x / 3600) * 3600 + (x / 60 % 60) * 60 + x % 60 == x,
{
    vstd::arithmetic::div_mod::lemma_div_denominator(x as int, 60, 60);
    vstd::arithmetic::div_mod::lemma_fundamental_div_mod(x as int, 60);
    vstd::arithmetic::div_mod::lemma_fundamental_div_mod((x / 60) as int, 60);
}

/// The duration cut to `prec` places, in nanoseconds.
pub open spec fn truncated(total: nat, prec: nat) -> int {
    let unit = pow(10, (9 - prec) as nat) as nat;
    ((total / 1_000_000_000) * 1_000_000_000 + ((total % 1_000_000_000) / unit) * unit) as int
}

/// The first `prec` digits of the nanoseconds of `total`.
pub open spec fn shown_fraction(total: nat, prec: nat) -> nat {
    (total % 1_000_000_000) / (pow(10, (9 - prec) as nat) as nat)
}

/// `b[lo..hi]` are all digits.
pub open spec fn digits_in(b: Seq<u8>, lo: int, hi: int) -> bool {
    forall|i: int| lo <= i < hi ==> is_digit(#[trigger] b[i])
}

/// Where the fields of a clock text lie: hours in `0..h`, then a colon,
/// two digits of minutes, a colon, two digits of seconds, and for `prec`
/// places a point and `prec` digits; and what each field reads as.
pub open spec fn clock_layout(t: Seq<char>, h: int, total: nat, prec: nat) -> bool {
    let b = encode_utf8(t);
    let n = t.len() as int;
    let secs_all = total / 1_000_000_000;
    &&& clock_tokens(t, h, prec)
    &&& u64_value(b.subrange(0, h)) == Ok::<u64, crate::num::IntError>((secs_all / 3600) as u64)
    &&& u64_value(b.subrange(h + 1, h + 3)) == Ok::<u64, crate::num::IntError>(
        (secs_all / 60 % 60) as u64,
    )
    &&& u64_value(b.subrange(h + 4, h + 6)) == Ok::<u64, crate::num::IntError>(
        (secs_all % 60) as u64,
    )
    &&& prec > 0 ==> fold_digits(b.subrange(h + 7, n), 0, 0) == shown_fraction(total, prec)
}

/// Where the delimiters and digits of a clock text lie.
pub open spec fn clock_tokens(t: Seq<char>, h: int, prec: nat) -> bool {
    let b = encode_utf8(t);
    let n = t.len() as int;
    &&& clock_chars(t)
    &&& n <= usize::MAX
    &&& b.len() == n
    &&& 1 <= h
    &&& b[h] == COLON
    &&& b[h + 3] == COLON
    &&& digits_in(b, 0, h)
    &&& digits_in(b, h + 1, h + 3)
    &&& digits_in(b, h + 4, h + 6)
    &&& if prec == 0 {
        n == h + 6
    } else {
        &&& n == h + 7 + prec
        &&& b[h + 6] == DOT
        &&& digits_in(b, h + 7, n)
    }
}

/// Minutes and seconds take two digits, the fraction `prec`.
#[verifier::rlimit(40)]
proof fn lemma_field_lengths(total: nat, prec: nat)
    requires
        prec <= 9,
    ensures
        padded(total / 1_000_000_000 / 60 % 60, 2).len() == 2,
        padded(total / 1_000_000_000 % 60, 2).len() == 2,
        prec > 0 ==> padded(shown_fraction(total, prec), prec).len() == prec,
        prec == 0 ==> shown_fraction(total, prec) == 0,
{
    let secs_all = total / 1_000_000_000;
    let nanos = total % 1_000_000_000;
    let unit = pow(10, (9 - prec) as nat) as nat;
    let q = nanos / unit;
    lemma_padded_reads(secs_all / 60 % 60, 2);
    lemma_padded_reads(secs_all % 60, 2);
    lemma_padded_reads(q, prec);
    reveal_with_fuel(pow, 10);
    assert(pow(10, 2) == 100);
    assert(pow(10, 9) == 1_000_000_000);
    lemma_decimal_fits(secs_all / 60 % 60, 2);
    lemma_decimal_fits(secs_all % 60, 2);
    if prec > 0 {
        lemma_pow_adds(10, prec, (9 - prec) as nat);
        lemma_pow_positive(10, prec);
        lemma_pow_positive(10, (9 - prec) as nat);
        assert(q < pow(10, prec)) by (nonlinear_arith)
            requires
                nanos < 1_000_000_000,
                1_000_000_000 == pow(10, prec) * unit,
                q == nanos / unit,
                unit > 0,
        ;
        lemma_decimal_fits(q, prec);
    } else {
        assert(unit == 1_000_000_000);
        assert(q == nanos / 1_000_000_000);
    }
}

/// The clock text of a duration has the layout of a clock.
#[verifier::rlimit(40)]
proof fn lemma_layout(total: nat, prec: nat) -> (h: int)
    requires
        total <= max_nanos(),
        prec <= 9,
        encode_utf8(duration_text(total, prec, true)).len() <= usize::MAX,
    ensures
        clock_layout(duration_text(total, prec, true), h, total, prec),
{
    reveal_strlit(":");
    reveal_strlit(".");
    reveal_strlit("");
    let t = duration_text(total, prec, true);
    let secs_all = total / 1_000_000_000;
    let hh = secs_all / 3600;
    let mm = secs_all / 60 % 60;
    let ss = secs_all % 60;
    let q = shown_fraction(total, prec);
    let ph = padded(hh, 2);
    let pm = padded(mm, 2);
    let ps = padded(ss, 2);
    let pq = padded(q, prec);
    assert(secs_all <= u64::MAX) by (nonlinear_arith)
        requires
            total <= u64::MAX as int * 1_000_000_000 + 999_999_999,
            secs_all == total / 1_000_000_000,
    ;
    lemma_field_lengths(total, prec);
    lemma_padded_reads(hh, 2);
    lemma_padded_reads(q, prec);
    let h = ph.len() as int;
    if prec > 0 {
        assert(t == ph + ":"@ + pm + ":"@ + ps + ("."@ + pq));
        assert(t =~= ph + seq![':'] + pm + seq![':'] + ps + (seq!['.'] + pq));
    } else {
        assert(t == ph + ":"@ + pm + ":"@ + ps + ""@);
        assert(t =~= ph + seq![':'] + pm + seq![':'] + ps + Seq::<char>::empty());
    }
    lemma_padded_clock(hh, 2);
    lemma_padded_clock(mm, 2);
    lemma_padded_clock(ss, 2);
    lemma_padded_clock(q, prec);
    assert(clock_chars(t)) by {
        assert forall|i: int| 0 <= i < t.len() implies clock_char(#[trigger] t[i]) by {
            if i < h {
                assert(t[i] == ph[i]);
            } else if i == h || i == h + 3 || i == h + 6 {
            } else if i < h + 3 {
                assert(t[i] == pm[i - h - 1]);
            } else if i < h + 6 {
                assert(t[i] == ps[i - h - 4]);
            } else {
                assert(t[i] == pq[i - h - 7]);
            }
        }
    }
    lemma_clock_bytes(t);
    assert(t.len() <= usize::MAX);
    lemma_layout_bytes(t, h, total, prec);
    h
}

/// The bytes of the fields of a clock text read as the fields.
#[verifier::rlimit(40)]
proof fn lemma_layout_bytes(t: Seq<char>, h: int, total: nat, prec: nat)
    requires
        total <= max_nanos(),
        prec <= 9,
        t.len() <= usize::MAX,
        clock_chars(t),
        encode_utf8(t) == cbytes(t),
        h == padded(total / 1_000_000_000 / 3600, 2).len(),
        t == padded(total / 1_000_000_000 / 3600, 2) + seq![':'] + padded(
            total / 1_000_000_000 / 60 % 60,
            2,
        ) + seq![':'] + padded(total / 1_000_000_000 % 60, 2) + (if prec == 0 {
            Seq::<char>::empty()
        } else {
            seq!['.'] + padded(shown_fraction(total, prec), prec)
        }),
    ensures
        clock_layout(t, h, total, prec),
{
    let secs_all = total / 1_000_000_000;
    let hh = secs_all / 3600;
    let mm = secs_all / 60 % 60;
    let ss = secs_all % 60;
    let q = shown_fraction(total, prec);
    let ph = padded(hh, 2);
    let pm = padded(mm, 2);
    let ps = padded(ss, 2);
    let pq = padded(q, prec);
    assert(secs_all <= u64::MAX) by (nonlinear_arith)
        requires
            total <= u64::MAX as int * 1_000_000_000 + 999_999_999,
            secs_all == total / 1_000_000_000,
    ;
    lemma_field_lengths(total, prec);
    lemma_padded_reads(hh, 2);
    lemma_padded_reads(mm, 2);
    lemma_padded_reads(ss, 2);
    lemma_padded_reads(q, prec);
    let b = encode_utf8(t);
    let n = t.len() as int;
    assert(b.subrange(0, h) =~= cbytes(ph));
    assert(b.subrange(h + 1, h + 3) =~= cbytes(pm));
    assert(b.subrange(h + 4, h + 6) =~= cbytes(ps));
    assert forall|i: int| 0 <= i < h implies is_digit(#[trigger] b[i]) by {
        assert(b[i] == cbytes(ph)[i]);
    }
    assert forall|i: int| h + 1 <= i < h + 3 implies is_digit(#[trigger] b[i]) by {
        assert(b[i] == cbytes(pm)[i - h - 1]);
    }
    assert forall|i: int| h + 4 <= i < h + 6 implies is_digit(#[trigger] b[i]) by {
        assert(b[i] == cbytes(ps)[i - h - 4]);
    }
    lemma_padded_value(hh, 2);
    lemma_padded_value(mm, 2);
    lemma_padded_value(ss, 2);
    if prec > 0 {
        assert(b.subrange(h + 7, n) =~= cbytes(pq));
        assert forall|i: int| h + 7 <= i < n implies is_digit(#[trigger] b[i]) by {
            assert(b[i] == cbytes(pq)[i - h - 7]);
        }
    }
}

/// The state after the tokens of a clock text.
pub open spec fn clock_scan(h: int, n: int, prec: nat) -> Scan {
    Scan {
        cur: Group::Hours,
        hours: (0usize, h as usize),
        minutes: ((h + 1) as usize, (h + 3) as usize),
        secs: ((h + 4) as usize, (h + 6) as usize),
        subsecs: if prec > 0 {
            ((h + 7) as usize, n as usize)
        } else {
            (0usize, 0usize)
        },
        is_neg: None,
        neg: (0usize, 0usize),
    }
}

/// The hours, minutes and seconds of a clock text, read from the colon
/// before the minutes, fill the state.
#[verifier::rlimit(40)]
proof fn lemma_clock_scan_head(t: Seq<char>, h: int, prec: nat, st: Scan)
    requires
        clock_tokens(t, h, prec),
        st.cur == Group::SecondsInt,
        st.is_neg is None,
        st.neg == (0usize, 0usize),
        st.secs == ((h + 4) as usize, (h + 6) as usize),
    ensures
        scan(encode_utf8(t), singles(t.len()), h + 4, st) == Ok::<Scan, Failure>(
            Scan {
                cur: Group::Hours,
                hours: (0usize, h as usize),
                minutes: ((h + 1) as usize, (h + 3) as usize),
                ..st
            },
        ),
{
    let b = encode_utf8(t);
    let g = singles(t.len());
    lemma_delim_token(t, h + 3);
    lemma_run_token(t, h + 1, h + 3);
    lemma_delim_token(t, h);
    lemma_run_token(t, 0, h);
    assert(lex_next(b, g, 0) is None);
    let st4 = Scan { cur: Group::Minutes, ..st };
    let st5 = Scan { minutes: ((h + 1) as usize, (h + 3) as usize), ..st4 };
    let st6 = Scan { cur: Group::Hours, ..st5 };
    let st7 = Scan { hours: (0usize, h as usize), ..st6 };
    assert(scan(b, g, h + 4, st) == scan(b, g, h + 3, st4));
    assert(scan(b, g, h + 3, st4) == scan(b, g, h + 1, st5));
    assert(scan(b, g, h + 1, st5) == scan(b, g, h, st6));
    assert(scan(b, g, h, st6) == scan(b, g, 0, st7));
}

/// The tokens of a clock text fill the fields as its layout says.
#[verifier::rlimit(40)]
proof fn lemma_clock_scan(t: Seq<char>, h: int, prec: nat)
    requires
        clock_tokens(t, h, prec),
    ensures
        scan(encode_utf8(t), singles(t.len()), t.len() as int, scan_start()) == Ok::<Scan, Failure>(
            clock_scan(h, t.len() as int, prec),
        ),
{
    let b = encode_utf8(t);
    let g = singles(t.len());
    let n = t.len() as int;
    lemma_run_token(t, h + 4, h + 6);
    lemma_delim_token(t, h + 3);
    let st0 = scan_start();
    if prec > 0 {
        lemma_run_token(t, h + 7, n);
        lemma_delim_token(t, h + 6);
        let st1 = Scan { subsecs: ((h + 7) as usize, n as usize), ..st0 };
        let st2 = Scan { cur: Group::SecondsInt, ..st1 };
        let st3 = Scan { secs: ((h + 4) as usize, (h + 6) as usize), ..st2 };
        assert(scan(b, g, n, st0) == scan(b, g, h + 7, st1));
        assert(scan(b, g, h + 7, st1) == scan(b, g, h + 6, st2));
        assert(scan(b, g, h + 6, st2) == scan(b, g, h + 4, st3));
        lemma_clock_scan_head(t, h, prec, st3);
    } else {
        let st1 = Scan { subsecs: ((h + 4) as usize, (h + 6) as usize), ..st0 };
        let st2 = Scan {
            cur: Group::SecondsInt,
            secs: ((h + 4) as usize, (h + 6) as usize),
            subsecs: (0usize, 0usize),
            ..st1
        };
        let st2m = Scan { cur: Group::Minutes, ..st2 };
        assert(scan(b, g, n, st0) == scan(b, g, h + 4, st1));
        assert(scan(b, g, h + 4, st1) == scan(b, g, h + 3, st2m));
        lemma_clock_scan_head(t, h, prec, st2);
        lemma_run_token(t, h + 1, h + 3);
        assert(scan(b, g, h + 4, st2) == scan(b, g, h + 3, st2m));
    }
}

/// The clock text of a duration is printable ASCII.
pub proof fn lemma_clock_printable(total: nat, prec: nat)
    requires
        total <= max_nanos(),
        prec <= 9,
        encode_utf8(duration_text(total, prec, true)).len() <= usize::MAX,
    ensures
        printable(encode_utf8(duration_text(total, prec, true))),
{
    let t = duration_text(total, prec, true);
    let h = lemma_layout(total, prec);
    let b = encode_utf8(t);
    assert forall|k: int| 0 <= k < b.len() implies 0x20 <= #[trigger] b[k] <= 0x7e by {
        lemma_clock_byte(t, k);
    }
}

/// The duration cut to `prec` places lies less than one place below it.
pub proof fn lemma_truncated_close(total: nat, prec: nat)
    requires
        prec <= 9,
    ensures
        truncated(total, prec) <= total < truncated(total, prec) + pow(10, (9 - prec) as nat),
{
    let unit = pow(10, (9 - prec) as nat) as nat;
    lemma_pow_positive(10, (9 - prec) as nat);
    let nanos = total % 1_000_000_000;
    vstd::arithmetic::div_mod::lemma_fundamental_div_mod(total as int, 1_000_000_000);
    vstd::arithmetic::div_mod::lemma_fundamental_div_mod(nanos as int, unit as int);
    vstd::arithmetic::div_mod::lemma_mod_bound(nanos as int, unit as int);
    assert(unit as int == pow(10, (9 - prec) as nat));
    assert(total == (total / 1_000_000_000) * 1_000_000_000 + nanos);
    assert(nanos == (nanos / unit) * unit + nanos % unit);
    assert(truncated(total, prec) == (total / 1_000_000_000) * 1_000_000_000 + (nanos / unit) * unit);
}

/// The clock text of a duration, cut into single bytes, reads back in the
/// colon grammar as the duration cut to the places shown, and positive.
pub proof fn lemma_clock_reads_back(total: nat, prec: nat)
    requires
        total <= max_nanos(),
        prec <= 9,
        encode_utf8(duration_text(total, prec, true)).len() <= usize::MAX,
        grapheme_spans(encode_utf8(duration_text(total, prec, true))) == singles(
            encode_utf8(duration_text(total, prec, true)).len(),
        ),
    ensures
        forall|allow_neg: bool|
            sw_model(encode_utf8(duration_text(total, prec, true)), allow_neg) == Ok::<
                (int, bool),
                Failure,
            >((truncated(total, prec), false)),
        forall|allow_neg: bool|
            parse_model(encode_utf8(duration_text(total, prec, true)), allow_neg) == Some(
                Ok::<(int, bool), Failure>((truncated(total, prec), false)),
            ),
{
    assert forall|allow_neg: bool|
        sw_model(encode_utf8(duration_text(total, prec, true)), allow_neg) == Ok::<
            (int, bool),
            Failure,
        >((truncated(total, prec), false)) && parse_model(
            encode_utf8(duration_text(total, prec, true)),
            allow_neg,
        ) == Some(Ok::<(int, bool), Failure>((truncated(total, prec), false))) by {
        lemma_clock_model(total, prec, allow_neg);
    }
}

/// The fields of a clock text add up to the whole seconds, and the fraction
/// to the nanoseconds shown.
#[verifier::rlimit(40)]
proof fn lemma_clock_values(t: Seq<char>, h: int, total: nat, prec: nat)
    requires
        total <= max_nanos(),
        prec <= 9,
        clock_layout(t, h, total, prec),
    ensures
        ({
            let b = encode_utf8(t);
            let g = singles(t.len());
            let secs_all = total / 1_000_000_000;
            let hs = (secs_all / 3600) * 3600;
            let ms = hs + (secs_all / 60 % 60) * 60;
            &&& add_whole(b, g, (0usize, h as usize), Group::Hours, 3600, 0) == Ok::<int, Failure>(
                hs as int,
            )
            &&& add_whole(b, g, ((h + 1) as usize, (h + 3) as usize), Group::Minutes, 60, hs as int)
                == Ok::<int, Failure>(ms as int)
            &&& add_whole(b, g, ((h + 4) as usize, (h + 6) as usize), Group::SecondsInt, 1, ms as int)
                == Ok::<int, Failure>(secs_all as int)
        }),
{
    let b = encode_utf8(t);
    let secs_all = total / 1_000_000_000;
    lemma_clock_fields(secs_all);
    assert(secs_all <= u64::MAX) by (nonlinear_arith)
        requires
            total <= u64::MAX as int * 1_000_000_000 + 999_999_999,
            secs_all == total / 1_000_000_000,
    ;
    lemma_single_edges(b, 0);
    lemma_single_edges(b, h);
    lemma_single_edges(b, h + 1);
    lemma_single_edges(b, h + 3);
    lemma_single_edges(b, h + 4);
    lemma_single_edges(b, h + 6);
}

/// The fraction of a clock text adds the nanoseconds shown.
#[verifier::rlimit(40)]
proof fn lemma_clock_fraction(t: Seq<char>, h: int, total: nat, prec: nat)
    requires
        total <= max_nanos(),
        prec <= 9,
        clock_layout(t, h, total, prec),
    ensures
        ({
            let b = encode_utf8(t);
            let g = singles(t.len());
            let secs_all = total / 1_000_000_000;
            add_fraction(b, g, clock_scan(h, t.len() as int, prec).subsecs, secs_all as int) == Ok::<
                int,
                Failure,
            >(truncated(total, prec))
        }),
{
    let b = encode_utf8(t);
    let g = singles(t.len());
    let n = t.len() as int;
    let secs_all = total / 1_000_000_000;
    let nanos = total % 1_000_000_000;
    let unit = pow(10, (9 - prec) as nat) as nat;
    let q = nanos / unit;
    assert(secs_all <= u64::MAX) by (nonlinear_arith)
        requires
            total <= u64::MAX as int * 1_000_000_000 + 999_999_999,
            secs_all == total / 1_000_000_000,
    ;
    reveal_with_fuel(pow, 10);
    lemma_pow_positive(10, (9 - prec) as nat);
    assert(q * unit <= nanos) by (nonlinear_arith)
        requires
            q == nanos / unit,
            unit > 0,
    ;
    if prec > 0 {
        lemma_single_edges(b, h + 7);
        lemma_single_edges(b, n);
        lemma_frac_reads(b, h + 7, n, 9, 0);
    } else {
        lemma_field_lengths(total, prec);
        assert(q * unit == 0) by (nonlinear_arith)
            requires
                q == 0,
        ;
    }
}

/// The clock text reads back with either choice on negative values.
#[verifier::rlimit(40)]
proof fn lemma_clock_model(total: nat, prec: nat, allow_neg: bool)
    requires
        total <= max_nanos(),
        prec <= 9,
        encode_utf8(duration_text(total, prec, true)).len() <= usize::MAX,
        grapheme_spans(encode_utf8(duration_text(total, prec, true))) == singles(
            encode_utf8(duration_text(total, prec, true)).len(),
        ),
    ensures
        sw_model(encode_utf8(duration_text(total, prec, true)), allow_neg) == Ok::<
            (int, bool),
            Failure,
        >((truncated(total, prec), false)),
        parse_model(encode_utf8(duration_text(total, prec, true)), allow_neg) == Some(
            Ok::<(int, bool), Failure>((truncated(total, prec), false)),
        ),
{
    let t = duration_text(total, prec, true);
    let h = lemma_layout(total, prec);
    lemma_clock_scan(t, h, prec);
    lemma_clock_values(t, h, total, prec);
    lemma_clock_fraction(t, h, total, prec);
    let b = encode_utf8(t);
    let g = singles(t.len());
    let n = t.len() as int;
    let st = clock_scan(h, n, prec);
    assert(grapheme_spans(b) == g);
    assert(g.len() == n);
    assert(scan(b, g, n, scan_start()) == Ok::<Scan, Failure>(st));
    assert(has_colon(b));
}

} // verus!
