//! Decimal numbers: whole numbers as `u64`'s `FromStr` reads them, and
//! fractions read digit by digit into a fixed number of decimal places.

use crate::text::{cluster, edge, grapheme_spans, graphemes, lemma_cluster_bounds, tiles};
use vstd::arithmetic::power::{lemma_pow_increases, lemma_pow_positive, pow};
use vstd::prelude::*;
use vstd::string::*;
use vstd::utf8::*;

verus! {

broadcast use {encode_utf8_valid_utf8, vstd::slice::axiom_spec_len};

/// The byte of `'0'`.
pub const DIGIT_ZERO: u8 = 0x30;

/// The byte of `'9'`.
pub const DIGIT_NINE: u8 = 0x39;

/// The byte of `'+'`.
pub const PLUS: u8 = 0x2b;

/// The byte of `'-'`.
pub const MINUS: u8 = 0x2d;

/// Why text is not a whole number.
#[derive(Clone, Copy, Debug, PartialEq, Eq, Structural)]
pub enum IntError {
    /// There is no text.
    Empty,
    /// A character is not a decimal digit.
    InvalidDigit,
    /// The number is too large for its type.
    PosOverflow,
}

impl IntError {
    /// The description of the error that the standard library gives.
    pub fn message(&self) -> (r: &'static str)
        ensures
            r@ == match self {
                IntError::Empty => "cannot parse integer from empty string"@,
                IntError::InvalidDigit => "invalid digit found in string"@,
                IntError::PosOverflow => "number too large to fit in target type"@,
            },
    {
        match self {
            IntError::Empty => "cannot parse integer from empty string",
            IntError::InvalidDigit => "invalid digit found in string",
            IntError::PosOverflow => "number too large to fit in target type",
        }
    }
}

/// An ASCII decimal digit.
pub open spec fn is_digit(c: u8) -> bool {
    DIGIT_ZERO <= c <= DIGIT_NINE
}

/// Reads the digits of `d` from `i` on onto `acc`, left to right; the first
/// byte that is not a digit, or the first digit that takes the value past
/// `u64::MAX`, decides the error.
pub open spec fn digits_value(d: Seq<u8>, i: int, acc: int) -> Result<u64, IntError>
    decreases d.len() - i,
{
    if i >= d.len() {
        Ok(acc as u64)
    } else if !is_digit(d[i]) {
        Err(IntError::InvalidDigit)
    } else if acc * 10 + (d[i] - DIGIT_ZERO) > u64::MAX {
        Err(IntError::PosOverflow)
    } else {
        digits_value(d, i + 1, acc * 10 + (d[i] - DIGIT_ZERO))
    }
}

/// `u64::from_str`: an optional `+` and then decimal digits; a sign alone is
/// no number.
pub open spec fn u64_value(d: Seq<u8>) -> Result<u64, IntError> {
    if d.len() == 0 {
        Err(IntError::Empty)
    } else if d.len() == 1 && (d[0] == PLUS || d[0] == MINUS) {
        Err(IntError::InvalidDigit)
    } else if d[0] == PLUS {
        digits_value(d, 1, 0)
    } else {
        digits_value(d, 0, 0)
    }
}

/// Reads `b[start..end]` as `u64::from_str` does.
pub fn parse_u64(b: &[u8], start: usize, end: usize) -> (r: Result<u64, IntError>)
    requires
        start <= end <= b@.len(),
    ensures
        r == u64_value(b@.subrange(start as int, end as int)),
{
    let ghost d = b@.subrange(start as int, end as int);
    if start == end {
        return Err(IntError::Empty);
    }
    if end - start == 1 && (b[start] == PLUS || b[start] == MINUS) {
        return Err(IntError::InvalidDigit);
    }
    let mut i: usize = if b[start] == PLUS {
        start + 1
    } else {
        start
    };
    let mut acc: u64 = 0;
    while i < end
        invariant
            start <= i <= end <= b@.len(),
            d == b@.subrange(start as int, end as int),
            u64_value(d) == digits_value(d, i - start, acc as int),
        decreases end - i,
    {
        let c = b[i];
        assert(c == d[i - start]);
        if c < DIGIT_ZERO || c > DIGIT_NINE {
            return Err(IntError::InvalidDigit);
        }
        let v: u64 = (c - DIGIT_ZERO) as u64;
        if acc > (u64::MAX - v) / 10 {
            assert(acc * 10 + v > u64::MAX) by (nonlinear_arith)
                requires
                    acc > (u64::MAX - v) / 10,
                    v <= 9,
            ;
            return Err(IntError::PosOverflow);
        }
        assert(acc * 10 + v <= u64::MAX) by (nonlinear_arith)
            requires
                acc <= (u64::MAX - v) / 10,
                v <= 9,
        ;
        acc = acc * 10 + v;
        i = i + 1;
    }
    Ok(acc)
}

/// Why text is not a fraction.
#[derive(Clone, Copy, Debug, PartialEq, Eq, Structural)]
pub enum ParseFracErr {
    /// The cluster of `len` bytes at byte `idx` is not a decimal digit.
    ParseDigit { idx: usize, len: usize, err: IntError },
    /// Adding the digit at byte `idx` takes the numerator past `u32::MAX`.
    NumeratorOverflow { idx: usize },
}

/// Reads clusters `i..hi` of `b` as digits of a fraction: a digit at
/// `place` places above the last one kept is worth its value times ten to
/// the `place - 1`; digits past the kept places are checked and dropped.
pub open spec fn frac_value(
    b: Seq<u8>,
    g: Seq<(usize, usize)>,
    i: int,
    hi: int,
    place: nat,
    acc: int,
) -> Result<u32, ParseFracErr>
    decreases hi - i,
{
    if i >= hi || i >= g.len() || i < 0 {
        Ok(acc as u32)
    } else {
        let c = cluster(b, g, i);
        if !(c.len() == 1 && is_digit(c[0])) {
            Err(ParseFracErr::ParseDigit { idx: g[i].0, len: g[i].1, err: IntError::InvalidDigit })
        } else if place == 0 {
            frac_value(b, g, i + 1, hi, 0, acc)
        } else {
            let next = acc + (c[0] - DIGIT_ZERO) * pow(10, (place - 1) as nat);
            if next > u32::MAX {
                Err(ParseFracErr::NumeratorOverflow { idx: g[i].0 })
            } else {
                frac_value(b, g, i + 1, hi, (place - 1) as nat, next)
            }
        }
    }
}

/// The numerator of the fraction that the digits of `s` give over
/// `10^places`, with excess digits dropped.
pub open spec fn frac_of(s: Seq<u8>, places: nat) -> Result<u32, ParseFracErr> {
    frac_value(s, grapheme_spans(s), 0, grapheme_spans(s).len() as int, places, 0)
}

/// One more power of ten is ten times as much.
pub proof fn lemma_pow_step(e: nat)
    ensures
        pow(10, e + 1) == 10 * pow(10, e),
        pow(10, 0) == 1,
{
    reveal(pow);
    assert(pow(10, e + 1) == 10 * pow(10, ((e + 1) - 1) as nat));
}

/// `d * 10^k` where it fits in `u32`.
fn scaled(d: u32, k: u32) -> (r: Option<u32>)
    requires
        d <= 9,
    ensures
        r == (if d * pow(10, k as nat) <= u32::MAX {
            Some((d * pow(10, k as nat)) as u32)
        } else {
            None
        }),
{
    if d == 0 {
        return Some(0);
    }
    let mut v: u32 = d;
    let mut j: u32 = 0;
    proof {
        lemma_pow_step(0);
    }
    while j < k
        invariant
            1 <= d <= 9,
            j <= k,
            v == d * pow(10, j as nat),
        decreases k - j,
    {
        proof {
            lemma_pow_step(j as nat);
        }
        if v > u32::MAX / 10 {
            proof {
                assert(v * 10 > u32::MAX) by (nonlinear_arith)
                    requires
                        v > u32::MAX / 10,
                ;
                assert(v * 10 == d * pow(10, (j + 1) as nat)) by (nonlinear_arith)
                    requires
                        v == d * pow(10, j as nat),
                        pow(10, (j + 1) as nat) == 10 * pow(10, j as nat),
                ;
                lemma_pow_increases(10, (j + 1) as nat, k as nat);
                assert(d * pow(10, (j + 1) as nat) <= d * pow(10, k as nat)) by (nonlinear_arith)
                    requires
                        pow(10, (j + 1) as nat) <= pow(10, k as nat),
                        d >= 1,
                ;
            }
            return None;
        }
        assert(v * 10 == d * pow(10, (j + 1) as nat)) by (nonlinear_arith)
            requires
                v == d * pow(10, j as nat),
                pow(10, (j + 1) as nat) == 10 * pow(10, j as nat),
        ;
        v = v * 10;
        j = j + 1;
    }
    Some(v)
}

/// Reads clusters `lo..hi` of the line `b` as the digits of a fraction with
/// `places` decimal places; see `frac_value`. A cluster that is no digit is
/// reported as one cluster of the line.
pub fn frac_digits(b: &[u8], s: &str, g: &Vec<(usize, usize)>, lo: usize, hi: usize, places: u8) -> (r:
    Result<u32, ParseFracErr>)
    requires
        b@ == s.spec_bytes(),
        tiles(b@, g@),
        lo <= hi <= g@.len(),
    ensures
        r == frac_value(b@, g@, lo as int, hi as int, places as nat, 0),
        r matches Err(ParseFracErr::ParseDigit { idx, len, .. }) ==> exists|i: int|
            lo <= i < hi && idx == #[trigger] edge(b@, g@, i) && idx + len == edge(b@, g@, i + 1),
{
    let ghost sb = b@;
    let mut i: usize = lo;
    let mut place: u32 = places as u32;
    let mut acc: u32 = 0;
    proof {
        encode_utf8_valid_utf8(s@);
    }
    while i < hi
        invariant
            sb == b@,
            sb == s.spec_bytes(),
            valid_utf8(sb),
            tiles(sb, g@),
            lo <= i <= hi <= g@.len(),
            place <= 255,
            frac_value(sb, g@, lo as int, hi as int, places as nat, 0) == frac_value(
                sb,
                g@,
                i as int,
                hi as int,
                place as nat,
                acc as int,
            ),
        decreases hi - i,
    {
        let (idx, len) = g[i];
        proof {
            lemma_cluster_bounds(sb, g@, i as int);
        }
        let ghost c = cluster(sb, g@, i as int);
        if len != 1 || b[idx] < DIGIT_ZERO || b[idx] > DIGIT_NINE {
            assert(!(c.len() == 1 && is_digit(c[0])));
            return Err(ParseFracErr::ParseDigit { idx, len, err: IntError::InvalidDigit });
        }
        assert(c[0] == b[idx as int]);
        if place > 0 {
            let d: u32 = (b[idx] - DIGIT_ZERO) as u32;
            proof {
                lemma_pow_positive(10, (place - 1) as nat);
                assert(d * pow(10, (place - 1) as nat) >= 0) by (nonlinear_arith)
                    requires
                        pow(10, (place - 1) as nat) > 0,
                        d >= 0,
                ;
            }
            match scaled(d, place - 1) {
                None => {
                    return Err(ParseFracErr::NumeratorOverflow { idx });
                },
                Some(t) => {
                    if acc > u32::MAX - t {
                        return Err(ParseFracErr::NumeratorOverflow { idx });
                    }
                    acc = acc + t;
                },
            }
            place = place - 1;
        }
        i = i + 1;
    }
    Ok(acc)
}

/// Reads the digits of `s` as a fraction with `places` decimal places: the
/// numerator over `10^places`, excess digits dropped. Each grapheme cluster
/// must be one decimal digit.
pub fn parse_frac(s: &str, places: u8) -> (r: Result<u32, ParseFracErr>)
    ensures
        r == frac_of(s.spec_bytes(), places as nat),
{
    let g = graphemes(s);
    let b = s.as_bytes();
    frac_digits(b, s, &g, 0, g.len(), places)
}

/// With at most nine places and room for what they can add, a fraction stays
/// below `10^9` and its numerator never overflows.
pub proof fn lemma_frac_nano(
    b: Seq<u8>,
    g: Seq<(usize, usize)>,
    i: int,
    hi: int,
    place: nat,
    acc: int,
)
    requires
        place <= 9,
        0 <= acc,
        acc + pow(10, place) <= 1_000_000_000,
    ensures
        frac_value(b, g, i, hi, place, acc) matches Ok(v) ==> v < 1_000_000_000,
        !(frac_value(b, g, i, hi, place, acc) is Err && frac_value(b, g, i, hi, place, acc)->Err_0 is NumeratorOverflow),
    decreases hi - i,
{
    lemma_pow_positive(10, place);
    if 0 <= i < hi && i < g.len() {
        let c = cluster(b, g, i);
        if c.len() == 1 && is_digit(c[0]) {
            if place == 0 {
                lemma_frac_nano(b, g, i + 1, hi, 0, acc);
            } else {
                let lower = (place - 1) as nat;
                lemma_pow_step(lower);
                let d = c[0] - DIGIT_ZERO;
                assert(d * pow(10, lower) <= 9 * pow(10, lower)) by (nonlinear_arith)
                    requires
                        0 <= d <= 9,
                        pow(10, lower) >= 0,
                ;
                lemma_frac_nano(b, g, i + 1, hi, lower, acc + d * pow(10, lower));
            }
        }
    }
}

/// A fraction read to nine places is below one second.
pub proof fn lemma_frac_nine(b: Seq<u8>, g: Seq<(usize, usize)>, lo: int, hi: int)
    ensures
        frac_value(b, g, lo, hi, 9, 0) matches Ok(v) ==> v < 1_000_000_000,
{
    reveal_with_fuel(pow, 10);
    assert(pow(10, 9) == 1_000_000_000);
    lemma_frac_nano(b, g, lo, hi, 9, 0);
}

} // verus!
