//! Writing a duration out for the user, either as a clock (`HH:MM:SS.ff`)
//! or in words.

use crate::duration::Duration;
use crate::parse::{parse_model, Failure};
use crate::reread::{lemma_clock_printable, lemma_clock_reads_back, lemma_truncated_close, truncated};
use crate::sw::sw_model;
use crate::text::{byte_len, graphemes};
use vstd::arithmetic::power::pow;
use vstd::utf8::*;
use vstd::prelude::*;
use vstd::string::*;

verus! {

/// Decimal places shown when none are asked for.
pub const DEFAULT_PRECISION: u8 = 2;

/// The most decimal places a duration can be shown with: nanoseconds.
pub const MAX_PRECISION: u8 = 9;

/// The character of the decimal digit `d`.
pub open spec fn digit_char(d: int) -> char {
    if d == 0 {
        '0'
    } else if d == 1 {
        '1'
    } else if d == 2 {
        '2'
    } else if d == 3 {
        '3'
    } else if d == 4 {
        '4'
    } else if d == 5 {
        '5'
    } else if d == 6 {
        '6'
    } else if d == 7 {
        '7'
    } else if d == 8 {
        '8'
    } else {
        '9'
    }
}

/// `n` in decimal, without leading zeros.
pub open spec fn decimal(n: nat) -> Seq<char>
    decreases n,
{
    if n < 10 {
        seq![digit_char(n as int)]
    } else {
        decimal(n / 10) + seq![digit_char((n % 10) as int)]
    }
}

/// `n` in decimal, with zeros in front up to `w` digits.
pub open spec fn padded(n: nat, w: nat) -> Seq<char> {
    let d = decimal(n);
    if d.len() < w {
        Seq::new((w - d.len()) as nat, |i: int| '0') + d
    } else {
        d
    }
}

/// `"s"` but for one.
pub open spec fn plural(n: nat) -> Seq<char> {
    if n == 1 {
        ""@
    } else {
        "s"@
    }
}

/// The fraction of a second shown at `prec` places: a point and the first
/// `prec` digits of the nanoseconds, nothing at zero places.
pub open spec fn fraction_text(nanos: nat, prec: nat) -> Seq<char> {
    if prec == 0 {
        ""@
    } else {
        "."@ + padded(nanos / pow(10, (9 - prec) as nat) as nat, prec)
    }
}

/// A duration of `total` nanoseconds at `prec` places: as a clock with
/// hours, minutes and seconds of two digits or more, or in words, leaving
/// out hours and minutes that are zero.
pub open spec fn duration_text(total: nat, prec: nat, clock: bool) -> Seq<char> {
    let secs_all = total / 1_000_000_000;
    let nanos = total % 1_000_000_000;
    let hours = secs_all / 3600;
    let mins = secs_all / 60 % 60;
    let secs = secs_all % 60;
    if clock {
        padded(hours, 2) + ":"@ + padded(mins, 2) + ":"@ + padded(secs, 2) + fraction_text(
            nanos,
            prec,
        )
    } else {
        (if hours != 0 {
            decimal(hours) + " hour"@ + plural(hours) + ", "@
        } else {
            ""@
        }) + (if mins != 0 {
            decimal(mins) + " minute"@ + plural(mins) + ", "@
        } else {
            ""@
        }) + decimal(secs) + fraction_text(nanos, prec) + " second"@ + (if prec == 0 {
            plural(secs)
        } else {
            "s"@
        })
    }
}

/// The text of the digit `d`.
fn digit_str(d: u64) -> (r: &'static str)
    requires
        d < 10,
    ensures
        r@ == seq![digit_char(d as int)],
{
    proof {
        reveal_strlit("0");
        reveal_strlit("1");
        reveal_strlit("2");
        reveal_strlit("3");
        reveal_strlit("4");
        reveal_strlit("5");
        reveal_strlit("6");
        reveal_strlit("7");
        reveal_strlit("8");
        reveal_strlit("9");
    }
    let r = if d == 0 {
        "0"
    } else if d == 1 {
        "1"
    } else if d == 2 {
        "2"
    } else if d == 3 {
        "3"
    } else if d == 4 {
        "4"
    } else if d == 5 {
        "5"
    } else if d == 6 {
        "6"
    } else if d == 7 {
        "7"
    } else if d == 8 {
        "8"
    } else {
        "9"
    };
    assert(r@ =~= seq![digit_char(d as int)]);
    r
}

/// Appends `n` in decimal.
fn push_decimal(out: &mut String, n: u64)
    ensures
        final(out)@ == old(out)@ + decimal(n as nat),
    decreases n,
{
    if n >= 10 {
        push_decimal(out, n / 10);
    }
    out.append(digit_str(n % 10));
    assert(final(out)@ =~= old(out)@ + decimal(n as nat));
}

/// The number of digits of `n` in decimal.
fn decimal_len(n: u64) -> (r: usize)
    ensures
        r == decimal(n as nat).len(),
    decreases n,
{
    if n >= 10 {
        let k = decimal_len(n / 10);
        proof {
            lemma_decimal_short(n as nat / 10);
        }
        k + 1
    } else {
        1
    }
}

/// Ten to the `k`.
spec fn ten_to(k: nat) -> nat
    decreases k,
{
    if k == 0 {
        1
    } else {
        10 * ten_to((k - 1) as nat)
    }
}

/// A number below ten to the `k` has at most `k` digits.
proof fn lemma_decimal_digits(n: nat, k: nat)
    requires
        k >= 1,
        n < ten_to(k),
    ensures
        decimal(n).len() <= k,
    decreases k,
{
    lemma_decimal_len(n);
    reveal_with_fuel(ten_to, 2);
    if n >= 10 {
        assert(k >= 2);
        let t = ten_to((k - 1) as nat);
        assert(n / 10 < t) by (nonlinear_arith)
            requires
                n < 10 * t,
        ;
        lemma_decimal_digits(n / 10, (k - 1) as nat);
    }
}

/// Decimals of a `u64` have at most twenty digits.
proof fn lemma_decimal_short(n: nat)
    requires
        n <= u64::MAX,
    ensures
        decimal(n).len() <= 20,
{
    reveal_with_fuel(ten_to, 21);
    assert(ten_to(20) == 100_000_000_000_000_000_000);
    lemma_decimal_digits(n, 20);
}

/// A decimal has one digit more than that of a tenth of its number.
proof fn lemma_decimal_len(n: nat)
    ensures
        decimal(n).len() >= 1,
        n >= 10 ==> decimal(n).len() == decimal(n / 10).len() + 1,
    decreases n,
{
    if n >= 10 {
        lemma_decimal_len(n / 10);
    }
}

/// Appends `n` in decimal, with zeros in front up to `w` digits.
fn push_padded(out: &mut String, n: u64, w: usize)
    ensures
        final(out)@ == old(out)@ + padded(n as nat, w as nat),
{
    let k = decimal_len(n);
    let ghost start = out@;
    if k < w {
        let mut i: usize = 0;
        while i < w - k
            invariant
                k < w,
                i <= w - k,
                out@ == start + Seq::new(i as nat, |j: int| '0'),
            decreases w - k - i,
        {
            proof {
                reveal_strlit("0");
            }
            out.append("0");
            i = i + 1;
            assert(out@ =~= start + Seq::new(i as nat, |j: int| '0'));
        }
    }
    push_decimal(out, n);
    assert(out@ =~= start + padded(n as nat, w as nat));
}

/// `10^(9 - prec)`: the nanoseconds in the last place shown.
fn place_nanos(prec: u8) -> (r: u32)
    requires
        prec <= 9,
    ensures
        r == pow(10, (9 - prec) as nat),
        r > 0,
{
    reveal_with_fuel(pow, 10);
    if prec == 0 {
        1_000_000_000
    } else if prec == 1 {
        100_000_000
    } else if prec == 2 {
        10_000_000
    } else if prec == 3 {
        1_000_000
    } else if prec == 4 {
        100_000
    } else if prec == 5 {
        10_000
    } else if prec == 6 {
        1_000
    } else if prec == 7 {
        100
    } else if prec == 8 {
        10
    } else {
        1
    }
}

/// Appends the fraction of a second; see `fraction_text`.
fn push_fraction(out: &mut String, nanos: u32, prec: u8)
    requires
        prec <= 9,
    ensures
        final(out)@ == old(out)@ + fraction_text(nanos as nat, prec as nat),
{
    proof {
        reveal_strlit("");
    }
    if prec != 0 {
        proof {
            reveal_strlit(".");
        }
        out.append(".");
        let p = place_nanos(prec);
        push_padded(out, (nanos / p) as u64, prec as usize);
    }
    assert(final(out)@ =~= old(out)@ + fraction_text(nanos as nat, prec as nat));
}

/// A duration ready to be shown, with the places of the fraction and the
/// choice between clock and words.
#[derive(Clone, Copy, Debug, PartialEq, Eq)]
pub struct DurationFmt {
    dur: Duration,
    prec: u8,
    visual_cues: bool,
}

impl DurationFmt {
    #[verifier::type_invariant]
    spec fn inv(self) -> bool {
        self.prec <= MAX_PRECISION
    }

    /// The span shown, in nanoseconds.
    pub closed spec fn total(&self) -> nat {
        self.dur@ as nat
    }

    /// The places of the fraction shown.
    pub closed spec fn places(&self) -> nat {
        self.prec as nat
    }

    /// Whether the span is shown as a clock.
    pub closed spec fn clock(&self) -> bool {
        self.visual_cues
    }

    /// The text the duration is shown as.
    pub open spec fn text(&self) -> Seq<char> {
        duration_text(self.total(), self.places(), self.clock())
    }

    /// `dur` at `prec` places, as a clock where `visual_cues` holds, else in
    /// words.
    pub fn new(dur: Duration, prec: u8, visual_cues: bool) -> (r: DurationFmt)
        requires
            prec <= MAX_PRECISION,
        ensures
            r.total() == dur@,
            r.places() == prec,
            r.clock() == visual_cues,
    {
        dur.in_range();
        DurationFmt { dur, prec, visual_cues }
    }

    /// The text of the duration. A clock reads back, with either grammar
    /// choice of `ReadDur::parse` and with `ReadDur::parse_as_sw`, as the
    /// duration cut to the places shown: less than one place below it, and
    /// never negative.
    #[verifier::rlimit(40)]
    pub fn render(&self) -> (r: String)
        ensures
            r@ == self.text(),
            self.clock() ==> forall|allow_neg: bool|
                parse_model(encode_utf8(r@), allow_neg) == Some(
                    Ok::<(int, bool), Failure>((truncated(self.total(), self.places()), false)),
                ) && sw_model(encode_utf8(r@), allow_neg) == Ok::<(int, bool), Failure>(
                    (truncated(self.total(), self.places()), false),
                ),
            truncated(self.total(), self.places()) <= self.total() < truncated(
                self.total(),
                self.places(),
            ) + pow(10, (9 - self.places()) as nat),
    {
        proof {
            use_type_invariant(self);
        }
        self.dur.in_range();
        let total_secs = self.dur.as_secs();
        let nanos = self.dur.subsec_nanos();
        let total_mins = total_secs / 60;
        let secs = total_secs % 60;
        let mins = total_mins % 60;
        let hours = total_mins / 60;
        assert(hours == total_secs / 3600) by {
            vstd::arithmetic::div_mod::lemma_div_denominator(total_secs as int, 60, 60);
        }
        let mut out = String::from_str("");
        proof {
            reveal_strlit("");
            reveal_strlit(":");
            reveal_strlit(" hour");
            reveal_strlit(", ");
            reveal_strlit(" minute");
            reveal_strlit(" second");
            reveal_strlit("s");
        }
        proof {
            lemma_truncated_close(self.total(), self.places());
        }
        if self.visual_cues {
            push_padded(&mut out, hours, 2);
            out.append(":");
            push_padded(&mut out, mins, 2);
            out.append(":");
            push_padded(&mut out, secs, 2);
            push_fraction(&mut out, nanos, self.prec);
            assert(out@ =~= self.text());
            let text = out.as_str();
            let _ = byte_len(text);
            proof {
                lemma_clock_printable(self.total(), self.places());
            }
            // the clusters of a clock are its single bytes, which is what
            // makes it read back
            let _clusters = graphemes(text);
            proof {
                lemma_clock_reads_back(self.total(), self.places());
            }
        } else {
            if hours != 0 {
                push_decimal(&mut out, hours);
                out.append(" hour");
                if hours != 1 {
                    out.append("s");
                }
                out.append(", ");
            }
            if mins != 0 {
                push_decimal(&mut out, mins);
                out.append(" minute");
                if mins != 1 {
                    out.append("s");
                }
                out.append(", ");
            }
            push_decimal(&mut out, secs);
            push_fraction(&mut out, nanos, self.prec);
            out.append(" second");
            if self.prec != 0 || secs != 1 {
                out.append("s");
            }
        }
        assert(out@ =~= self.text());
        out
    }
}

/// A precision asked for, clamped to the most places shown, and whether it
/// was clamped.
pub fn clamp_prec(asked: u8) -> (r: (u8, bool))
    ensures
        r.0 == if asked > MAX_PRECISION {
            MAX_PRECISION
        } else {
            asked
        },
        r.1 == (asked > MAX_PRECISION),
{
    if asked > MAX_PRECISION {
        (MAX_PRECISION, true)
    } else {
        (asked, false)
    }
}

} // verus!
