//! A non-negative span of time with nanosecond resolution.

use vstd::prelude::*;

verus! {

/// The monotonic clock's instants, which the stopwatch holds without looking
/// inside.
#[verifier::external_type_specification]
#[verifier::external_body]
pub struct ExInstant(std::time::Instant);

} // verus!

verus! {

/// Nanoseconds in one second.
pub const NANOS_PER_SEC: u32 = 1_000_000_000;

/// The largest span a [`Duration`] holds, in nanoseconds.
pub open spec fn max_nanos() -> int {
    u64::MAX as int * 1_000_000_000 + 999_999_999
}

/// A non-negative span of time: whole seconds and the nanoseconds below one
/// second. Its view is the span in nanoseconds.
#[derive(Clone, Copy, Debug, PartialEq, Eq, Structural)]
pub struct Duration {
    secs: u64,
    nanos: u32,
}

impl View for Duration {
    type V = int;

    closed spec fn view(&self) -> int {
        self.secs as int * 1_000_000_000 + self.nanos as int
    }
}

impl Duration {
    #[verifier::type_invariant]
    spec fn inv(self) -> bool {
        self.nanos < NANOS_PER_SEC
    }

    /// Facts that hold of every duration.
    pub fn in_range(&self)
        ensures
            0 <= self@ <= max_nanos(),
    {
        proof {
            use_type_invariant(self);
        }
    }

    /// The empty span.
    pub fn zero() -> (r: Duration)
        ensures
            r@ == 0,
    {
        Duration { secs: 0, nanos: 0 }
    }

    /// The largest span.
    pub fn max_value() -> (r: Duration)
        ensures
            r@ == max_nanos(),
    {
        Duration { secs: u64::MAX, nanos: 999_999_999 }
    }

    /// A span of `secs` seconds and `nanos` nanoseconds; nanoseconds of a
    /// second or more carry into the seconds.
    pub fn new(secs: u64, nanos: u32) -> (r: Duration)
        requires
            secs as int * 1_000_000_000 + nanos as int <= max_nanos(),
        ensures
            r@ == secs as int * 1_000_000_000 + nanos as int,
    {
        let extra: u32 = nanos / NANOS_PER_SEC;
        let rest: u32 = nanos % NANOS_PER_SEC;
        assert(secs as int + extra as int <= u64::MAX) by (nonlinear_arith)
            requires
                secs as int * 1_000_000_000 + nanos as int <= u64::MAX as int * 1_000_000_000
                    + 999_999_999,
                extra == nanos / 1_000_000_000,
        ;
        Duration { secs: secs + extra as u64, nanos: rest }
    }

    /// A span of whole seconds.
    pub fn from_secs(secs: u64) -> (r: Duration)
        ensures
            r@ == secs as int * 1_000_000_000,
    {
        Duration { secs, nanos: 0 }
    }

    /// A span of milliseconds.
    pub fn from_millis(millis: u64) -> (r: Duration)
        ensures
            r@ == millis as int * 1_000_000,
    {
        let secs: u64 = millis / 1000;
        let ms: u64 = millis % 1000;
        let nanos: u32 = (ms as u32) * 1_000_000;
        assert(secs as int * 1_000_000_000 + nanos as int == millis as int * 1_000_000)
            by (nonlinear_arith)
            requires
                secs == millis / 1000,
                ms == millis % 1000,
                nanos == ms * 1_000_000,
        ;
        Duration { secs, nanos }
    }

    /// A span of nanoseconds.
    pub fn from_nanos(nanos: u64) -> (r: Duration)
        ensures
            r@ == nanos as int,
    {
        let secs: u64 = nanos / 1_000_000_000;
        let rest: u32 = (nanos % 1_000_000_000) as u32;
        Duration { secs, nanos: rest }
    }

    /// The whole seconds of the span.
    pub fn as_secs(&self) -> (r: u64)
        ensures
            r as int == self@ / 1_000_000_000,
    {
        proof {
            use_type_invariant(self);
            lemma_div_view(self.secs as int, self.nanos as int);
        }
        self.secs
    }

    /// The nanoseconds of the span below one second.
    pub fn subsec_nanos(&self) -> (r: u32)
        ensures
            r as int == self@ % 1_000_000_000,
            r < NANOS_PER_SEC,
    {
        proof {
            use_type_invariant(self);
            lemma_div_view(self.secs as int, self.nanos as int);
        }
        self.nanos
    }

    /// The span in nanoseconds.
    pub fn as_nanos(&self) -> (r: u128)
        ensures
            r as int == self@,
    {
        proof {
            use_type_invariant(self);
        }
        self.secs as u128 * 1_000_000_000 + self.nanos as u128
    }

    /// The sum of two spans, or `None` where it exceeds the largest span.
    pub fn checked_add(self, other: Duration) -> (r: Option<Duration>)
        ensures
            r is None <==> self@ + other@ > max_nanos(),
            r matches Some(d) ==> d@ == self@ + other@,
    {
        proof {
            use_type_invariant(self);
            use_type_invariant(other);
        }
        let nanos: u32 = self.nanos + other.nanos;
        if self.secs > u64::MAX - other.secs {
            None
        } else {
            let secs: u64 = self.secs + other.secs;
            if nanos >= NANOS_PER_SEC {
                if secs == u64::MAX {
                    None
                } else {
                    Some(Duration { secs: secs + 1, nanos: nanos - NANOS_PER_SEC })
                }
            } else {
                Some(Duration { secs, nanos })
            }
        }
    }

    /// The span multiplied by `rhs`, or `None` where it exceeds the largest
    /// span.
    pub fn checked_mul(self, rhs: u32) -> (r: Option<Duration>)
        ensures
            r is None <==> self@ * rhs > max_nanos(),
            r matches Some(d) ==> d@ == self@ * rhs,
    {
        proof {
            use_type_invariant(self);
        }
        assert(self.nanos as int * rhs as int <= u64::MAX) by (nonlinear_arith)
            requires
                self.nanos < 1_000_000_000,
                rhs <= u32::MAX,
        ;
        let total: u64 = self.nanos as u64 * rhs as u64;
        let extra: u64 = total / 1_000_000_000;
        let rest: u32 = (total % 1_000_000_000) as u32;
        let ghost whole: int = self.secs as int * rhs as int;
        proof {
            lemma_mul_view(self.secs as int, self.nanos as int, rhs as int, total as int);
        }
        match self.secs.checked_mul(rhs as u64) {
            None => {
                proof {
                    lemma_mul_overflow(self.secs as int, self.nanos as int, rhs as int);
                }
                None
            },
            Some(s) => {
                if s > u64::MAX - extra {
                    None
                } else {
                    Some(Duration { secs: s + extra, nanos: rest })
                }
            },
        }
    }

    /// The sum of two spans, clamped to the largest span.
    pub fn saturating_add(self, other: Duration) -> (r: Duration)
        ensures
            r@ == if self@ + other@ > max_nanos() {
                max_nanos()
            } else {
                self@ + other@
            },
    {
        match self.checked_add(other) {
            Some(d) => d,
            None => Duration::max_value(),
        }
    }

    /// The difference of two spans, clamped to zero.
    pub fn saturating_sub(self, other: Duration) -> (r: Duration)
        ensures
            r@ == if self@ < other@ {
                0
            } else {
                self@ - other@
            },
    {
        proof {
            use_type_invariant(self);
            use_type_invariant(other);
        }
        if self.secs < other.secs || (self.secs == other.secs && self.nanos < other.nanos) {
            proof {
                lemma_lt_view(self.secs as int, self.nanos as int, other.secs as int, other.nanos as int);
            }
            Duration::zero()
        } else if self.nanos >= other.nanos {
            Duration { secs: self.secs - other.secs, nanos: self.nanos - other.nanos }
        } else {
            Duration {
                secs: self.secs - other.secs - 1,
                nanos: self.nanos + NANOS_PER_SEC - other.nanos,
            }
        }
    }
}

proof fn lemma_div_view(s: int, n: int)
    requires
        0 <= s,
        0 <= n < 1_000_000_000,
    ensures
        (s * 1_000_000_000 + n) / 1_000_000_000 == s,
        (s * 1_000_000_000 + n) % 1_000_000_000 == n,
{
    vstd::arithmetic::div_mod::lemma_fundamental_div_mod_converse(
        s * 1_000_000_000 + n,
        1_000_000_000,
        s,
        n,
    );
}

proof fn lemma_mul_view(s: int, n: int, k: int, total: int)
    requires
        0 <= s,
        0 <= n < 1_000_000_000,
        0 <= k,
        total == n * k,
    ensures
        (s * 1_000_000_000 + n) * k == (s * k + total / 1_000_000_000) * 1_000_000_000
            + total % 1_000_000_000,
{
    assert((s * 1_000_000_000 + n) * k == (s * k + total / 1_000_000_000) * 1_000_000_000
        + total % 1_000_000_000) by (nonlinear_arith)
        requires
            total == n * k,
    {
        vstd::arithmetic::div_mod::lemma_fundamental_div_mod(total, 1_000_000_000);
    }
}

proof fn lemma_mul_overflow(s: int, n: int, k: int)
    requires
        0 <= s,
        0 <= n < 1_000_000_000,
        0 <= k,
        s * k > u64::MAX,
    ensures
        (s * 1_000_000_000 + n) * k > u64::MAX as int * 1_000_000_000 + 999_999_999,
{
    assert((s * 1_000_000_000 + n) * k >= (s * k) * 1_000_000_000) by (nonlinear_arith)
        requires
            0 <= s,
            0 <= n,
            0 <= k,
    ;
    assert((s * k) * 1_000_000_000 >= (u64::MAX as int + 1) * 1_000_000_000) by (nonlinear_arith)
        requires
            s * k >= u64::MAX as int + 1,
    ;
}

proof fn lemma_lt_view(s1: int, n1: int, s2: int, n2: int)
    requires
        0 <= n1 < 1_000_000_000,
        0 <= n2 < 1_000_000_000,
        s1 < s2 || (s1 == s2 && n1 < n2),
    ensures
        s1 * 1_000_000_000 + n1 < s2 * 1_000_000_000 + n2,
{
    if s1 < s2 {
        assert(s1 * 1_000_000_000 + 1_000_000_000 <= s2 * 1_000_000_000) by (nonlinear_arith)
            requires
                s1 < s2,
        ;
    }
}

/// Relies on `Instant::saturating_duration_since`, taken apart with
/// `Duration::as_secs` and `Duration::subsec_nanos` (below one billion): the
/// time from `earlier` to `later`, zero where `earlier` is the later one.
/// What it is depends on the clock, so nothing more is stated.
#[verifier::external_body]
pub(crate) fn between(later: std::time::Instant, earlier: std::time::Instant) -> (r: Duration) {
    let d = later.saturating_duration_since(earlier);
    Duration { secs: d.as_secs(), nanos: d.subsec_nanos() }
}

} // verus!
