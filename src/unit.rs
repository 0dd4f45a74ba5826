//! The unit grammar: `[+|-] number [. fraction] unit`, with the unit `s`,
//! `m` or `h` and whitespace around the number.

use crate::duration::{max_nanos, Duration};
use crate::lexer::DOT;
use crate::num::{
    frac_digits, frac_value, lemma_frac_nine, parse_u64, u64_value, IntError, ParseFracErr, MINUS,
    PLUS,
};
use crate::parse::{
    fail, normalized, on_edges, outcome, points_into, unit_of, unit_secs, ErrKind, Failure,
    ParseErr, ReadDur, Unit,
};
use crate::span::ByteSpan;
use crate::sw::{agrees, line_ok, range_err};
use crate::text::{
    byte_len, cluster, edge, edge_at, grapheme_spans, graphemes, lemma_cluster_bounds, lemma_edges,
    skip_back, skip_blank_back, skip_blank_fwd, skip_fwd, slice, tiles,
};
use vstd::prelude::*;
use vstd::string::*;
use vstd::utf8::*;

verus! {

broadcast use {encode_utf8_valid_utf8, vstd::slice::axiom_spec_len};

/// Why a line fails the unit grammar.
#[derive(Clone, Copy, Debug, PartialEq, Eq, Structural)]
pub enum UnitErrKind {
    /// There is no unit.
    UnitMissing,
    /// The last cluster, which the error points at, names no unit.
    UnitUnknown,
    /// A unit is given but no value.
    DurMissing(Unit),
    /// The value is not a number.
    ParseInt { err: IntError, unit: Unit },
    /// The duration is too large.
    DurOverflow(Unit),
}

impl UnitErrKind {
    /// Whether the error comes with a note on how to mend the input.
    pub fn has_help_message(&self) -> (r: bool)
        ensures
            r,
    {
        true
    }
}

/// The sign a cluster is: `Some(true)` for `-`, `Some(false)` for `+`.
pub open spec fn sign_of(c: Seq<u8>) -> Option<bool> {
    if c.len() == 1 && c[0] == PLUS {
        Some(false)
    } else if c.len() == 1 && c[0] == MINUS {
        Some(true)
    } else {
        None
    }
}

/// The first cluster from `i` below `hi` that is a decimal point; `hi` if
/// there is none.
pub open spec fn dot_from(b: Seq<u8>, g: Seq<(usize, usize)>, i: int, hi: int) -> int
    decreases hi - i,
{
    if i >= hi {
        hi
    } else if cluster(b, g, i).len() == 1 && cluster(b, g, i)[0] == DOT {
        i
    } else {
        dot_from(b, g, i + 1, hi)
    }
}

/// The whole units: clusters `lo..hi` without blanks at either end, zero if
/// nothing is left.
pub open spec fn whole_units(b: Seq<u8>, g: Seq<(usize, usize)>, lo: int, hi: int, unit: Unit) -> Result<
    int,
    Failure,
> {
    let f = skip_blank_fwd(b, g, lo, hi);
    let e = skip_blank_back(b, g, f, hi);
    if f >= e {
        Ok(0)
    } else {
        match u64_value(b.subrange(edge(b, g, f), edge(b, g, e))) {
            Err(err) => Err(
                fail(
                    edge(b, g, f),
                    edge(b, g, e),
                    normalized(ErrKind::Unit(UnitErrKind::ParseInt { err, unit })),
                ),
            ),
            Ok(v) => Ok(v as int),
        }
    }
}

/// The fraction of a unit in nanoseconds: clusters `lo..hi` without blanks at
/// either end, read to nine places.
pub open spec fn frac_units(b: Seq<u8>, g: Seq<(usize, usize)>, lo: int, hi: int, unit: Unit) -> Result<
    int,
    Failure,
> {
    let f = skip_blank_fwd(b, g, lo, hi);
    let e = skip_blank_back(b, g, f, hi);
    let a = edge(b, g, f);
    match frac_value(b, g, f, e, 9, 0) {
        Err(ParseFracErr::ParseDigit { idx, len, err }) => Err(
            fail(
                idx as int,
                idx + len,
                normalized(ErrKind::Unit(UnitErrKind::ParseInt { err, unit })),
            ),
        ),
        Err(ParseFracErr::NumeratorOverflow { .. }) => Err(
            fail(a, edge(b, g, e), ErrKind::Unit(UnitErrKind::DurOverflow(unit))),
        ),
        Ok(n) => Ok(n as int),
    }
}

/// The number of clusters `ns..e` in `unit`: whole part, then the fraction
/// after the first decimal point; `(ints, nanos) * unit` must fit.
pub open spec fn unit_number(
    b: Seq<u8>,
    g: Seq<(usize, usize)>,
    ns: int,
    e: int,
    unit: Unit,
    is_neg: bool,
) -> Result<(int, bool), Failure> {
    let d = dot_from(b, g, ns, e);
    match whole_units(b, g, ns, d, unit) {
        Err(x) => Err(x),
        Ok(ints) => match (if d < e {
            frac_units(b, g, d + 1, e, unit)
        } else {
            Ok(0)
        }) {
            Err(x) => Err(x),
            Ok(subs) => {
                let total = (ints * 1_000_000_000 + subs) * unit_secs(unit);
                if total > max_nanos() {
                    Err(
                        fail(
                            edge(b, g, ns),
                            edge(b, g, e),
                            ErrKind::Unit(UnitErrKind::DurOverflow(unit)),
                        ),
                    )
                } else {
                    Ok((total, is_neg))
                }
            },
        },
    }
}

/// The unit grammar on the line with bytes `b`: the duration in nanoseconds
/// and its sign, or the failure.
pub open spec fn unit_model(b: Seq<u8>, allow_neg: bool) -> Result<(int, bool), Failure> {
    let g = grapheme_spans(b);
    let k = skip_blank_back(b, g, 0, g.len() as int);
    if k == 0 {
        Err(fail(0, 0, ErrKind::Unit(UnitErrKind::UnitMissing)))
    } else {
        let u = k - 1;
        match unit_of(cluster(b, g, u)) {
            None => Err(fail(edge(b, g, u), edge(b, g, k), ErrKind::Unit(UnitErrKind::UnitUnknown))),
            Some(unit) => {
                let f = skip_blank_fwd(b, g, 0, u);
                let e = skip_blank_back(b, g, f, u);
                if f >= e {
                    Err(
                        fail(
                            edge(b, g, u),
                            edge(b, g, u),
                            ErrKind::Unit(UnitErrKind::DurMissing(unit)),
                        ),
                    )
                } else {
                    let sign = sign_of(cluster(b, g, f));
                    let is_neg = sign == Some(true);
                    if !allow_neg && is_neg {
                        Err(fail(edge(b, g, f), edge(b, g, f + 1), ErrKind::Negative))
                    } else {
                        let ns = if sign is Some {
                            f + 1
                        } else {
                            f
                        };
                        unit_number(b, g, ns, e, unit, is_neg)
                    }
                }
            },
        }
    }
}

/// The first decimal point from `i` below `hi`; see `dot_from`.
fn find_dot(b: &[u8], s: &str, g: &Vec<(usize, usize)>, i: usize, hi: usize) -> (r: usize)
    requires
        b@ == s.spec_bytes(),
        tiles(b@, g@),
        i <= hi <= g@.len(),
    ensures
        r == dot_from(b@, g@, i as int, hi as int),
        i <= r <= hi,
{
    let mut k = i;
    proof {
        encode_utf8_valid_utf8(s@);
    }
    while k < hi
        invariant
            b@ == s.spec_bytes(),
            valid_utf8(b@),
            tiles(b@, g@),
            i <= k <= hi <= g@.len(),
            dot_from(b@, g@, i as int, hi as int) == dot_from(b@, g@, k as int, hi as int),
        decreases hi - k,
    {
        proof {
            lemma_cluster_bounds(b@, g@, k as int);
        }
        let (cs, cl) = g[k];
        if cl == 1 && b[cs] == DOT {
            assert(cluster(b@, g@, k as int)[0] == b@[cs as int]);
            return k;
        }
        proof {
            if cl == 1 {
                assert(cluster(b@, g@, k as int)[0] == b@[cs as int]);
            }
        }
        k = k + 1;
    }
    k
}

/// The whole units of clusters `lo..hi`; see `whole_units`.
fn whole_units_exec<'s>(b: &[u8], s: &'s str, g: &Vec<(usize, usize)>, lo: usize, hi: usize, unit: Unit) -> (r:
    Result<u64, ParseErr<'s>>)
    requires
        line_ok(b, s, g@),
        lo <= hi <= g@.len(),
    ensures
        agrees(r, whole_units(b@, g@, lo as int, hi as int, unit), s,
            r matches Ok(a) && whole_units(b@, g@, lo as int, hi as int, unit) == Ok::<int, Failure>(a as int)),
{
    let ghost sb = b@;
    let fi = skip_fwd(s, g, lo, hi);
    let ei = skip_back(s, g, fi, hi);
    if fi >= ei {
        return Ok(0);
    }
    let a = edge_at(s, g, fi);
    let z = edge_at(s, g, ei);
    proof {
        lemma_edges(sb, g@, fi as int, ei as int);
        lemma_edges(sb, g@, ei as int, ei as int);
    }
    match parse_u64(b, a, z) {
        Err(err) => Err(range_err(s, g, (fi, ei), ErrKind::Unit(UnitErrKind::ParseInt { err, unit }))),
        Ok(v) => Ok(v),
    }
}

/// The fraction of clusters `lo..hi`; see `frac_units`.
fn frac_units_exec<'s>(b: &[u8], s: &'s str, g: &Vec<(usize, usize)>, lo: usize, hi: usize, unit: Unit) -> (r:
    Result<u32, ParseErr<'s>>)
    requires
        line_ok(b, s, g@),
        lo <= hi <= g@.len(),
    ensures
        agrees(r, frac_units(b@, g@, lo as int, hi as int, unit), s,
            r matches Ok(a) && frac_units(b@, g@, lo as int, hi as int, unit) == Ok::<int, Failure>(a as int)),
        r matches Ok(a) ==> a < 1_000_000_000,
{
    let ghost sb = b@;
    let fs = skip_fwd(s, g, lo, hi);
    let es = skip_back(s, g, fs, hi);
    proof {
        lemma_frac_nine(b@, g@, fs as int, es as int);
    }
    match frac_digits(b, s, g, fs, es, 9) {
        Err(ParseFracErr::ParseDigit { idx, len, err }) => {
            proof {
                let i = choose|i: int|
                    fs <= i < es && idx == #[trigger] edge(b@, g@, i) && idx + len == edge(b@, g@, i + 1);
                lemma_cluster_bounds(b@, g@, i);
                lemma_edges(b@, g@, i, i + 1);
                assert(on_edges(
                    b@,
                    fail(
                        idx as int,
                        idx + len,
                        normalized(ErrKind::Unit(UnitErrKind::ParseInt { err, unit })),
                    ),
                ));
            }
            Err(
                ParseErr::new(
                    ByteSpan::new(idx, len, s),
                    ErrKind::Unit(UnitErrKind::ParseInt { err, unit }),
                ),
            )
        },
        Err(ParseFracErr::NumeratorOverflow { .. }) => Err(
            range_err(s, g, (fs, es), ErrKind::Unit(UnitErrKind::DurOverflow(unit))),
        ),
        Ok(v) => Ok(v),
    }
}

/// The number of clusters `ns..e` in `unit`; see `unit_number`.
#[verifier::rlimit(40)]
fn unit_number_exec<'s>(
    b: &[u8],
    s: &'s str,
    g: &Vec<(usize, usize)>,
    ns: usize,
    e: usize,
    unit: Unit,
    is_neg: bool,
) -> (r: Result<ReadDur, ParseErr<'s>>)
    requires
        line_ok(b, s, g@),
        ns <= e <= g@.len(),
    ensures
        outcome(r) == unit_number(b@, g@, ns as int, e as int, unit, is_neg),
        points_into(r, s),
        r matches Err(x) ==> on_edges(s.spec_bytes(), x@),
{
    let ghost sb = b@;
    let d = find_dot(b, s, g, ns, e);
    let ints = whole_units_exec(b, s, g, ns, d, unit)?;
    let subs: u32 = if d < e {
        frac_units_exec(b, s, g, d + 1, e, unit)?
    } else {
        0
    };
    assert(ints as int * 1_000_000_000 + subs as int <= max_nanos()) by (nonlinear_arith)
        requires
            ints <= u64::MAX,
            subs < 1_000_000_000,
    ;
    let whole = Duration::new(ints, subs);
    match whole.checked_mul(unit.secs()) {
        None => Err(range_err(s, g, (ns, e), ErrKind::Unit(UnitErrKind::DurOverflow(unit)))),
        Some(dur) => Ok(ReadDur { dur, is_neg }),
    }
}

impl ReadDur {
    /// Reads `s` in the unit grammar: an optional sign, a number with an
    /// optional fraction, and the unit `s`, `m` or `h`, all of it cut into
    /// grapheme clusters once. Whitespace may stand around the number and
    /// after the unit. Digits of the fraction past nanoseconds are dropped. A
    /// negative value where `allow_neg` is false is an error.
    #[verifier::rlimit(40)]
    pub fn parse_as_unit(s: &str, allow_neg: bool) -> (r: Result<ReadDur, ParseErr<'_>>)
        ensures
            outcome(r) == unit_model(s.spec_bytes(), allow_neg),
            tiles(s.spec_bytes(), grapheme_spans(s.spec_bytes())),
            points_into(r, s),
            r matches Err(e) ==> on_edges(s.spec_bytes(), e@),
    {
        let g = graphemes(s);
        let b = s.as_bytes();
        let _ = byte_len(s);
        let ghost sb = b@;
        proof {
            encode_utf8_valid_utf8(s@);
            is_char_boundary_start_end_of_seq(sb);
        }
        let n = g.len();
        let k = skip_back(s, &g, 0, n);
        if k == 0 {
            proof {
                lemma_edges(sb, g@, 0, 0);
            }
            return Err(range_err(s, &g, (0, 0), ErrKind::Unit(UnitErrKind::UnitMissing)));
        }
        let u = k - 1;
        proof {
            lemma_cluster_bounds(sb, g@, u as int);
        }
        let (us, ul) = g[u];
        let unit = match Unit::from_grapheme(slice(s, us, us + ul)) {
            Ok(unit) => unit,
            Err(_) => {
                return Err(range_err(s, &g, (u, k), ErrKind::Unit(UnitErrKind::UnitUnknown)));
            },
        };
        let f = skip_fwd(s, &g, 0, u);
        let e = skip_back(s, &g, f, u);
        if f >= e {
            return Err(range_err(s, &g, (u, u), ErrKind::Unit(UnitErrKind::DurMissing(unit))));
        }
        proof {
            lemma_cluster_bounds(sb, g@, f as int);
        }
        let (fs, fl) = g[f];
        let sign: Option<bool> = if fl == 1 && b[fs] == PLUS {
            Some(false)
        } else if fl == 1 && b[fs] == MINUS {
            Some(true)
        } else {
            None
        };
        assert(fl == 1 ==> cluster(sb, g@, f as int)[0] == sb[fs as int]);
        let is_neg = match sign {
            Some(true) => true,
            _ => false,
        };
        if !allow_neg && is_neg {
            return Err(range_err(s, &g, (f, f + 1), ErrKind::Negative));
        }
        let ns = if sign.is_some() {
            f + 1
        } else {
            f
        };
        unit_number_exec(b, s, &g, ns, e, unit, is_neg)
    }
}

} // verus!
