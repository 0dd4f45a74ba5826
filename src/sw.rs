//! The colon grammar: `[+|-][[hours:]minutes:]seconds[.fraction]`, read from
//! the right.

use crate::duration::Duration;
use crate::lexer::{lemma_lex_next, lex_next, next_token, SwTokenKind, Tok};
use crate::duration::max_nanos;
use crate::num::{frac_digits, frac_value, parse_u64, u64_value, IntError, ParseFracErr};
use crate::parse::{
    fail, normalized, on_edges, outcome, points_into, ErrKind, Failure, ParseErr, ReadDur,
};
use crate::span::ByteSpan;
use crate::text::{
    byte_len, edge, edge_at, grapheme_spans, graphemes, lemma_cluster_bounds, lemma_edges, tiles,
};
use vstd::prelude::*;
use vstd::string::*;
use vstd::utf8::*;

verus! {

broadcast use {encode_utf8_valid_utf8, vstd::slice::axiom_spec_len};

/// A field of the colon grammar.
#[derive(Clone, Copy, Debug, PartialEq, Eq, Structural)]
pub enum Group {
    Hours,
    Minutes,
    SecondsInt,
    SecondsSub,
}

impl Group {
    /// The bound that a value of the field stays below.
    pub fn max(self) -> (r: u64)
        ensures
            r == match self {
                Group::Hours => u64::MAX / 3600 + 1,
                Group::Minutes => 60,
                Group::SecondsInt => 60,
                Group::SecondsSub => 1_000_000_000,
            },
    {
        match self {
            Group::Hours => u64::MAX / 3600 + 1,
            Group::Minutes => 60,
            Group::SecondsInt => 60,
            Group::SecondsSub => 1_000_000_000,
        }
    }

    /// The name of the field.
    pub fn name(self) -> (r: &'static str)
        ensures
            r@ == match self {
                Group::Hours => "hours"@,
                Group::Minutes => "minutes"@,
                Group::SecondsInt => "seconds"@,
                Group::SecondsSub => "subseconds"@,
            },
    {
        match self {
            Group::Hours => "hours",
            Group::Minutes => "minutes",
            Group::SecondsInt => "seconds",
            Group::SecondsSub => "subseconds",
        }
    }
}

/// Why a line fails the colon grammar.
#[derive(Clone, Copy, Debug, PartialEq, Eq, Structural)]
pub enum SwErrKind {
    /// A colon left of the hours.
    UnexpectedColon,
    /// A decimal point outside the seconds, found while reading the field.
    UnexpectedDot(Group),
    /// A sign that is not at the start.
    UnexpectedSign { is_neg: bool },
    /// A field is not a number.
    Int { group: Group, err: IntError },
    /// The duration is too large; the field being added when it overflowed.
    DurationOverflow(Group),
}

impl SwErrKind {
    /// Whether the error comes with a note on how to mend the input.
    pub fn has_help_message(&self) -> (r: bool)
        ensures
            r == !(self matches SwErrKind::UnexpectedSign { .. }),
    {
        match self {
            SwErrKind::UnexpectedSign { .. } => false,
            _ => true,
        }
    }
}

/// Where the reading of a line stands: the field being read, the clusters
/// `start..end` of each field found so far (empty where none), and the sign
/// with its cluster.
#[derive(Clone, Copy, Debug)]
pub struct Scan {
    pub cur: Group,
    pub hours: (usize, usize),
    pub minutes: (usize, usize),
    pub secs: (usize, usize),
    pub subsecs: (usize, usize),
    pub is_neg: Option<bool>,
    pub neg: (usize, usize),
}

/// Nothing read yet: a field that may still turn out to be the fraction.
pub open spec fn scan_start() -> Scan {
    Scan {
        cur: Group::SecondsSub,
        hours: (0, 0),
        minutes: (0, 0),
        secs: (0, 0),
        subsecs: (0, 0),
        is_neg: None,
        neg: (0, 0),
    }
}

/// The state with the clusters of field `g` set to `r`.
pub open spec fn with_group(st: Scan, g: Group, r: (usize, usize)) -> Scan {
    match g {
        Group::Hours => Scan { hours: r, ..st },
        Group::Minutes => Scan { minutes: r, ..st },
        Group::SecondsInt => Scan { secs: r, ..st },
        Group::SecondsSub => Scan { subsecs: r, ..st },
    }
}

/// The failure of `kind` at clusters `r` of the line.
pub open spec fn range_fail(b: Seq<u8>, g: Seq<(usize, usize)>, r: (usize, usize), kind: ErrKind) -> Failure {
    fail(edge(b, g, r.0 as int), edge(b, g, r.1 as int), normalized(kind))
}

/// Reads token `t`, with `peek` the kind of the token to its left, if any.
pub open spec fn step(
    b: Seq<u8>,
    g: Seq<(usize, usize)>,
    st: Scan,
    t: Tok,
    peek: Option<SwTokenKind>,
) -> Result<Scan, Failure> {
    let here = (t.start, t.end);
    match (st.cur, t.kind) {
        (Group::SecondsSub, SwTokenKind::Colon) => Ok(
            Scan { cur: Group::Minutes, secs: st.subsecs, subsecs: (0, 0), ..st },
        ),
        (Group::SecondsSub, SwTokenKind::Dot) => Ok(Scan { cur: Group::SecondsInt, ..st }),
        (Group::SecondsSub, SwTokenKind::Data) => {
            let cur = if peek is None || peek == Some(SwTokenKind::Pos) || peek == Some(
                SwTokenKind::Neg,
            ) {
                Group::SecondsInt
            } else {
                Group::SecondsSub
            };
            Ok(with_group(Scan { cur, ..st }, cur, here))
        },
        (Group::SecondsInt, SwTokenKind::Colon) => Ok(Scan { cur: Group::Minutes, ..st }),
        (Group::Minutes, SwTokenKind::Colon) => Ok(Scan { cur: Group::Hours, ..st }),
        (Group::Hours, SwTokenKind::Colon) => Err(
            range_fail(b, g, here, ErrKind::Sw(SwErrKind::UnexpectedColon)),
        ),
        (_, SwTokenKind::Data) => Ok(with_group(st, st.cur, here)),
        (_, SwTokenKind::Dot) => Err(
            range_fail(b, g, here, ErrKind::Sw(SwErrKind::UnexpectedDot(st.cur))),
        ),
        (_, SwTokenKind::Pos) => if peek is None {
            Ok(Scan { is_neg: Some(false), ..st })
        } else {
            Err(range_fail(b, g, here, ErrKind::Sw(SwErrKind::UnexpectedSign { is_neg: false })))
        },
        (_, SwTokenKind::Neg) => if peek is None {
            Ok(Scan { is_neg: Some(true), neg: here, ..st })
        } else {
            Err(range_fail(b, g, here, ErrKind::Sw(SwErrKind::UnexpectedSign { is_neg: true })))
        },
    }
}

/// The kind of the next token read leftwards from the clusters below `k`.
pub open spec fn peek_kind(b: Seq<u8>, g: Seq<(usize, usize)>, k: int) -> Option<SwTokenKind> {
    match lex_next(b, g, k) {
        Some((t, _)) => Some(t.kind),
        None => None,
    }
}

/// Reads all tokens of the clusters below `k`, from the right.
pub open spec fn scan(b: Seq<u8>, g: Seq<(usize, usize)>, k: int, st: Scan) -> Result<
    Scan,
    Failure,
>
    decreases k,
{
    match lex_next(b, g, k) {
        None => Ok(st),
        Some((t, j)) => match step(b, g, st, t, peek_kind(b, g, j)) {
            Err(e) => Err(e),
            Ok(next) => if 0 <= j < k {
                scan(b, g, j, next)
            } else {
                Ok(next)
            },
        },
    }
}

/// Adds the whole units of field `group` at clusters `r`, worth `per`
/// seconds each, to `acc` seconds. An empty field adds nothing.
pub open spec fn add_whole(
    b: Seq<u8>,
    g: Seq<(usize, usize)>,
    r: (usize, usize),
    group: Group,
    per: int,
    acc: int,
) -> Result<int, Failure> {
    if r.0 >= r.1 {
        Ok(acc)
    } else {
        match u64_value(b.subrange(edge(b, g, r.0 as int), edge(b, g, r.1 as int))) {
            Err(e) => Err(range_fail(b, g, r, ErrKind::Sw(SwErrKind::Int { group, err: e }))),
            Ok(u) => if u * per > u64::MAX || acc + u * per > u64::MAX {
                Err(range_fail(b, g, r, ErrKind::Sw(SwErrKind::DurationOverflow(group))))
            } else {
                Ok(acc + u * per)
            },
        }
    }
}

/// Adds the fraction at clusters `r` to `secs` whole seconds, giving
/// nanoseconds. An empty fraction adds nothing.
pub open spec fn add_fraction(b: Seq<u8>, g: Seq<(usize, usize)>, r: (usize, usize), secs: int) -> Result<
    int,
    Failure,
> {
    let overflow = range_fail(b, g, r, ErrKind::Sw(SwErrKind::DurationOverflow(Group::SecondsSub)));
    if r.0 >= r.1 {
        Ok(secs * 1_000_000_000)
    } else {
        match frac_value(b, g, r.0 as int, r.1 as int, 9, 0) {
            Err(ParseFracErr::ParseDigit { idx, len, err }) => Err(
                fail(
                    idx as int,
                    idx + len,
                    normalized(ErrKind::Sw(SwErrKind::Int { group: Group::SecondsSub, err })),
                ),
            ),
            Err(ParseFracErr::NumeratorOverflow { .. }) => Err(overflow),
            Ok(n) => if secs * 1_000_000_000 + n > max_nanos() {
                Err(overflow)
            } else {
                Ok(secs * 1_000_000_000 + n)
            },
        }
    }
}

/// The colon grammar on the line with bytes `b`: the duration in
/// nanoseconds and its sign, or the failure.
pub open spec fn sw_model(b: Seq<u8>, allow_neg: bool) -> Result<(int, bool), Failure> {
    let g = grapheme_spans(b);
    match scan(b, g, g.len() as int, scan_start()) {
        Err(e) => Err(e),
        Ok(st) => {
            let is_neg = st.is_neg == Some(true);
            if !allow_neg && is_neg {
                Err(range_fail(b, g, st.neg, ErrKind::Negative))
            } else {
                match add_whole(b, g, st.hours, Group::Hours, 3600, 0) {
                    Err(e) => Err(e),
                    Ok(h) => match add_whole(b, g, st.minutes, Group::Minutes, 60, h) {
                        Err(e) => Err(e),
                        Ok(m) => match add_whole(b, g, st.secs, Group::SecondsInt, 1, m) {
                            Err(e) => Err(e),
                            Ok(s) => match add_fraction(b, g, st.subsecs, s) {
                                Err(e) => Err(e),
                                Ok(n) => Ok((n, is_neg)),
                            },
                        },
                    },
                }
            }
        },
    }
}

/// Clusters `r` are clusters of a line of `n`.
pub open spec fn range_ok(r: (usize, usize), n: int) -> bool {
    r.0 <= r.1 <= n
}

/// Every range that the state holds lies among `n` clusters.
pub open spec fn scan_valid(st: Scan, n: int) -> bool {
    &&& range_ok(st.hours, n)
    &&& range_ok(st.minutes, n)
    &&& range_ok(st.secs, n)
    &&& range_ok(st.subsecs, n)
    &&& range_ok(st.neg, n)
}

/// Facts that the helpers of the grammars take about the line.
pub open spec fn line_ok(b: &[u8], s: &str, g: Seq<(usize, usize)>) -> bool {
    &&& b@ == s.spec_bytes()
    &&& valid_utf8(b@)
    &&& b@.len() <= usize::MAX
    &&& g == grapheme_spans(b@)
    &&& tiles(b@, g)
}

/// An exec result agrees with a model, and its error points into `s` at
/// cluster edges.
pub open spec fn agrees<T, U>(r: Result<T, ParseErr>, m: Result<U, Failure>, s: &str, same: bool) -> bool {
    match (r, m) {
        (Ok(_), Ok(_)) => same,
        (Err(e), Err(f)) => e@ == f && e.source() == s && on_edges(s.spec_bytes(), f),
        _ => false,
    }
}

/// The error of `kind` at clusters `r` of the line `s`.
pub(crate) fn range_err<'s>(s: &'s str, g: &Vec<(usize, usize)>, r: (usize, usize), kind: ErrKind) -> (res: ParseErr<'s>)
    requires
        s.spec_bytes().len() <= usize::MAX,
        valid_utf8(s.spec_bytes()),
        g@ == grapheme_spans(s.spec_bytes()),
        tiles(s.spec_bytes(), g@),
        range_ok(r, g@.len() as int),
    ensures
        res@ == range_fail(s.spec_bytes(), g@, r, kind),
        res.source() == s,
        on_edges(s.spec_bytes(), res@),
{
    let a = edge_at(s, g, r.0);
    let z = edge_at(s, g, r.1);
    proof {
        lemma_edges(s.spec_bytes(), g@, r.0 as int, r.1 as int);
        lemma_edges(s.spec_bytes(), g@, r.1 as int, r.1 as int);
    }
    ParseErr::new(ByteSpan::new(a, z - a, s), kind)
}

/// Reads one token; see `step`.
fn step_exec<'s>(s: &'s str, g: &Vec<(usize, usize)>, st: Scan, t: Tok, peek: Option<SwTokenKind>) -> (r:
    Result<Scan, ParseErr<'s>>)
    requires
        s.spec_bytes().len() <= usize::MAX,
        valid_utf8(s.spec_bytes()),
        g@ == grapheme_spans(s.spec_bytes()),
        tiles(s.spec_bytes(), g@),
        range_ok((t.start, t.end), g@.len() as int),
        scan_valid(st, g@.len() as int),
    ensures
        agrees(r, step(s.spec_bytes(), g@, st, t, peek), s, r matches Ok(a) && step(s.spec_bytes(), g@, st, t, peek) == Ok::<Scan, Failure>(a)),
        r matches Ok(a) ==> scan_valid(a, g@.len() as int),
{
    let here = (t.start, t.end);
    match (st.cur, t.kind) {
        (Group::SecondsSub, SwTokenKind::Colon) => Ok(
            Scan { cur: Group::Minutes, secs: st.subsecs, subsecs: (0, 0), ..st },
        ),
        (Group::SecondsSub, SwTokenKind::Dot) => Ok(Scan { cur: Group::SecondsInt, ..st }),
        (Group::SecondsSub, SwTokenKind::Data) => {
            let int_next = match peek {
                None => true,
                Some(SwTokenKind::Pos) => true,
                Some(SwTokenKind::Neg) => true,
                _ => false,
            };
            if int_next {
                Ok(Scan { cur: Group::SecondsInt, secs: here, ..st })
            } else {
                Ok(Scan { cur: Group::SecondsSub, subsecs: here, ..st })
            }
        },
        (Group::SecondsInt, SwTokenKind::Colon) => Ok(Scan { cur: Group::Minutes, ..st }),
        (Group::Minutes, SwTokenKind::Colon) => Ok(Scan { cur: Group::Hours, ..st }),
        (Group::Hours, SwTokenKind::Colon) => Err(
            range_err(s, g, here, ErrKind::Sw(SwErrKind::UnexpectedColon)),
        ),
        (cur, SwTokenKind::Data) => Ok(
            match cur {
                Group::Hours => Scan { hours: here, ..st },
                Group::Minutes => Scan { minutes: here, ..st },
                Group::SecondsInt => Scan { secs: here, ..st },
                Group::SecondsSub => Scan { subsecs: here, ..st },
            },
        ),
        (cur, SwTokenKind::Dot) => Err(range_err(s, g, here, ErrKind::Sw(SwErrKind::UnexpectedDot(cur)))),
        (_, SwTokenKind::Pos) => if peek.is_none() {
            Ok(Scan { is_neg: Some(false), ..st })
        } else {
            Err(range_err(s, g, here, ErrKind::Sw(SwErrKind::UnexpectedSign { is_neg: false })))
        },
        (_, SwTokenKind::Neg) => if peek.is_none() {
            Ok(Scan { is_neg: Some(true), neg: here, ..st })
        } else {
            Err(range_err(s, g, here, ErrKind::Sw(SwErrKind::UnexpectedSign { is_neg: true })))
        },
    }
}

/// Adds a whole field; see `add_whole`.
fn add_whole_exec<'s>(
    b: &[u8],
    s: &'s str,
    g: &Vec<(usize, usize)>,
    r: (usize, usize),
    group: Group,
    per: u64,
    acc: u64,
) -> (res: Result<u64, ParseErr<'s>>)
    requires
        line_ok(b, s, g@),
        range_ok(r, g@.len() as int),
    ensures
        agrees(res, add_whole(b@, g@, r, group, per as int, acc as int), s,
            res matches Ok(a) && add_whole(b@, g@, r, group, per as int, acc as int) == Ok::<int, Failure>(a as int)),
{
    if r.0 >= r.1 {
        return Ok(acc);
    }
    let a = edge_at(s, g, r.0);
    let z = edge_at(s, g, r.1);
    proof {
        lemma_edges(b@, g@, r.0 as int, r.1 as int);
        lemma_edges(b@, g@, r.1 as int, r.1 as int);
    }
    match parse_u64(b, a, z) {
        Err(err) => Err(range_err(s, g, r, ErrKind::Sw(SwErrKind::Int { group, err }))),
        Ok(u) => match u.checked_mul(per) {
            None => Err(range_err(s, g, r, ErrKind::Sw(SwErrKind::DurationOverflow(group)))),
            Some(v) => match acc.checked_add(v) {
                None => Err(range_err(s, g, r, ErrKind::Sw(SwErrKind::DurationOverflow(group)))),
                Some(total) => Ok(total),
            },
        },
    }
}

/// Adds the fraction; see `add_fraction`.
fn add_fraction_exec<'s>(b: &[u8], s: &'s str, g: &Vec<(usize, usize)>, r: (usize, usize), secs: u64) -> (res:
    Result<Duration, ParseErr<'s>>)
    requires
        line_ok(b, s, g@),
        range_ok(r, g@.len() as int),
    ensures
        agrees(res, add_fraction(b@, g@, r, secs as int), s,
            res matches Ok(d) && add_fraction(b@, g@, r, secs as int) == Ok::<int, Failure>(d@)),
{
    let whole = Duration::from_secs(secs);
    if r.0 >= r.1 {
        return Ok(whole);
    }
    match frac_digits(b, s, g, r.0, r.1, 9) {
        Err(ParseFracErr::ParseDigit { idx, len, err }) => {
            proof {
                let i = choose|i: int|
                    r.0 <= i < r.1 && idx == #[trigger] edge(b@, g@, i) && idx + len == edge(b@, g@, i + 1);
                lemma_cluster_bounds(b@, g@, i);
                lemma_edges(b@, g@, i, i + 1);
                assert(on_edges(
                    b@,
                    fail(
                        idx as int,
                        idx + len,
                        normalized(ErrKind::Sw(SwErrKind::Int { group: Group::SecondsSub, err })),
                    ),
                ));
            }
            Err(
                ParseErr::new(
                    ByteSpan::new(idx, len, s),
                    ErrKind::Sw(SwErrKind::Int { group: Group::SecondsSub, err }),
                ),
            )
        },
        Err(ParseFracErr::NumeratorOverflow { .. }) => Err(
            range_err(s, g, r, ErrKind::Sw(SwErrKind::DurationOverflow(Group::SecondsSub))),
        ),
        Ok(n) => match whole.checked_add(Duration::from_nanos(n as u64)) {
            None => Err(
                range_err(s, g, r, ErrKind::Sw(SwErrKind::DurationOverflow(Group::SecondsSub))),
            ),
            Some(d) => Ok(d),
        },
    }
}

impl ReadDur {
    /// Reads `s` in the colon grammar, `[+|-][[hours:]minutes:]seconds[.fraction]`.
    /// Fields are found from the right, and a field left empty counts as
    /// zero; digits of the fraction past nanoseconds are dropped. Minutes and
    /// seconds may be 60 or more. A negative value where `allow_neg` is
    /// false is an error.
    #[verifier::rlimit(40)]
    pub fn parse_as_sw(s: &str, allow_neg: bool) -> (r: Result<ReadDur, ParseErr<'_>>)
        ensures
            outcome(r) == sw_model(s.spec_bytes(), allow_neg),
            tiles(s.spec_bytes(), grapheme_spans(s.spec_bytes())),
            points_into(r, s),
            r matches Err(e) ==> on_edges(s.spec_bytes(), e@),
    {
        let g = graphemes(s);
        let b = s.as_bytes();
        let _ = byte_len(s);
        let ghost sb = b@;
        proof {
            encode_utf8_valid_utf8(s@);
        }
        let mut st = Scan {
            cur: Group::SecondsSub,
            hours: (0, 0),
            minutes: (0, 0),
            secs: (0, 0),
            subsecs: (0, 0),
            is_neg: None,
            neg: (0, 0),
        };
        let mut k: usize = g.len();
        let mut cur = next_token(b, s, &g, k);
        loop
            invariant
                line_ok(b, s, g@),
                sb == b@,
                k <= g@.len(),
                scan_valid(st, g@.len() as int),
                scan(sb, g@, g@.len() as int, scan_start()) == scan(sb, g@, k as int, st),
                match lex_next(sb, g@, k as int) {
                    None => cur is None,
                    Some((t, j)) => cur == Some((t, j as usize)),
                },
            ensures
                scan(sb, g@, g@.len() as int, scan_start()) == Ok::<Scan, Failure>(st),
                scan_valid(st, g@.len() as int),
            decreases k,
        {
            proof {
                lemma_lex_next(sb, g@, k as int);
            }
            match cur {
                None => {
                    break;
                },
                Some((t, j)) => {
                    let peek = next_token(b, s, &g, j);
                    let pk = match peek {
                        Some((p, _)) => Some(p.kind),
                        None => None,
                    };
                    match step_exec(s, &g, st, t, pk) {
                        Err(e) => {
                            return Err(e);
                        },
                        Ok(next) => {
                            st = next;
                        },
                    }
                    k = j;
                    cur = peek;
                },
            }
        }
        let is_neg = match st.is_neg {
            Some(true) => true,
            _ => false,
        };
        if !allow_neg && is_neg {
            return Err(range_err(s, &g, st.neg, ErrKind::Negative));
        }
        let h = add_whole_exec(b, s, &g, st.hours, Group::Hours, 3600, 0)?;
        let m = add_whole_exec(b, s, &g, st.minutes, Group::Minutes, 60, h)?;
        let secs = add_whole_exec(b, s, &g, st.secs, Group::SecondsInt, 1, m)?;
        let dur = add_fraction_exec(b, s, &g, st.subsecs, secs)?;
        Ok(ReadDur { dur, is_neg })
    }
}

} // verus!
