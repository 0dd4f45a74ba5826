//! Durations typed by a user, and why a line is not one.

use crate::duration::Duration;
use crate::num::IntError;
use crate::span::ByteSpan;
use crate::lexer::COLON;
use crate::sw::{sw_model, SwErrKind};
use crate::unit::unit_model;
use crate::disjoint::lemma_grammars_disjoint;
use crate::text::{edge, grapheme_spans, tiles};
use vstd::utf8::*;
use crate::unit::UnitErrKind;
use vstd::prelude::*;
use vstd::string::*;

verus! {

/// A duration read from a line, with the sign it was given. The span itself
/// cannot be negative, so the sign stands beside it and the caller decides
/// what a negative value means.
#[derive(Clone, Copy, Debug, PartialEq, Eq, Structural)]
pub struct ReadDur {
    pub dur: Duration,
    pub is_neg: bool,
}

/// A unit of time that a duration can be given in.
#[derive(Clone, Copy, Debug, PartialEq, Eq, PartialOrd, Ord, Structural)]
pub enum Unit {
    Second,
    Minute,
    Hour,
}

/// The byte of `'s'`.
pub const LETTER_S: u8 = 0x73;

/// The byte of `'m'`.
pub const LETTER_M: u8 = 0x6d;

/// The byte of `'h'`.
pub const LETTER_H: u8 = 0x68;

/// The unit that a cluster names: `s`, `m` or `h`.
pub open spec fn unit_of(c: Seq<u8>) -> Option<Unit> {
    if c.len() != 1 {
        None
    } else if c[0] == LETTER_S {
        Some(Unit::Second)
    } else if c[0] == LETTER_M {
        Some(Unit::Minute)
    } else if c[0] == LETTER_H {
        Some(Unit::Hour)
    } else {
        None
    }
}

/// Seconds in one unit.
pub open spec fn unit_secs(u: Unit) -> int {
    match u {
        Unit::Second => 1,
        Unit::Minute => 60,
        Unit::Hour => 3600,
    }
}

impl Unit {
    /// The unit that `grapheme` names, or `grapheme` itself where it names
    /// none.
    pub fn from_grapheme(grapheme: &str) -> (r: Result<Unit, &str>)
        ensures
            match unit_of(grapheme.spec_bytes()) {
                Some(u) => r == Ok::<Unit, &str>(u),
                None => r == Err::<Unit, &str>(grapheme),
            },
    {
        let b = grapheme.as_bytes();
        if b.len() == 1 {
            if b[0] == LETTER_S {
                return Ok(Unit::Second);
            } else if b[0] == LETTER_M {
                return Ok(Unit::Minute);
            } else if b[0] == LETTER_H {
                return Ok(Unit::Hour);
            }
        }
        Err(grapheme)
    }

    /// Seconds in one unit.
    pub fn secs(self) -> (r: u32)
        ensures
            r == unit_secs(self),
    {
        match self {
            Unit::Second => 1,
            Unit::Minute => 60,
            Unit::Hour => 3600,
        }
    }

    /// The name of the unit.
    pub fn name(self) -> (r: &'static str)
        ensures
            r@ == match self {
                Unit::Second => "second"@,
                Unit::Minute => "minute"@,
                Unit::Hour => "hour"@,
            },
    {
        match self {
            Unit::Second => "second",
            Unit::Minute => "minute",
            Unit::Hour => "hour",
        }
    }
}

/// What is wrong with a line.
#[derive(Clone, Copy, Debug, PartialEq, Eq, Structural)]
pub enum ErrKind {
    /// The line fails the unit grammar.
    Unit(UnitErrKind),
    /// The line fails the colon grammar.
    Sw(SwErrKind),
    /// The value is negative where only a positive one is taken.
    Negative,
}

/// The kind an error is given when it is made: an integer too large for the
/// number type becomes a duration too large, which does not tell the width
/// of that type.
pub open spec fn normalized(kind: ErrKind) -> ErrKind {
    match kind {
        ErrKind::Unit(UnitErrKind::ParseInt { err: IntError::PosOverflow, unit }) => ErrKind::Unit(
            UnitErrKind::DurOverflow(unit),
        ),
        ErrKind::Sw(SwErrKind::Int { group, err: IntError::PosOverflow }) => ErrKind::Sw(
            SwErrKind::DurationOverflow(group),
        ),
        _ => kind,
    }
}

/// An error as plain values: the byte range it points at and its kind.
pub struct Failure {
    pub start: int,
    pub end: int,
    pub kind: ErrKind,
}

/// The failure of `kind` at `start..end`.
pub open spec fn fail(start: int, end: int, kind: ErrKind) -> Failure {
    Failure { start, end, kind }
}

/// Why a line is not a duration, and where in the line.
#[derive(Clone, Copy, Debug, PartialEq, Eq)]
pub struct ParseErr<'s> {
    span: ByteSpan<'s>,
    kind: ErrKind,
}

impl<'s> View for ParseErr<'s> {
    type V = Failure;

    closed spec fn view(&self) -> Failure {
        Failure { start: self.span.lo(), end: self.span.hi(), kind: self.kind }
    }
}

/// A result of a parser seen as plain values: the duration in nanoseconds
/// and its sign, or the failure.
pub open spec fn outcome(r: Result<ReadDur, ParseErr>) -> Result<(int, bool), Failure> {
    match r {
        Ok(d) => Ok((d.dur@, d.is_neg)),
        Err(e) => Err(e@),
    }
}

/// The failure points at a run of whole grapheme clusters of the line `b`.
pub open spec fn on_edges(b: Seq<u8>, f: Failure) -> bool {
    let g = grapheme_spans(b);
    exists|i: int, j: int|
        0 <= i <= j <= g.len() && f.start == edge(b, g, i) && f.end == edge(b, g, j)
}

/// An error of a parse of `s` points into `s`.
pub open spec fn points_into<T>(r: Result<T, ParseErr>, s: &str) -> bool {
    r matches Err(e) ==> e.source() == s
}

impl<'s> ParseErr<'s> {
    /// The line the error points into.
    pub closed spec fn source(&self) -> &'s str {
        self.span.source()
    }

    /// An error of `kind` at `span`, normalized.
    pub fn new(span: ByteSpan<'s>, kind: ErrKind) -> (r: ParseErr<'s>)
        ensures
            r@ == fail(span.lo(), span.hi(), normalized(kind)),
            r.source() == span.source(),
    {
        let kind = match kind {
            ErrKind::Unit(UnitErrKind::ParseInt { err: IntError::PosOverflow, unit }) => ErrKind::Unit(
                UnitErrKind::DurOverflow(unit),
            ),
            ErrKind::Sw(SwErrKind::Int { group, err: IntError::PosOverflow }) => ErrKind::Sw(
                SwErrKind::DurationOverflow(group),
            ),
            _ => kind,
        };
        ParseErr { span, kind }
    }

    /// The span of the line that the error points at.
    pub fn span(&self) -> (r: ByteSpan<'s>)
        ensures
            r.lo() == self@.start,
            r.hi() == self@.end,
            r.source() == self.source(),
    {
        self.span
    }

    /// The kind of the error.
    pub fn kind(&self) -> (r: ErrKind)
        ensures
            r == self@.kind,
    {
        self.kind
    }

    /// Whether the error comes with a note on how to mend the input.
    pub fn has_help_message(&self) -> (r: bool)
        ensures
            r == !(self@.kind matches ErrKind::Sw(SwErrKind::UnexpectedSign { .. })),
    {
        match &self.kind {
            ErrKind::Unit(k) => k.has_help_message(),
            ErrKind::Sw(k) => k.has_help_message(),
            ErrKind::Negative => true,
        }
    }
}

/// The line holds a colon byte.
pub open spec fn has_colon(b: Seq<u8>) -> bool {
    exists|i: int| 0 <= i < b.len() && b[i] == COLON
}

/// Whether the colon grammar's error `sw` is reported for a line without a
/// colon rather than the unit grammar's `unit`: a misplaced sign or a refused
/// negative value is, unless the unit grammar refused a negative value too.
pub open spec fn surfaces_over_unit(sw: ErrKind, unit: ErrKind) -> bool {
    (sw matches ErrKind::Sw(SwErrKind::UnexpectedSign { .. }) || sw == ErrKind::Negative) && unit
        != ErrKind::Negative
}

/// What reading the line `b` gives: nothing for an empty line; the colon
/// grammar's result where the line holds a colon; else the unit grammar's,
/// unless only the colon grammar accepts the line. Where both reject a line
/// without a colon, the error is the unit grammar's, but for a misplaced sign
/// or a refused negative value that only the colon grammar found, which it
/// reports. At most one
/// grammar's result is returned, and only its error.
pub open spec fn parse_model(b: Seq<u8>, allow_neg: bool) -> Option<Result<(int, bool), Failure>> {
    if b.len() == 0 {
        None
    } else if has_colon(b) {
        Some(sw_model(b, allow_neg))
    } else {
        match unit_model(b, allow_neg) {
            Ok(v) => Some(Ok(v)),
            Err(e) => match sw_model(b, allow_neg) {
                Ok(v) => Some(Ok(v)),
                Err(f) => if surfaces_over_unit(f.kind, e.kind) {
                    Some(Err(f))
                } else {
                    Some(Err(e))
                },
            },
        }
    }
}

/// Where negative values are refused, no line reads as a negative
/// duration: a sign of minus gives the error `Negative` instead.
pub proof fn lemma_refused_negative(b: Seq<u8>)
    ensures
        parse_model(b, false) matches Some(Ok((_, is_neg))) ==> !is_neg,
        sw_model(b, false) matches Ok((_, is_neg)) ==> !is_neg,
        unit_model(b, false) matches Ok((_, is_neg)) ==> !is_neg,
{
}

/// A line that reads as a negative duration where negative values are
/// allowed gives the error `Negative` where they are refused.
pub proof fn lemma_negative_refused_instead(b: Seq<u8>)
    requires
        tiles(b, grapheme_spans(b)),
        valid_utf8(b),
        b.len() <= usize::MAX,
    ensures
        parse_model(b, true) matches Some(Ok((_, true))) ==> parse_model(b, false) matches Some(
            Err(f),
        ) && f.kind == ErrKind::Negative,
{
    if b.len() > 0 && !has_colon(b) {
        if unit_model(b, true) is Ok {
            lemma_grammars_disjoint(b, true, false);
        }
    }
}

/// Whether the line holds a colon byte.
fn holds_colon(b: &[u8]) -> (r: bool)
    ensures
        r == has_colon(b@),
{
    let mut i: usize = 0;
    while i < b.len()
        invariant
            i <= b@.len(),
            forall|j: int| 0 <= j < i ==> b@[j] != COLON,
        decreases b@.len() - i,
    {
        if b[i] == COLON {
            return true;
        }
        i = i + 1;
    }
    false
}

impl ReadDur {
    /// Reads a duration typed by a user: `None` for an empty line, which asks
    /// for no change. A line with a colon is read in the colon grammar;
    /// another in the unit grammar, or in the colon grammar where only that
    /// one accepts it. A failure of both reports the unit grammar's error,
    /// but a misplaced sign or a refused negative value that only the colon
    /// grammar found, which it reports. Every error points at whole grapheme clusters of `s`.
    pub fn parse(s: &str, allow_neg: bool) -> (r: Option<Result<ReadDur, ParseErr<'_>>>)
        ensures
            match r {
                None => parse_model(s.spec_bytes(), allow_neg) is None,
                Some(x) => {
                    &&& parse_model(s.spec_bytes(), allow_neg) == Some(outcome(x))
                    &&& points_into(x, s)
                    &&& x matches Err(e) ==> on_edges(s.spec_bytes(), e@)
                },
            },
            parse_model(s.spec_bytes(), true) matches Some(Ok((_, true))) ==> parse_model(
                s.spec_bytes(),
                false,
            ) matches Some(Err(f)) && f.kind == ErrKind::Negative,
    {
        let b = s.as_bytes();
        proof {
            encode_utf8_valid_utf8(s@);
        }
        if b.len() == 0 {
            return None;
        }
        if holds_colon(b) {
            let r = ReadDur::parse_as_sw(s, allow_neg);
            proof {
                lemma_negative_refused_instead(b@);
            }
            return Some(r);
        }
        let unit_result = ReadDur::parse_as_unit(s, allow_neg);
        proof {
            lemma_negative_refused_instead(b@);
        }
        match unit_result {
            Ok(v) => Some(Ok(v)),
            Err(e) => match ReadDur::parse_as_sw(s, allow_neg) {
                Ok(v) => Some(Ok(v)),
                Err(f) => {
                    let sign_or_negative = match f.kind() {
                        ErrKind::Sw(SwErrKind::UnexpectedSign { .. }) => true,
                        ErrKind::Negative => true,
                        _ => false,
                    };
                    let unit_negative = match e.kind() {
                        ErrKind::Negative => true,
                        _ => false,
                    };
                    if sign_or_negative && !unit_negative {
                        Some(Err(f))
                    } else {
                        Some(Err(e))
                    }
                },
            },
        }
    }
}

} // verus!
