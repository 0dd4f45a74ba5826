//! What an error says to the user: its message, its note, and the line of
//! carets that underlines the text it points at.

use crate::num::IntError;
use crate::parse::{ErrKind, ParseErr, Unit};
use crate::sw::{Group, SwErrKind};
use crate::unit::UnitErrKind;
use unicode_width::UnicodeWidthStr;
use vstd::prelude::*;
use vstd::string::*;
use vstd::utf8::*;

verus! {

broadcast use {encode_utf8_decode_utf8};

/// The columns that a terminal gives a text.
pub uninterp spec fn text_width(s: Seq<char>) -> usize;

/// Relies on `UnicodeWidthStr::width`: the columns a terminal gives the
/// text, which depends on its characters alone.
#[verifier::external_body]
fn width(s: &str) -> (r: usize)
    ensures
        r == text_width(s@),
{
    UnicodeWidthStr::width(s)
}

/// The description of an integer error.
pub open spec fn int_text(e: IntError) -> Seq<char> {
    match e {
        IntError::Empty => "cannot parse integer from empty string"@,
        IntError::InvalidDigit => "invalid digit found in string"@,
        IntError::PosOverflow => "number too large to fit in target type"@,
    }
}

/// The name of a unit.
pub open spec fn unit_text(u: Unit) -> Seq<char> {
    match u {
        Unit::Second => "second"@,
        Unit::Minute => "minute"@,
        Unit::Hour => "hour"@,
    }
}

/// The name of a field.
pub open spec fn group_text(g: Group) -> Seq<char> {
    match g {
        Group::Hours => "hours"@,
        Group::Minutes => "minutes"@,
        Group::SecondsInt => "seconds"@,
        Group::SecondsSub => "subseconds"@,
    }
}

/// The message of an error of `kind` that points at the text `found`.
pub open spec fn message_text(kind: ErrKind, found: Seq<char>) -> Seq<char> {
    match kind {
        ErrKind::Unit(UnitErrKind::UnitMissing) => "missing unit"@,
        ErrKind::Unit(UnitErrKind::UnitUnknown) => "unrecognised unit '"@ + found + "'"@,
        ErrKind::Unit(UnitErrKind::DurMissing(_)) => "unit given, but missing value"@,
        ErrKind::Unit(UnitErrKind::ParseInt { err, .. }) => int_text(err),
        ErrKind::Unit(UnitErrKind::DurOverflow(u)) => "duration overflow while parsing "@
            + unit_text(u) + "s"@,
        ErrKind::Sw(SwErrKind::UnexpectedColon) => "unexpected colon"@,
        ErrKind::Sw(SwErrKind::UnexpectedDot(_)) => "unexpected decimal point"@,
        ErrKind::Sw(SwErrKind::UnexpectedSign { .. }) => "sign must be given at the beginning"@,
        ErrKind::Sw(SwErrKind::Int { err, .. }) => int_text(err),
        ErrKind::Sw(SwErrKind::DurationOverflow(g)) => "duration overflow while parsing "@
            + group_text(g),
        ErrKind::Negative => "expected positive duration"@,
    }
}

/// The note on how to mend the input, for the errors that have one.
pub open spec fn help_text(kind: ErrKind) -> Option<Seq<char>> {
    match kind {
        ErrKind::Unit(UnitErrKind::UnitMissing) | ErrKind::Unit(UnitErrKind::UnitUnknown) => Some(
            "use 's' for seconds, 'm' for minutes, and 'h' for hours"@,
        ),
        ErrKind::Unit(UnitErrKind::DurMissing(u)) | ErrKind::Unit(
            UnitErrKind::ParseInt { unit: u, .. },
        ) => Some("expected the number of "@ + unit_text(u) + "s"@),
        ErrKind::Unit(UnitErrKind::DurOverflow(_)) | ErrKind::Sw(SwErrKind::DurationOverflow(_)) => Some(
            "this duration is too large to be represented"@,
        ),
        ErrKind::Sw(SwErrKind::UnexpectedColon) => Some("there is no colon before hours"@),
        ErrKind::Sw(SwErrKind::UnexpectedDot(g)) => Some(
            if g == Group::SecondsInt {
                "decimal point was already given for subseconds"@
            } else {
                "found in "@ + group_text(g) + ", but only seconds can have fractional values"@
            },
        ),
        ErrKind::Sw(SwErrKind::UnexpectedSign { .. }) => None,
        ErrKind::Sw(SwErrKind::Int { group, .. }) => Some(group_text(group) + " are parsed as an integer"@),
        ErrKind::Negative => Some("only offsets to duration can be negative"@),
    }
}

/// `spaces` blanks and then `carets` carets.
pub open spec fn underline_text(spaces: nat, carets: nat) -> Seq<char> {
    Seq::new(spaces, |i: int| ' ') + Seq::new(carets, |i: int| '^')
}

/// A line of `spaces` blanks and then `carets` carets.
pub fn underline(spaces: usize, carets: usize) -> (r: String)
    ensures
        r@ == underline_text(spaces as nat, carets as nat),
{
    proof {
        reveal_strlit("");
    }
    let mut out = String::from_str("");
    let mut i: usize = 0;
    while i < spaces
        invariant
            i <= spaces,
            out@ == Seq::new(i as nat, |k: int| ' '),
        decreases spaces - i,
    {
        proof {
            reveal_strlit(" ");
        }
        out.append(" ");
        i = i + 1;
        assert(out@ =~= Seq::new(i as nat, |k: int| ' '));
    }
    let mut j: usize = 0;
    while j < carets
        invariant
            j <= carets,
            out@ == Seq::new(spaces as nat, |k: int| ' ') + Seq::new(j as nat, |k: int| '^'),
        decreases carets - j,
    {
        proof {
            reveal_strlit("^");
        }
        out.append("^");
        j = j + 1;
        assert(out@ =~= Seq::new(spaces as nat, |k: int| ' ') + Seq::new(j as nat, |k: int| '^'));
    }
    assert(out@ =~= underline_text(spaces as nat, carets as nat));
    out
}

/// The name of a field.
fn group_name(g: Group) -> (r: &'static str)
    ensures
        r@ == group_text(g),
{
    g.name()
}

impl<'s> ParseErr<'s> {
    /// The text the error points at.
    pub open spec fn found(&self) -> Seq<char> {
        decode_utf8(self.source().spec_bytes().subrange(self@.start, self@.end))
    }

    /// The text of the line before what the error points at.
    pub open spec fn before(&self) -> Seq<char> {
        decode_utf8(self.source().spec_bytes().subrange(0, self@.start))
    }

    /// What the error says.
    pub fn message(&self) -> (r: String)
        ensures
            r@ == message_text(self@.kind, self.found()),
    {
        let sp = self.span();
        let found = sp.get();
        match self.kind() {
            ErrKind::Unit(UnitErrKind::UnitMissing) => String::from_str("missing unit"),
            ErrKind::Unit(UnitErrKind::UnitUnknown) => {
                let mut out = String::from_str("unrecognised unit '");
                out.append(found);
                out.append("'");
                out
            },
            ErrKind::Unit(UnitErrKind::DurMissing(_)) => String::from_str(
                "unit given, but missing value",
            ),
            ErrKind::Unit(UnitErrKind::ParseInt { err, .. }) => String::from_str(err.message()),
            ErrKind::Unit(UnitErrKind::DurOverflow(u)) => {
                let mut out = String::from_str("duration overflow while parsing ");
                out.append(u.name());
                out.append("s");
                out
            },
            ErrKind::Sw(SwErrKind::UnexpectedColon) => String::from_str("unexpected colon"),
            ErrKind::Sw(SwErrKind::UnexpectedDot(_)) => String::from_str(
                "unexpected decimal point",
            ),
            ErrKind::Sw(SwErrKind::UnexpectedSign { .. }) => String::from_str(
                "sign must be given at the beginning",
            ),
            ErrKind::Sw(SwErrKind::Int { err, .. }) => String::from_str(err.message()),
            ErrKind::Sw(SwErrKind::DurationOverflow(g)) => {
                let mut out = String::from_str("duration overflow while parsing ");
                out.append(group_name(g));
                out
            },
            ErrKind::Negative => String::from_str("expected positive duration"),
        }
    }

    /// The note on how to mend the input, where the error has one.
    pub fn help(&self) -> (r: Option<String>)
        ensures
            match help_text(self@.kind) {
                None => r is None,
                Some(t) => r matches Some(h) && h@ == t,
            },
    {
        match self.kind() {
            ErrKind::Unit(UnitErrKind::UnitMissing) | ErrKind::Unit(UnitErrKind::UnitUnknown) => Some(
                String::from_str("use 's' for seconds, 'm' for minutes, and 'h' for hours"),
            ),
            ErrKind::Unit(UnitErrKind::DurMissing(u)) | ErrKind::Unit(
                UnitErrKind::ParseInt { unit: u, .. },
            ) => {
                let mut out = String::from_str("expected the number of ");
                out.append(u.name());
                out.append("s");
                Some(out)
            },
            ErrKind::Unit(UnitErrKind::DurOverflow(_)) | ErrKind::Sw(
                SwErrKind::DurationOverflow(_),
            ) => Some(String::from_str("this duration is too large to be represented")),
            ErrKind::Sw(SwErrKind::UnexpectedColon) => Some(
                String::from_str("there is no colon before hours"),
            ),
            ErrKind::Sw(SwErrKind::UnexpectedDot(g)) => {
                if g == Group::SecondsInt {
                    Some(String::from_str("decimal point was already given for subseconds"))
                } else {
                    let mut out = String::from_str("found in ");
                    out.append(group_name(g));
                    out.append(", but only seconds can have fractional values");
                    Some(out)
                }
            },
            ErrKind::Sw(SwErrKind::UnexpectedSign { .. }) => None,
            ErrKind::Sw(SwErrKind::Int { group, .. }) => {
                let mut out = String::from_str(group_name(group));
                out.append(" are parsed as an integer");
                Some(out)
            },
            ErrKind::Negative => Some(String::from_str("only offsets to duration can be negative")),
        }
    }

    /// The line of carets under the text the error points at, as wide as
    /// the terminal shows that text, after blanks as wide as the text before
    /// it.
    pub fn caret_line(&self) -> (r: String)
        ensures
            r@ == underline_text(
                text_width(self.before()) as nat,
                text_width(self.found()) as nat,
            ),
    {
        let sp = self.span();
        let before = sp.get_before();
        let found = sp.get();
        proof {
            assert(before@ == decode_utf8(before.spec_bytes()));
            assert(found@ == decode_utf8(found.spec_bytes()));
        }
        underline(width(before), width(found))
    }
}

} // verus!
