use sw::duration::Duration;
use sw::lexer::{SwLexer, SwToken, SwTokenKind};
use sw::num::IntError;
use sw::parse::{ErrKind, ParseErr, ReadDur};
use sw::span::ByteSpan;
use sw::sw::{Group, SwErrKind};

fn check(runs: &[(&[&'static str], Result<ReadDur, ParseErr<'static>>)]) {
    for (inputs, expect) in runs {
        for input in inputs.iter() {
            assert_eq!(ReadDur::parse_as_sw(input, true), *expect, "input {input:?}");
        }
    }
}

fn secs(s: u64, is_neg: bool) -> ReadDur {
    ReadDur {
        dur: Duration::from_secs(s),
        is_neg,
    }
}

fn sw_err(s: &'static str, start: usize, len: usize, kind: SwErrKind) -> ParseErr<'static> {
    ParseErr::new(ByteSpan::new(start, len, s), ErrKind::Sw(kind))
}

#[test]
fn basic() {
    check(&[
        (&["3", ":3", "0:3", "::3", "0::3", ":0:3", "0:0:3"], Ok(secs(3, false))),
        (&["-3", "-:3", "-0:3", "-::3", "-0::3", "-:0:3", "-0:0:3"], Ok(secs(3, true))),
        (&["3:", ":3:", ":3:0", "0:3:", "0:3:0"], Ok(secs(180, false))),
        (&["-3:", "-:3:", "-:3:0", "-0:3:", "-0:3:0"], Ok(secs(180, true))),
    ]);
}

#[test]
fn zero_dur_corner_cases() {
    check(&[
        (&["", ":", ":.", "::", "::."], Ok(secs(0, false))),
        (&["-", "-:", "-:.", "-::", "-::."], Ok(secs(0, true))),
    ]);
}

#[test]
fn whitespace_trimmed() {
    const S: &str = " 1:2    45  6 : 4 ";
    let mut lexer = SwLexer::new(S);
    let mut tokens: Vec<SwToken> = Vec::new();
    while let Some(t) = lexer.next() {
        tokens.push(t);
    }
    assert_eq!(
        tokens.pop(),
        Some(SwToken {
            typ: SwTokenKind::Data,
            span: ByteSpan::new(1, 1, S),
        })
    );
    assert_eq!(
        tokens.pop(),
        Some(SwToken {
            typ: SwTokenKind::Colon,
            span: ByteSpan::new(2, 1, S),
        })
    );
    assert_eq!(
        tokens.pop(),
        Some(SwToken {
            typ: SwTokenKind::Data,
            span: ByteSpan::new(3, 10, S),
        })
    );
    assert_eq!(
        tokens.pop(),
        Some(SwToken {
            typ: SwTokenKind::Colon,
            span: ByteSpan::new(14, 1, S),
        })
    );
    assert_eq!(
        tokens.pop(),
        Some(SwToken {
            typ: SwTokenKind::Data,
            span: ByteSpan::new(16, 1, S),
        })
    );
    assert_eq!(tokens.pop(), None);
}

#[test]
fn right_anchored_fields() {
    for s in ["3", ":3", "0:3", "::3", "0::3"] {
        assert_eq!(ReadDur::parse_as_sw(s, false), Ok(secs(3, false)));
    }
    assert_eq!(ReadDur::parse_as_sw("1:02:03", true), Ok(secs(3723, false)));
}

#[test]
fn fraction_of_seconds() {
    assert_eq!(
        ReadDur::parse_as_sw("1:02:03.45", true),
        Ok(ReadDur {
            dur: Duration::new(3723, 450_000_000),
            is_neg: false
        })
    );
    assert_eq!(
        ReadDur::parse_as_sw("3.5", true),
        Ok(ReadDur {
            dur: Duration::new(3, 500_000_000),
            is_neg: false
        })
    );
    assert_eq!(
        ReadDur::parse_as_sw("0.1234567899", true),
        Ok(ReadDur {
            dur: Duration::new(0, 123_456_789),
            is_neg: false
        })
    );
}

#[test]
fn sixty_is_accepted() {
    assert_eq!(ReadDur::parse_as_sw("0:59", true), Ok(secs(59, false)));
    assert_eq!(ReadDur::parse_as_sw("0:60", true), Ok(secs(60, false)));
    assert_eq!(ReadDur::parse_as_sw("60:00", true), Ok(secs(3600, false)));
}

#[test]
fn sign_only_at_start() {
    assert_eq!(
        ReadDur::parse_as_sw("3-", true),
        Err(sw_err("3-", 1, 1, SwErrKind::UnexpectedSign { is_neg: true }))
    );
    assert_eq!(
        ReadDur::parse_as_sw("1+:3", true),
        Err(sw_err("1+:3", 1, 1, SwErrKind::UnexpectedSign { is_neg: false }))
    );
}

#[test]
fn colon_past_hours() {
    assert_eq!(
        ReadDur::parse_as_sw("1:2:3:4", true),
        Err(sw_err("1:2:3:4", 1, 1, SwErrKind::UnexpectedColon))
    );
}

#[test]
fn dot_outside_seconds() {
    assert_eq!(
        ReadDur::parse_as_sw("1.2:3", true),
        Err(sw_err("1.2:3", 1, 1, SwErrKind::UnexpectedDot(Group::Minutes)))
    );
    assert_eq!(
        ReadDur::parse_as_sw("1.2.3", true),
        Err(sw_err("1.2.3", 1, 1, SwErrKind::UnexpectedDot(Group::SecondsInt)))
    );
}

#[test]
fn field_not_a_number() {
    assert_eq!(
        ReadDur::parse_as_sw("1:x", true),
        Err(sw_err(
            "1:x",
            2,
            1,
            SwErrKind::Int {
                group: Group::SecondsInt,
                err: IntError::InvalidDigit
            }
        ))
    );
    assert_eq!(
        ReadDur::parse_as_sw("1:2.3x", true),
        Err(sw_err(
            "1:2.3x",
            5,
            1,
            SwErrKind::Int {
                group: Group::SecondsSub,
                err: IntError::InvalidDigit
            }
        ))
    );
}

#[test]
fn hours_overflow() {
    let s = "5124095576030432:0:0";
    assert_eq!(
        ReadDur::parse_as_sw(s, true),
        Err(sw_err(s, 0, 16, SwErrKind::DurationOverflow(Group::Hours)))
    );
    let s = "99999999999999999999:00:00";
    assert_eq!(
        ReadDur::parse_as_sw(s, true),
        Err(sw_err(s, 0, 20, SwErrKind::DurationOverflow(Group::Hours)))
    );
    let s = "5124095576030431:0:0";
    assert!(ReadDur::parse_as_sw(s, true).is_ok());
}

#[test]
fn negative_refused() {
    assert_eq!(
        ReadDur::parse_as_sw("-1:00", false),
        Err(ParseErr::new(ByteSpan::new(0, 1, "-1:00"), ErrKind::Negative))
    );
}

#[test]
fn group_bounds() {
    assert_eq!(Group::Hours.max(), u64::MAX / 3600 + 1);
    assert_eq!(Group::Minutes.max(), 60);
    assert_eq!(Group::SecondsInt.max(), 60);
    assert_eq!(Group::SecondsSub.max(), 1_000_000_000);
}
