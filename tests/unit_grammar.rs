use sw::duration::Duration;
use sw::num::IntError;
use sw::parse::{ErrKind, ParseErr, ReadDur, Unit};
use sw::span::ByteSpan;
use sw::unit::UnitErrKind;

fn unit_err(s: &'static str, start: usize, len: usize, kind: UnitErrKind) -> ParseErr<'static> {
    ParseErr::new(ByteSpan::new(start, len, s), ErrKind::Unit(kind))
}

#[test]
fn whitespace() {
    let expect = Ok(ReadDur {
        dur: Duration::from_secs(1),
        is_neg: false,
    });
    assert_eq!(ReadDur::parse_as_unit(" 1s", true), expect);
    assert_eq!(ReadDur::parse_as_unit("1s ", true), expect);
    assert_eq!(ReadDur::parse_as_unit("1 s", true), expect);
    assert_eq!(ReadDur::parse_as_unit("1. s", true), expect);
    assert_eq!(ReadDur::parse_as_unit("1 . s", true), expect);
    assert_eq!(ReadDur::parse_as_unit("1 .s", true), expect);
}

#[test]
fn overflow_bug() {
    assert_eq!(
        ReadDur::parse_as_unit("0.2s", true),
        Ok(ReadDur {
            dur: Duration::from_millis(200),
            is_neg: false,
        })
    );
}

#[test]
fn units_scale() {
    assert_eq!(
        ReadDur::parse_as_unit("1.5h", true),
        Ok(ReadDur {
            dur: Duration::from_secs(5400),
            is_neg: false
        })
    );
    assert_eq!(
        ReadDur::parse_as_unit("0.5m", true),
        Ok(ReadDur {
            dur: Duration::from_secs(30),
            is_neg: false
        })
    );
    assert_eq!(
        ReadDur::parse_as_unit("+2m", true),
        Ok(ReadDur {
            dur: Duration::from_secs(120),
            is_neg: false
        })
    );
    assert_eq!(
        ReadDur::parse_as_unit("  -3 s", true),
        Ok(ReadDur {
            dur: Duration::from_secs(3),
            is_neg: true
        })
    );
    assert_eq!(
        ReadDur::parse_as_unit(".25s", true),
        Ok(ReadDur {
            dur: Duration::from_millis(250),
            is_neg: false
        })
    );
}

#[test]
fn excess_fraction_digits_truncated() {
    assert_eq!(
        ReadDur::parse_as_unit("1.123456789999s", true),
        Ok(ReadDur {
            dur: Duration::new(1, 123_456_789),
            is_neg: false
        })
    );
}

#[test]
fn unit_errors() {
    assert_eq!(
        ReadDur::parse_as_unit("   ", true),
        Err(unit_err("   ", 0, 0, UnitErrKind::UnitMissing))
    );
    assert_eq!(
        ReadDur::parse_as_unit("5x", true),
        Err(unit_err("5x", 1, 1, UnitErrKind::UnitUnknown))
    );
    assert_eq!(
        ReadDur::parse_as_unit(" s", true),
        Err(unit_err(" s", 1, 0, UnitErrKind::DurMissing(Unit::Second)))
    );
    assert_eq!(
        ReadDur::parse_as_unit("1x5s", true),
        Err(unit_err(
            "1x5s",
            0,
            3,
            UnitErrKind::ParseInt {
                err: IntError::InvalidDigit,
                unit: Unit::Second
            }
        ))
    );
    assert_eq!(
        ReadDur::parse_as_unit("1.2xh", true),
        Err(unit_err(
            "1.2xh",
            3,
            1,
            UnitErrKind::ParseInt {
                err: IntError::InvalidDigit,
                unit: Unit::Hour
            }
        ))
    );
    assert_eq!(
        ReadDur::parse_as_unit("99999999999999999999s", true),
        Err(unit_err(
            "99999999999999999999s",
            0,
            20,
            UnitErrKind::DurOverflow(Unit::Second)
        ))
    );
    assert_eq!(
        ReadDur::parse_as_unit("5124095576030432h", true),
        Err(unit_err("5124095576030432h", 0, 16, UnitErrKind::DurOverflow(Unit::Hour)))
    );
}

#[test]
fn emoji_unit_is_one_cluster() {
    let s = "5🪴";
    assert_eq!(
        ReadDur::parse_as_unit(s, true),
        Err(unit_err(s, 1, 4, UnitErrKind::UnitUnknown))
    );
    let s = "5s\u{301}";
    assert_eq!(
        ReadDur::parse_as_unit(s, true),
        Err(unit_err(s, 1, 3, UnitErrKind::UnitUnknown))
    );
}

#[test]
fn unit_from_grapheme() {
    assert_eq!(Unit::from_grapheme("s"), Ok(Unit::Second));
    assert_eq!(Unit::from_grapheme("m"), Ok(Unit::Minute));
    assert_eq!(Unit::from_grapheme("h"), Ok(Unit::Hour));
    assert_eq!(Unit::from_grapheme("d"), Err("d"));
}
