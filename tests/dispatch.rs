use sw::duration::Duration;
use sw::parse::{ErrKind, ParseErr, ReadDur};
use sw::span::ByteSpan;
use sw::sw::{Group, SwErrKind};
use sw::unit::UnitErrKind;

fn secs(s: u64, is_neg: bool) -> ReadDur {
    ReadDur {
        dur: Duration::from_secs(s),
        is_neg,
    }
}

#[test]
fn grammar_by_colon() {
    assert_eq!(ReadDur::parse("1:30", true), Some(Ok(secs(90, false))));
    assert_eq!(ReadDur::parse("1.5h", true), Some(Ok(secs(5400, false))));
    assert_eq!(
        ReadDur::parse("1:30s", true),
        Some(Err(ParseErr::new(
            ByteSpan::new(2, 3, "1:30s"),
            ErrKind::Sw(SwErrKind::Int {
                group: Group::SecondsInt,
                err: sw::num::IntError::InvalidDigit
            })
        )))
    );
}

#[test]
fn empty_line_is_no_change() {
    assert_eq!(ReadDur::parse("", true), None);
}

#[test]
fn sign_placement() {
    assert_eq!(ReadDur::parse("-3", true), Some(Ok(secs(3, true))));
    assert_eq!(
        ReadDur::parse("3-", true),
        Some(Err(ParseErr::new(
            ByteSpan::new(1, 1, "3-"),
            ErrKind::Sw(SwErrKind::UnexpectedSign { is_neg: true })
        )))
    );
}

#[test]
fn other_errors_stay_the_unit_grammars() {
    assert_eq!(
        ReadDur::parse("5x", true),
        Some(Err(ParseErr::new(
            ByteSpan::new(1, 1, "5x"),
            ErrKind::Unit(UnitErrKind::UnitUnknown)
        )))
    );
}

#[test]
fn negative_disallowed() {
    assert_eq!(
        ReadDur::parse(" -5s", false),
        Some(Err(ParseErr::new(ByteSpan::new(1, 1, " -5s"), ErrKind::Negative)))
    );
    assert_eq!(ReadDur::parse(" -5s", true), Some(Ok(secs(5, true))));
    assert_eq!(
        ReadDur::parse("-3", false),
        Some(Err(ParseErr::new(ByteSpan::new(0, 1, "-3"), ErrKind::Negative)))
    );
    assert_eq!(ReadDur::parse("-+5s", true), Some(Ok(secs(5, true))));
    assert_eq!(
        ReadDur::parse("-+5s", false),
        Some(Err(ParseErr::new(ByteSpan::new(0, 1, "-+5s"), ErrKind::Negative)))
    );
}

#[test]
fn overflow_names_hours() {
    let s = "99999999999999999:00:00";
    let r = ReadDur::parse(s, true).unwrap().unwrap_err();
    assert_eq!(r.kind(), ErrKind::Sw(SwErrKind::DurationOverflow(Group::Hours)));
    assert!(r.has_help_message());
}

#[test]
fn unicode_unit_whole_cluster() {
    let s = "12👍🏽";
    let e = ReadDur::parse(s, true).unwrap().unwrap_err();
    assert_eq!(e.kind(), ErrKind::Unit(UnitErrKind::UnitUnknown));
    assert_eq!(e.span().get(), "👍🏽");
    assert_eq!(e.span().get_before(), "12");
    assert_eq!(e.span().get_after(), "");
}

#[test]
fn sign_error_has_no_help() {
    let e = ReadDur::parse_as_sw("3-", true).unwrap_err();
    assert!(!e.has_help_message());
}
