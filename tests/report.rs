use sw::parse::ReadDur;

#[test]
fn unit_messages() {
    let e = ReadDur::parse("5x", true).unwrap().unwrap_err();
    assert_eq!(e.message(), "unrecognised unit 'x'");
    assert_eq!(
        e.help().as_deref(),
        Some("use 's' for seconds, 'm' for minutes, and 'h' for hours")
    );
    let e = ReadDur::parse("99999999999999999999m", true).unwrap().unwrap_err();
    assert_eq!(e.message(), "duration overflow while parsing minutes");
    assert_eq!(
        e.help().as_deref(),
        Some("this duration is too large to be represented")
    );
    let e = ReadDur::parse("1x5h", true).unwrap().unwrap_err();
    assert_eq!(e.message(), "invalid digit found in string");
    assert_eq!(e.help().as_deref(), Some("expected the number of hours"));
}

#[test]
fn colon_messages() {
    let e = ReadDur::parse("1:2:3:4", true).unwrap().unwrap_err();
    assert_eq!(e.message(), "unexpected colon");
    assert_eq!(e.help().as_deref(), Some("there is no colon before hours"));
    let e = ReadDur::parse("1.2:3", true).unwrap().unwrap_err();
    assert_eq!(e.message(), "unexpected decimal point");
    assert_eq!(
        e.help().as_deref(),
        Some("found in minutes, but only seconds can have fractional values")
    );
    let e = ReadDur::parse("1:2-", true).unwrap().unwrap_err();
    assert_eq!(e.message(), "sign must be given at the beginning");
    assert_eq!(e.help(), None);
    let e = ReadDur::parse("1:x", true).unwrap().unwrap_err();
    assert_eq!(e.help().as_deref(), Some("seconds are parsed as an integer"));
    let e = ReadDur::parse("-1:00", false).unwrap().unwrap_err();
    assert_eq!(e.message(), "expected positive duration");
    assert_eq!(
        e.help().as_deref(),
        Some("only offsets to duration can be negative")
    );
}

#[test]
fn caret_underline() {
    let e = ReadDur::parse("12 x", true).unwrap().unwrap_err();
    assert_eq!(e.caret_line(), "   ^");
    let e = ReadDur::parse("一二x", true).unwrap().unwrap_err();
    assert_eq!(e.span().get(), "x");
    assert_eq!(e.caret_line(), "    ^");
    let e = ReadDur::parse("5🪴", true).unwrap().unwrap_err();
    assert_eq!(e.caret_line(), " ^^");
}
