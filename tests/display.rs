use sw::display::{clamp_prec, DurationFmt};
use sw::duration::Duration;
use sw::parse::ReadDur;

#[test]
fn clock_text() {
    let d = Duration::new(3723, 456_789_000);
    assert_eq!(DurationFmt::new(d, 2, true).render(), "01:02:03.45");
    assert_eq!(DurationFmt::new(d, 0, true).render(), "01:02:03");
    assert_eq!(DurationFmt::new(d, 9, true).render(), "01:02:03.456789000");
    assert_eq!(
        DurationFmt::new(Duration::from_secs(360_000), 1, true).render(),
        "100:00:00.0"
    );
}

#[test]
fn words_text() {
    let d = Duration::new(3723, 456_789_000);
    assert_eq!(
        DurationFmt::new(d, 2, false).render(),
        "1 hour, 2 minutes, 3.45 seconds"
    );
    assert_eq!(DurationFmt::new(Duration::from_secs(1), 0, false).render(), "1 second");
    assert_eq!(
        DurationFmt::new(Duration::from_secs(7260), 0, false).render(),
        "2 hours, 1 minute, 0 seconds"
    );
    assert_eq!(
        DurationFmt::new(Duration::from_millis(1500), 3, false).render(),
        "1.500 seconds"
    );
}

#[test]
fn clock_reads_back_truncated() {
    let cases = [
        (Duration::new(3723, 456_789_123), 2, Duration::new(3723, 450_000_000)),
        (Duration::new(59, 999_999_999), 0, Duration::from_secs(59)),
        (Duration::new(0, 123_456_789), 9, Duration::new(0, 123_456_789)),
        (Duration::max_value(), 3, Duration::new(u64::MAX, 999_000_000)),
    ];
    for (d, prec, expect) in cases {
        let text = DurationFmt::new(d, prec, true).render();
        assert_eq!(
            ReadDur::parse(&text, false),
            Some(Ok(ReadDur {
                dur: expect,
                is_neg: false
            })),
            "text {text}"
        );
        assert_eq!(
            ReadDur::parse_as_sw(&text, true),
            Ok(ReadDur {
                dur: expect,
                is_neg: false
            })
        );
    }
}

#[test]
fn precision_clamped() {
    assert_eq!(clamp_prec(3), (3, false));
    assert_eq!(clamp_prec(9), (9, false));
    assert_eq!(clamp_prec(10), (9, true));
    assert_eq!(clamp_prec(255), (9, true));
}
