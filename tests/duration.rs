use sw::duration::Duration;

#[test]
fn duration_parts() {
    let d = Duration::new(3, 1_500_000_000);
    assert_eq!(d.as_secs(), 4);
    assert_eq!(d.subsec_nanos(), 500_000_000);
    assert_eq!(d.as_nanos(), 4_500_000_000);
    assert_eq!(Duration::from_millis(1234).as_nanos(), 1_234_000_000);
    assert_eq!(Duration::from_nanos(2_000_000_001), Duration::new(2, 1));
}

#[test]
fn duration_checked_ops() {
    let max = Duration::max_value();
    assert_eq!(max.checked_add(Duration::from_nanos(1)), None);
    assert_eq!(
        Duration::new(1, 600_000_000).checked_add(Duration::new(2, 600_000_000)),
        Some(Duration::new(4, 200_000_000))
    );
    assert_eq!(Duration::new(1, 500_000_000).checked_mul(3), Some(Duration::new(4, 500_000_000)));
    assert_eq!(Duration::from_secs(u64::MAX).checked_mul(2), None);
    assert_eq!(Duration::from_secs(5).saturating_sub(Duration::from_secs(7)), Duration::zero());
    assert_eq!(
        Duration::new(5, 100).saturating_sub(Duration::new(2, 200)),
        Duration::new(2, 999_999_900)
    );
    assert_eq!(max.saturating_add(max), max);
}
