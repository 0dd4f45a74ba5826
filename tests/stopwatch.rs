use sw::duration::Duration;
use sw::stopwatch::{Error, Stopwatch};

fn millis(ms: u64) -> Duration {
    Duration::from_millis(ms)
}

fn to_std(d: Duration) -> std::time::Duration {
    std::time::Duration::new(d.as_secs(), d.subsec_nanos())
}

const SANE_TOLERANCE_MS: u64 = 20;
const SANE_DELAY_MS: u64 = 200;

#[test]
fn default() {
    assert_eq!(Stopwatch::default().elapsed(), Duration::zero());
}

#[test]
fn is_running() {
    let mut sw = Stopwatch::default();
    assert!(!sw.is_running());

    sw.start().unwrap();
    assert!(sw.is_running());

    sw.stop().unwrap();
    assert!(!sw.is_running());
}

#[test]
fn toggle() {
    let mut sw = Stopwatch::default();
    assert!(!sw.is_running());

    sw.toggle();
    assert!(sw.is_running());

    sw.toggle();
    assert!(!sw.is_running());
}

#[test]
fn set() {
    let mut sw = Stopwatch::default();

    sw.start().unwrap();
    sw.set(millis(SANE_DELAY_MS));

    assert!(!sw.is_running());
    assert_eq!(sw.elapsed(), millis(SANE_DELAY_MS));
}

#[test]
fn add() {
    let mut sw = Stopwatch::default();
    let delay = millis(SANE_DELAY_MS);

    sw.add(delay);

    sw.start().unwrap();
    sw.add(delay);
    assert!(sw.is_running());

    sw.stop().unwrap();
    sw.add(delay);
    assert!(!sw.is_running());

    let three = to_std(delay) * 3;
    assert!(to_std(sw.elapsed()) >= three);
    assert!(to_std(sw.elapsed()) - three < to_std(millis(SANE_TOLERANCE_MS)));
}

#[test]
fn double_starts_stops_errs() {
    let mut sw = Stopwatch::default();

    assert_eq!(sw.start(), Ok(()));
    assert_eq!(sw.start(), Err(Error::AlreadyStarted));

    assert_eq!(sw.stop(), Ok(()));
    assert_eq!(sw.stop(), Err(Error::AlreadyStopped));
}

#[test]
fn reset_stops_and_clears() {
    let mut sw = Stopwatch::new(millis(500), true);
    sw.reset();
    assert!(!sw.is_running());
    assert_eq!(sw.elapsed(), Duration::zero());
}

#[test]
fn sub_clamps_at_zero() {
    let mut sw = Stopwatch::new(millis(800), false);
    sw.sub(millis(300));
    assert_eq!(sw.elapsed(), millis(500));
    sw.sub(millis(900));
    assert_eq!(sw.elapsed(), Duration::zero());
}

#[test]
fn add_saturates_at_max() {
    let mut sw = Stopwatch::new(Duration::max_value(), false);
    sw.add(millis(1));
    assert_eq!(sw.elapsed(), Duration::max_value());
}

#[test]
fn running_elapsed_grows() {
    let mut sw = Stopwatch::new(millis(1000), true);
    assert!(sw.elapsed().as_nanos() >= 1_000_000_000);
    sw.stop().unwrap();
    assert!(sw.elapsed().as_nanos() >= 1_000_000_000);
}
