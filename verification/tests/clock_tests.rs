use rust_actions::clock::VirtualClock;
use std::time::Duration;

#[test]
fn test_advance() {
    let mut clock = VirtualClock::new();
    assert_eq!(clock.current(), 0);

    let start = clock.now();
    clock.advance(Duration::from_secs(1).as_nanos() as u64);
    assert_eq!(clock.elapsed_since(start), Duration::from_secs(1).as_nanos() as u64);

    clock.advance(Duration::from_millis(500).as_nanos() as u64);
    assert_eq!(clock.elapsed_since(start), Duration::from_millis(1500).as_nanos() as u64);
}

#[test]
fn test_set() {
    let mut clock = VirtualClock::new();
    clock.set(Duration::from_secs(100).as_nanos() as u64);
    assert_eq!(clock.current(), Duration::from_secs(100).as_nanos() as u64);
}

#[test]
fn test_reset() {
    let mut clock = VirtualClock::new();
    clock.advance(Duration::from_secs(10).as_nanos() as u64);
    clock.reset();
    assert_eq!(clock.current(), 0);
}

#[test]
fn test_elapsed_never_negative() {
    let mut clock = VirtualClock::new();
    clock.set(50);
    let later = clock.now();
    clock.reset();
    assert_eq!(clock.elapsed_since(later), 0);
}
