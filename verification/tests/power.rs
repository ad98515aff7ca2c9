use std::time::Duration;
use tesla_fan_control::power::due;

/// A reading of the clock, in nanoseconds.
const SOME_INSTANT: u128 = 1_234_567_890_123_456_789;

fn secs(n: u64) -> u128 {
    Duration::from_secs(n).as_nanos()
}

#[test]
fn first_call_is_always_due() {
    let now: u128 = SOME_INSTANT;
    assert!(due(None, now, secs(120)));
}

#[test]
fn not_due_when_inside_interval() {
    let last: u128 = SOME_INSTANT;
    let now = last + secs(30);
    assert!(!due(Some(last), now, secs(120)));
}

#[test]
fn due_at_exact_interval_boundary() {
    // The drift check must fire at t = last + interval (not t > last + interval).
    // Otherwise an upward drift sits unprotected for one extra poll cycle.
    let last: u128 = SOME_INSTANT;
    let now = last + secs(120);
    assert!(due(Some(last), now, secs(120)));
}

#[test]
fn due_after_interval_elapsed() {
    let last: u128 = SOME_INSTANT;
    let now = last + secs(125);
    assert!(due(Some(last), now, secs(120)));
}

#[test]
fn clock_that_runs_backwards_counts_as_no_time() {
    assert!(!due(Some(secs(10)), secs(5), secs(1)));
    assert!(due(Some(secs(10)), secs(5), 0));
}
