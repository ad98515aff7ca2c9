//! When a check that recurs at an interval is due.

use vstd::prelude::*;

verus! {

/// Whether a check is due: there was none yet, or the interval has passed since
/// the last one. The instants are readings of one monotonic clock, counted in
/// the unit of the interval; a reading before the last one counts as no time.
pub open spec fn is_due(last_check: Option<u128>, now: u128, interval: u128) -> bool {
    match last_check {
        None => true,
        Some(t) => if now < t {
            interval == 0
        } else {
            now - t >= interval
        },
    }
}

/// Whether a check is due at `now`.
pub fn due(last_check: Option<u128>, now: u128, interval: u128) -> (r: bool)
    ensures
        r == is_due(last_check, now, interval),
{
    match last_check {
        None => true,
        Some(t) => now.saturating_sub(t) >= interval,
    }
}

/// The first check is always due, the next exactly when the interval is over and
/// not one instant later, and what is due stays due until the check is made.
pub proof fn due_at_the_boundary_and_after(last: u128, interval: u128, now: u128, later: u128)
    requires
        now <= later,
    ensures
        is_due(None, now, interval),
        last + interval <= u128::MAX ==> is_due(Some(last), (last + interval) as u128, interval),
        last <= now < last + interval ==> !is_due(Some(last), now, interval),
        is_due(Some(last), now, interval) ==> is_due(Some(last), later, interval),
{
}

/// A clock that seems to run backwards is no reason for a check: before the last
/// one, only an interval of zero is over. From then on a check is due exactly when at
/// least the interval lies between the two.
pub proof fn due_counts_only_time_that_passed(last: u128, interval: u128, now: u128)
    ensures
        now < last ==> (is_due(Some(last), now, interval) <==> interval == 0),
        last <= now ==> (is_due(Some(last), now, interval) <==> last + interval <= now),
{
}

} // verus!
