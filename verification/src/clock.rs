//! Time, as nanoseconds on a clock that does not go back.

use vstd::prelude::*;

verus! {

/// A moment, or the time between two.
pub type Nanos = u64;

pub const MILLISECOND: Nanos = 1_000_000;

pub const SECOND: Nanos = 1_000_000_000;

/// How long before `now` the moment `since` was; nothing, if it was later.
pub open spec fn spec_elapsed(now: Nanos, since: Nanos) -> Nanos {
    if now >= since {
        (now - since) as Nanos
    } else {
        0
    }
}

/// How long before `now` the moment `since` was; nothing, if it was later.
#[verifier::when_used_as_spec(spec_elapsed)]
pub fn elapsed(now: Nanos, since: Nanos) -> (age: Nanos)
    ensures
        age == spec_elapsed(now, since),
{
    now.saturating_sub(since)
}

/// The moment `by` earlier than `at`, or the first there is.
pub open spec fn spec_earlier(at: Nanos, by: Nanos) -> Nanos {
    if at >= by {
        (at - by) as Nanos
    } else {
        0
    }
}

/// The moment `by` earlier than `at`, or the first there is.
#[verifier::when_used_as_spec(spec_earlier)]
pub fn earlier(at: Nanos, by: Nanos) -> (moment: Nanos)
    ensures
        moment == spec_earlier(at, by),
{
    at.saturating_sub(by)
}

/// The moment `by` later than `at`, or the last there is.
pub open spec fn spec_later(at: Nanos, by: Nanos) -> Nanos {
    if at + by <= Nanos::MAX {
        (at + by) as Nanos
    } else {
        Nanos::MAX
    }
}

/// The moment `by` later than `at`, or the last there is.
#[verifier::when_used_as_spec(spec_later)]
pub fn later(at: Nanos, by: Nanos) -> (moment: Nanos)
    ensures
        moment == spec_later(at, by),
{
    at.saturating_add(by)
}

/// Time that has passed and time put on are one another's undoing, within what the
/// clock can tell; before the first moment and behind the last there is none.
pub proof fn time_adds_up(at: Nanos, by: Nanos)
    ensures
        at + by <= Nanos::MAX ==> elapsed(later(at, by), at) == by && earlier(later(at, by), by)
            == at,
        at + by > Nanos::MAX ==> later(at, by) == Nanos::MAX,
        by <= at ==> elapsed(at, earlier(at, by)) == by && later(earlier(at, by), by) == at,
        by > at ==> earlier(at, by) == 0,
        elapsed(at, at) == 0,
        by > at ==> elapsed(at, by) == 0,
        SECOND == 1000 * MILLISECOND,
        MILLISECOND == 1_000_000,
{
}

} // verus!
