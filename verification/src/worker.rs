use vstd::prelude::*;

verus! {

/// Schedules non-overlapping refreshes. A slow collection delays the next
/// refresh instead of attempting to catch up with extra work.
///
/// Times are nanoseconds on one monotonic clock, counted from a reference
/// point that the caller picks (such as the moment the collector started);
/// durations are nanoseconds too.
#[derive(Debug)]
pub struct RefreshCadence {
    interval: u128,
    next_refresh: u128,
}

impl RefreshCadence {
    /// The time between the end of one refresh and the start of the next.
    pub closed spec fn interval_spec(self) -> nat {
        self.interval as nat
    }

    /// The time at which the next refresh is due.
    pub closed spec fn next_refresh_spec(self) -> nat {
        self.next_refresh as nat
    }

    /// A cadence whose first refresh is due at once.
    pub fn new(interval: u128, now: u128) -> (cadence: Self)
        ensures
            cadence.interval_spec() == interval,
            cadence.next_refresh_spec() == now,
    {
        RefreshCadence { interval, next_refresh: now }
    }

    /// How long to wait at `now` before the next refresh: zero once it is due.
    pub fn wait_duration(&self, now: u128) -> (wait: u128)
        ensures
            wait == if self.next_refresh_spec() > now {
                self.next_refresh_spec() - now
            } else {
                0
            },
    {
        if self.next_refresh > now {
            self.next_refresh - now
        } else {
            0
        }
    }

    /// Schedules the next refresh one interval after the collection that
    /// just completed, however long that collection took.
    pub fn record_refresh_completed(&mut self, completed_at: u128)
        requires
            completed_at + old(self).interval_spec() <= u128::MAX,
        ensures
            final(self).interval_spec() == old(self).interval_spec(),
            final(self).next_refresh_spec() == completed_at + old(self).interval_spec(),
    {
        self.next_refresh = completed_at + self.interval;
    }
}

/// A refresh recorded at `completed_at` is followed by a wait that ends
/// exactly one interval after it, whatever the time at which the wait is
/// asked for: a slow collection never shortens the pause that follows it.
pub proof fn lemma_wait_ends_one_interval_after_completion(
    cadence: RefreshCadence,
    completed_at: nat,
    now: nat,
)
    requires
        cadence.next_refresh_spec() == completed_at + cadence.interval_spec(),
        completed_at <= now,
    ensures
        now + (if cadence.next_refresh_spec() > now {
            cadence.next_refresh_spec() - now
        } else {
            0
        }) == if now <= completed_at + cadence.interval_spec() {
            completed_at + cadence.interval_spec()
        } else {
            now
        },
{
}

} // verus!
