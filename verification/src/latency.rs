//! The arrival clock of a simulated stream: a message arrives at its event
//! time plus a sampled latency, but never before the message ahead of it, so
//! jitter never reorders a stream.

use vstd::prelude::*;

verus! {

/// The arrival time of the last message of a stream, in nanoseconds.
#[derive(Clone, Copy, Debug, PartialEq, Eq, Structural)]
pub struct ArrivalClock {
    pub prev_arrival: i64,
}

/// When a message of event time `ts_event` and latency `sample` arrives
/// after one that arrived at `prev`.
pub open spec fn arrival_spec(prev: i64, ts_event: i64, sample: i64) -> int {
    if ts_event + sample >= prev {
        ts_event + sample
    } else {
        prev as int
    }
}

impl ArrivalClock {
    /// A clock before any message: the earliest time.
    pub fn new() -> (r: ArrivalClock)
        ensures
            r.prev_arrival == i64::MIN,
    {
        ArrivalClock { prev_arrival: i64::MIN }
    }

    /// The arrival of a message of event time `ts_event` delayed by `sample`:
    /// `max(prev_arrival, ts_event + sample)`, which becomes the clock's time.
    pub fn arrival(&mut self, ts_event: i64, sample: i64) -> (r: i64)
        requires
            i64::MIN <= ts_event + sample <= i64::MAX,
        ensures
            r == arrival_spec(old(self).prev_arrival, ts_event, sample),
            final(self).prev_arrival == r,
    {
        let t = ts_event + sample;
        let a = if t >= self.prev_arrival {
            t
        } else {
            self.prev_arrival
        };
        self.prev_arrival = a;
        a
    }
}

/// Law: arrivals within a stream never go backwards, and none comes before
/// its own event time plus its latency.
pub proof fn law_arrivals_monotonic(prev: i64, ts_event: i64, sample: i64)
    ensures
        arrival_spec(prev, ts_event, sample) >= prev,
        arrival_spec(prev, ts_event, sample) >= ts_event + sample,
{
}

} // verus!
