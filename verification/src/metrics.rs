//! Counters, gauges and timers kept by the proxy.
//!
//! The metrics backend is pluggable and out of scope here: the library keeps
//! the numbers themselves, and the embedding program may export them however
//! it likes.

use vstd::prelude::*;

verus! {

/// A monotone event counter. Increments saturate at `u64::MAX`.
#[derive(Clone, Copy, PartialEq, Eq, Structural, Debug)]
pub struct Counter {
    pub value: u64,
}

impl Counter {
    pub fn new() -> (r: Counter)
        ensures
            r.value == 0,
    {
        Counter { value: 0 }
    }

    pub fn incr(&mut self, n: u64)
        ensures
            old(self).value + n <= u64::MAX ==> final(self).value == old(self).value + n,
            old(self).value + n > u64::MAX ==> final(self).value == u64::MAX,
    {
        self.value = if self.value <= u64::MAX - n {
            self.value + n
        } else {
            u64::MAX
        };
    }
}

/// A gauge: the last value set.
#[derive(Clone, Copy, PartialEq, Eq, Structural, Debug)]
pub struct Gauge {
    pub value: u64,
}

impl Gauge {
    pub fn new() -> (r: Gauge)
        ensures
            r.value == 0,
    {
        Gauge { value: 0 }
    }

    pub fn set(&mut self, v: u64)
        ensures
            final(self).value == v,
    {
        self.value = v;
    }
}

/// A duration recorder: how many spans were recorded and their total length
/// in milliseconds. Both totals saturate at `u64::MAX`.
#[derive(Clone, Copy, PartialEq, Eq, Structural, Debug)]
pub struct Timer {
    pub count: u64,
    pub total_ms: u64,
}

impl Timer {
    pub fn new() -> (r: Timer)
        ensures
            r.count == 0,
            r.total_ms == 0,
    {
        Timer { count: 0, total_ms: 0 }
    }

    pub fn record(&mut self, ms: u64)
        ensures
            old(self).count < u64::MAX ==> final(self).count == old(self).count + 1,
            old(self).count == u64::MAX ==> final(self).count == u64::MAX,
            old(self).total_ms + ms <= u64::MAX ==> final(self).total_ms == old(self).total_ms + ms,
            old(self).total_ms + ms > u64::MAX ==> final(self).total_ms == u64::MAX,
    {
        self.count = if self.count < u64::MAX {
            self.count + 1
        } else {
            u64::MAX
        };
        self.total_ms = if self.total_ms <= u64::MAX - ms {
            self.total_ms + ms
        } else {
            u64::MAX
        };
    }
}

} // verus!
