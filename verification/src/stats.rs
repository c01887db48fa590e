use vstd::prelude::*;

verus! {

/// Turns a cumulative byte counter into the amount transferred since the
/// previous reading.
#[derive(Debug)]
pub struct Throughput {
    previous: u64,
}

/// The amount since the previous reading: nothing on the first reading, nor
/// when the counter did not grow (a restarted container starts again from
/// zero).
pub open spec fn spec_throughput_step(previous: u64, value: u64) -> u64 {
    if previous >= value {
        0
    } else {
        (value - previous) as u64
    }
}

impl Throughput {
    /// The counter reading that the next one is compared with.
    pub closed spec fn previous(&self) -> u64 {
        self.previous
    }

    /// A tracker that has seen no reading yet.
    pub fn new() -> (tracker: Self)
        ensures
            tracker.previous() == u64::MAX,
    {
        Throughput { previous: u64::MAX }
    }

    /// Takes a counter reading and returns what was transferred since the
    /// previous one.
    pub fn next(&mut self, value: u64) -> (delta: u64)
        ensures
            delta == spec_throughput_step(old(self).previous(), value),
            final(self).previous() == value,
    {
        let delta = if self.previous >= value {
            0
        } else {
            value - self.previous
        };
        self.previous = value;
        delta
    }
}

/// The first reading of a fresh tracker gives nothing; after that, a counter
/// that grew from `a` to `b` gives `b - a`, and one that did not grow gives
/// nothing.
pub proof fn lemma_throughput_readings(a: u64, b: u64)
    ensures
        spec_throughput_step(u64::MAX, a) == 0,
        a < b ==> spec_throughput_step(a, b) == b - a,
        a >= b ==> spec_throughput_step(a, b) == 0,
        spec_throughput_step(a, b) <= b,
{
}

/// A throughput figure is dimmed while nothing is transferred.
pub fn throughput_dimmed(delta: u64) -> (dimmed: bool)
    ensures
        dimmed <==> delta == 0,
{
    !(delta > 0)
}

/// The number of processors shown in the processor label, unknown when the
/// engine reports none.
pub fn known_cpus(cpus: i64) -> (known: Option<i64>)
    ensures
        known == (if cpus > 0 { Some(cpus) } else { None::<i64> }),
{
    if cpus > 0 {
        Some(cpus)
    } else {
        None
    }
}

} // verus!
