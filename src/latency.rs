//! Cycle-count measurement of an operation, and the running average over all measurements.
use vstd::prelude::*;

verus! {

/// A source of a monotonically increasing cycle count.
pub trait CycleCounter {
    /// Reads the counter once every earlier instruction has completed.
    fn fenced_read(&self) -> u64;

    /// Reads the counter.
    fn read(&self) -> u64;
}

/// The cycles between two counter reads, or `None` where the second is below the first.
pub fn counter_elapsed(start: u64, end: u64) -> (r: Option<u64>)
    ensures
        r == if start <= end {
            Some((end - start) as u64)
        } else {
            None::<u64>
        },
{
    if start <= end {
        Some(end - start)
    } else {
        None
    }
}

/// Runs `f` once between a fenced and a plain read of `counter`, and returns the cycles
/// between the two reads (as `counter_elapsed` gives them) with what `f` returned.
pub fn measure<C: CycleCounter, T, F: Fn() -> T>(counter: &C, f: F) -> (r: (Option<u64>, T))
    requires
        f.requires(()),
    ensures
        f.ensures((), r.1),
{
    let start = counter.fenced_read();
    let res = f();
    let end = counter.read();
    (counter_elapsed(start, end), res)
}

/// Takes a value and does nothing with it: a sink for results that must count as used.
pub fn do_nothing<T>(_value: T) {
}

/// The cycles accumulated over all measurements and how many there were.
#[derive(Clone, Copy, Debug, PartialEq, Eq)]
pub struct LatencyStats {
    pub accumulated_cycles: u64,
    pub sample_count: u64,
}

/// `after` is `before` with one more sample of `elapsed` cycles.
pub open spec fn recorded(before: LatencyStats, elapsed: u64, after: LatencyStats) -> bool {
    &&& after.accumulated_cycles == before.accumulated_cycles + elapsed
    &&& after.sample_count == before.sample_count + 1
}

/// The integer average of the samples, where there is one.
pub open spec fn average_of(stats: LatencyStats) -> Option<nat> {
    if stats.sample_count == 0 {
        None
    } else {
        Some((stats.accumulated_cycles / stats.sample_count) as nat)
    }
}

/// The sum of the samples.
pub open spec fn sum_cycles(samples: Seq<u64>) -> nat
    decreases samples.len(),
{
    if samples.len() == 0 {
        0
    } else {
        sum_cycles(samples.drop_last()) + samples.last() as nat
    }
}

impl LatencyStats {
    /// No samples yet.
    pub fn new() -> (r: LatencyStats)
        ensures
            r.accumulated_cycles == 0,
            r.sample_count == 0,
    {
        LatencyStats { accumulated_cycles: 0, sample_count: 0 }
    }

    /// Adds one sample of `elapsed` cycles. Where either counter would pass `u64::MAX`, the
    /// sample is refused, the statistics stay as they were, and `false` is returned.
    pub fn record(&mut self, elapsed: u64) -> (ok: bool)
        ensures
            ok == (old(self).accumulated_cycles + elapsed <= u64::MAX && old(self).sample_count
                < u64::MAX),
            ok ==> recorded(*old(self), elapsed, *final(self)),
            !ok ==> *final(self) == *old(self),
    {
        if self.sample_count == u64::MAX || self.accumulated_cycles > u64::MAX - elapsed {
            return false;
        }
        self.accumulated_cycles = self.accumulated_cycles + elapsed;
        self.sample_count = self.sample_count + 1;
        true
    }

    /// The integer average of the samples: their sum divided by their number, rounded down;
    /// `None` before the first sample.
    pub fn average(&self) -> (r: Option<u64>)
        ensures
            match r {
                Some(v) => average_of(*self) == Some(v as nat),
                None => average_of(*self) is None,
            },
    {
        if self.sample_count == 0 {
            None
        } else {
            Some(self.accumulated_cycles / self.sample_count)
        }
    }
}

/// Feeding samples `c1..cn` one by one into statistics that start empty leaves as their
/// average the sum `c1 + ... + cn` divided by `n`, rounded down.
pub proof fn lemma_running_average(samples: Seq<u64>, states: Seq<LatencyStats>)
    requires
        states.len() == samples.len() + 1,
        states[0].accumulated_cycles == 0,
        states[0].sample_count == 0,
        forall|i: int|
            0 <= i < samples.len() ==> recorded(#[trigger] states[i], samples[i], states[i + 1]),
    ensures
        states.last().accumulated_cycles == sum_cycles(samples),
        states.last().sample_count == samples.len(),
        samples.len() > 0 ==> average_of(states.last()) == Some(
            sum_cycles(samples) / samples.len(),
        ),
    decreases samples.len(),
{
    if samples.len() > 0 {
        let n = samples.len() - 1;
        lemma_running_average(samples.drop_last(), states.take(n + 1));
        assert(recorded(states[n as int], samples[n as int], states[n + 1]));
        assert(states.take(n + 1).last() == states[n as int]);
    }
}

} // verus!
