//! The quantity by which entries are ranked.

use vstd::prelude::*;
use crate::reading::magnitude_units;
use crate::sample::{EntryView, SampleView};

verus! {

/// Which total decides the ranking.
#[derive(Clone, Copy, Debug, PartialEq, Eq, Structural)]
pub enum Metric {
    /// Total resident memory.
    Memory,
    /// Total CPU usage.
    Cpu,
}

impl Metric {
    /// The metric that is not this one.
    pub open spec fn other(self) -> Metric {
        match self {
            Metric::Memory => Metric::Cpu,
            Metric::Cpu => Metric::Memory,
        }
    }
}

impl Default for Metric {
    /// Ranking is by memory unless asked otherwise.
    fn default() -> (metric: Metric)
        ensures
            metric == Metric::Memory,
    {
        Metric::Memory
    }
}

/// What one sample adds to a total, in units of 2^-20.
pub open spec fn sample_weight(sample: SampleView, metric: Metric) -> nat {
    match metric {
        Metric::Memory => sample.memory_bytes as nat,
        Metric::Cpu => magnitude_units(sample.cpu_bits),
    }
}

/// The total of an entry under a metric.
pub open spec fn entry_value(entry: EntryView, metric: Metric) -> nat {
    match metric {
        Metric::Memory => entry.memory_bytes,
        Metric::Cpu => entry.cpu_units,
    }
}

} // verus!
