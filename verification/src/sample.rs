//! The records that flow through the pipeline, and their mathematical views.

use vstd::prelude::*;

verus! {

/// One process as seen in a snapshot.
#[derive(Debug, PartialEq, Eq)]
pub struct ProcessSample {
    /// The process identifier.
    pub pid: u32,
    /// The process name, used verbatim as the grouping key.
    pub name: String,
    /// Resident memory, in bytes.
    pub memory_bytes: u64,
    /// CPU usage in percent, as the bit pattern of a single-precision number.
    pub cpu_bits: u32,
}

/// A `ProcessSample` with its name as a sequence of characters.
pub struct SampleView {
    pub pid: u32,
    pub name: Seq<char>,
    pub memory_bytes: u64,
    pub cpu_bits: u32,
}

impl View for ProcessSample {
    type V = SampleView;

    open spec fn view(&self) -> SampleView {
        SampleView {
            pid: self.pid,
            name: self.name@,
            memory_bytes: self.memory_bytes,
            cpu_bits: self.cpu_bits,
        }
    }
}

impl DeepView for ProcessSample {
    type V = SampleView;

    open spec fn deep_view(&self) -> SampleView {
        self@
    }
}

impl Clone for ProcessSample {
    fn clone(&self) -> (copy: Self)
        ensures
            copy@ == self@,
    {
        ProcessSample {
            pid: self.pid,
            name: self.name.clone(),
            memory_bytes: self.memory_bytes,
            cpu_bits: self.cpu_bits,
        }
    }
}

/// The totals of all processes that share one name.
#[derive(Debug, PartialEq, Eq)]
pub struct AggregateEntry {
    /// The shared process name.
    pub name: String,
    /// Total resident memory, in bytes: 2^-20 mebibytes.
    pub memory_bytes: u128,
    /// Total CPU usage, in units of 2^-20 percent.
    pub cpu_units: u128,
}

/// An `AggregateEntry` over unbounded integers.
pub struct EntryView {
    pub name: Seq<char>,
    pub memory_bytes: nat,
    pub cpu_units: nat,
}

impl View for AggregateEntry {
    type V = EntryView;

    open spec fn view(&self) -> EntryView {
        EntryView {
            name: self.name@,
            memory_bytes: self.memory_bytes as nat,
            cpu_units: self.cpu_units as nat,
        }
    }
}

impl DeepView for AggregateEntry {
    type V = EntryView;

    open spec fn deep_view(&self) -> EntryView {
        self@
    }
}

impl Clone for AggregateEntry {
    fn clone(&self) -> (copy: Self)
        ensures
            copy@ == self@,
    {
        AggregateEntry {
            name: self.name.clone(),
            memory_bytes: self.memory_bytes,
            cpu_units: self.cpu_units,
        }
    }
}

/// The leading entries of a ranking, first to last.
pub type RankedReport = Vec<AggregateEntry>;

} // verus!
