//! The pipeline of one tick: a snapshot is aggregated and ranked into a report.
//!
//! A report is a function of the snapshot's contents alone: nothing is
//! carried over from one tick to the next.

use vstd::prelude::*;
use vstd::seq_lib::*;
use crate::aggregate::{
    aggregate,
    aggregate_of,
    all_valid,
    lemma_aggregate_order_independent,
    lemma_empty_aggregate,
};
use crate::error::MonitorError;
use crate::metric::{entry_value, Metric};
use crate::rank::{
    lemma_ranked,
    lemma_ranked_order_independent,
    lemma_top_ranked_descends,
    rank,
    top_ranked,
};
use crate::reading::valid_reading;
use crate::sample::{EntryView, ProcessSample, RankedReport, SampleView};

verus! {

/// The report of a snapshot whose readings are all acceptable.
pub open spec fn report_of(samples: Seq<SampleView>, metric: Metric, limit: nat) -> Seq<EntryView> {
    top_ranked(aggregate_of(samples), metric, limit)
}

/// What a tick makes of a snapshot: its report, or `InvalidMetric` when some
/// reading is not acceptable.
pub open spec fn report_outcome(samples: Seq<SampleView>, metric: Metric, limit: nat) -> Result<
    Seq<EntryView>,
    MonitorError,
> {
    if all_valid(samples) {
        Ok(report_of(samples, metric, limit))
    } else {
        Err(MonitorError::InvalidMetric)
    }
}

/// The outcome of a tick over views.
pub open spec fn outcome_view(result: Result<RankedReport, MonitorError>) -> Result<
    Seq<EntryView>,
    MonitorError,
> {
    match result {
        Ok(report) => Ok(report.deep_view()),
        Err(e) => Err(e),
    }
}

/// Aggregates a snapshot and ranks the aggregate, keeping at most `limit`
/// entries.
pub fn build_report(samples: &Vec<ProcessSample>, metric: Metric, limit: usize) -> (result: Result<
    RankedReport,
    MonitorError,
>)
    ensures
        outcome_view(result) == report_outcome(samples.deep_view(), metric, limit as nat),
        result matches Ok(report) ==> {
            &&& report.len() <= limit
            &&& forall|i: int, j: int|
                0 <= i < j < report.len() ==> entry_value(#[trigger] report[i]@, metric)
                    >= entry_value(#[trigger] report[j]@, metric)
        },
        samples.len() == 0 ==> (result matches Ok(report) && report.len() == 0),
{
    match aggregate(samples) {
        Ok(entries) => Ok(rank(entries, metric, limit)),
        Err(e) => Err(e),
    }
}

proof fn lemma_all_valid_order_independent(a: Seq<SampleView>, b: Seq<SampleView>)
    requires
        a.to_multiset() == b.to_multiset(),
        all_valid(a),
    ensures
        all_valid(b),
{
    broadcast use group_to_multiset_ensures;

    assert forall|i: int| 0 <= i < b.len() implies valid_reading(#[trigger] b[i].cpu_bits) by {
        assert(b.contains(b[i]));
        assert(a.to_multiset().count(b[i]) > 0);
        assert(a.contains(b[i]));
        let k = choose|k: int| 0 <= k < a.len() && a[k] == b[i];
        assert(valid_reading(a[k].cpu_bits));
    }
}

/// Two snapshots that hold the same samples, in whatever order, yield the
/// same outcome: the same report, entry for entry, or the same failure.
pub proof fn lemma_report_order_independent(
    a: Seq<SampleView>,
    b: Seq<SampleView>,
    metric: Metric,
    limit: nat,
)
    requires
        a.to_multiset() == b.to_multiset(),
    ensures
        report_outcome(a, metric, limit) == report_outcome(b, metric, limit),
{
    if all_valid(a) {
        lemma_all_valid_order_independent(a, b);
    }
    if all_valid(b) {
        lemma_all_valid_order_independent(b, a);
    }
    lemma_aggregate_order_independent(a, b);
    lemma_ranked_order_independent(aggregate_of(a), aggregate_of(b), metric);
}

/// Running the pipeline again on the same snapshot yields the same outcome:
/// two results that `build_report` may give for one snapshot, metric and
/// limit agree on whether they fail and, if they do not, hold the same
/// entries in the same order.
pub proof fn lemma_report_repeatable(
    samples: Seq<SampleView>,
    metric: Metric,
    limit: nat,
    first: Result<RankedReport, MonitorError>,
    second: Result<RankedReport, MonitorError>,
)
    requires
        outcome_view(first) == report_outcome(samples, metric, limit),
        outcome_view(second) == report_outcome(samples, metric, limit),
    ensures
        outcome_view(first) == outcome_view(second),
        first is Ok <==> second is Ok,
        first matches Ok(a) ==> (second matches Ok(b) && a.deep_view() == b.deep_view()),
        first matches Err(a) ==> (second matches Err(b) && a == b),
{
}

/// A report holds at most `limit` entries and at most one for each name in
/// the snapshot, and its entries descend by the metric.
pub proof fn lemma_report_bounded_and_descending(
    samples: Seq<SampleView>,
    metric: Metric,
    limit: nat,
)
    ensures
        report_of(samples, metric, limit).len() <= limit,
        report_of(samples, metric, limit).len() <= aggregate_of(samples).len(),
        forall|i: int, j: int|
            0 <= i < j < report_of(samples, metric, limit).len() ==> entry_value(
                #[trigger] report_of(samples, metric, limit)[i],
                metric,
            ) >= entry_value(#[trigger] report_of(samples, metric, limit)[j], metric),
{
    lemma_top_ranked_descends(aggregate_of(samples), metric, limit);
}

/// An empty snapshot yields an empty report, and no failure.
pub proof fn lemma_empty_report(metric: Metric, limit: nat)
    ensures
        report_outcome(Seq::<SampleView>::empty(), metric, limit) == Ok::<
            Seq<EntryView>,
            MonitorError,
        >(Seq::<EntryView>::empty()),
{
    lemma_empty_aggregate();
    lemma_ranked(Seq::<EntryView>::empty(), metric);
    assert(report_of(Seq::<SampleView>::empty(), metric, limit) =~= Seq::<EntryView>::empty());
}

} // verus!
