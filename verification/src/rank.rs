//! Ranking of entries and truncation to the leading ones.

use vstd::prelude::*;
use vstd::relations::*;
use vstd::seq_lib::*;
use crate::metric::{entry_value, Metric};
use crate::order::{lemma_rank_order_total, precedes, rank_order, ranks_no_later};
use crate::sample::{AggregateEntry, EntryView, RankedReport};

verus! {

/// The entries in ranking order.
pub open spec fn ranked(entries: Seq<EntryView>, metric: Metric) -> Seq<EntryView> {
    entries.sort_by(rank_order(metric))
}

/// How many entries a report of at most `limit` holds.
pub open spec fn report_len(available: nat, limit: nat) -> nat {
    if limit <= available {
        limit
    } else {
        available
    }
}

/// The leading entries of the ranking, at most `limit` of them.
pub open spec fn top_ranked(entries: Seq<EntryView>, metric: Metric, limit: nat) -> Seq<EntryView> {
    ranked(entries, metric).take(report_len(entries.len(), limit) as int)
}

/// A sequence is the ranking of the entries when it holds the same entries
/// in ranking order.
pub open spec fn is_ranking_of(
    sorted: Seq<EntryView>,
    entries: Seq<EntryView>,
    metric: Metric,
) -> bool {
    &&& sorted.to_multiset() == entries.to_multiset()
    &&& sorted_by(sorted, rank_order(metric))
}

/// The ranking holds the same entries, in ranking order, and nothing else
/// does: it is the one arrangement of the entries that is in ranking order.
pub proof fn lemma_ranked(entries: Seq<EntryView>, metric: Metric)
    ensures
        is_ranking_of(ranked(entries, metric), entries, metric),
        ranked(entries, metric).len() == entries.len(),
        forall|other: Seq<EntryView>| #[trigger]
            is_ranking_of(other, entries, metric) ==> other == ranked(entries, metric),
{
    lemma_rank_order_total(metric);
    entries.lemma_sort_by_ensures(rank_order(metric));
    to_multiset_len(entries);
    to_multiset_len(ranked(entries, metric));
    assert forall|other: Seq<EntryView>| #[trigger]
        is_ranking_of(other, entries, metric) implies other == ranked(entries, metric) by {
        lemma_sorted_unique(other, ranked(entries, metric), rank_order(metric));
    }
}

/// A report never holds more than the limit, and its entries descend by the
/// metric: of two entries the earlier has the larger total, or the same.
pub proof fn lemma_top_ranked_descends(entries: Seq<EntryView>, metric: Metric, limit: nat)
    ensures
        top_ranked(entries, metric, limit).len() <= limit,
        top_ranked(entries, metric, limit).len() <= entries.len(),
        forall|i: int, j: int|
            0 <= i < j < top_ranked(entries, metric, limit).len() ==> entry_value(
                #[trigger] top_ranked(entries, metric, limit)[i],
                metric,
            ) >= entry_value(#[trigger] top_ranked(entries, metric, limit)[j], metric),
{
    lemma_ranked(entries, metric);
    let whole = ranked(entries, metric);
    let top = top_ranked(entries, metric, limit);
    assert forall|i: int, j: int| 0 <= i < j < top.len() implies entry_value(
        #[trigger] top[i],
        metric,
    ) >= entry_value(#[trigger] top[j], metric) by {
        assert(rank_order(metric)(whole[i], whole[j]));
    }
}

/// Every entry left out of a report is ranked no earlier than every entry
/// in it.
pub proof fn lemma_top_ranked_leads(entries: Seq<EntryView>, metric: Metric, limit: nat)
    ensures
        forall|i: int, j: int|
            0 <= i < top_ranked(entries, metric, limit).len() <= j < entries.len()
                ==> ranks_no_later(
                #[trigger] ranked(entries, metric)[i],
                #[trigger] ranked(entries, metric)[j],
                metric,
            ),
{
    lemma_ranked(entries, metric);
    let whole = ranked(entries, metric);
    assert forall|i: int, j: int|
        0 <= i < top_ranked(entries, metric, limit).len() <= j < entries.len()
            implies ranks_no_later(#[trigger] whole[i], #[trigger] whole[j], metric) by {
        assert(rank_order(metric)(whole[i], whole[j]));
    }
}

/// The ranking does not depend on the order in which the entries are given.
pub proof fn lemma_ranked_order_independent(a: Seq<EntryView>, b: Seq<EntryView>, metric: Metric)
    requires
        a.to_multiset() == b.to_multiset(),
    ensures
        ranked(a, metric) == ranked(b, metric),
        a.len() == b.len(),
{
    lemma_ranked(a, metric);
    lemma_ranked(b, metric);
    to_multiset_len(a);
    to_multiset_len(b);
    assert(is_ranking_of(ranked(a, metric), b, metric));
}

/// The index at which an entry goes into a ranked list: behind everything
/// that is ranked no later than it.
fn insertion_point(sorted: &Vec<AggregateEntry>, entry: &AggregateEntry, metric: Metric) -> (at:
    usize)
    ensures
        at <= sorted.len(),
        forall|k: int| 0 <= k < at ==> ranks_no_later(sorted[k]@, entry@, metric),
        at < sorted.len() ==> !ranks_no_later(sorted[at as int]@, entry@, metric),
{
    let mut at: usize = 0;
    while at < sorted.len() && precedes(&sorted[at], entry, metric)
        invariant
            at <= sorted.len(),
            forall|k: int| 0 <= k < at ==> ranks_no_later(sorted[k]@, entry@, metric),
        decreases sorted.len() - at,
    {
        at += 1;
    }
    at
}

/// Puts the entries in ranking order: the result holds the same entries,
/// each as often as it was given.
pub fn sort_entries(entries: Vec<AggregateEntry>, metric: Metric) -> (sorted: Vec<AggregateEntry>)
    ensures
        sorted.deep_view() == ranked(entries.deep_view(), metric),
        is_ranking_of(sorted.deep_view(), entries.deep_view(), metric),
        sorted.len() == entries.len(),
{
    broadcast use {group_to_multiset_ensures, vstd::multiset::group_multiset_axioms};

    let ghost given = entries.deep_view();
    let ghost order = rank_order(metric);
    let mut rest = entries;
    let mut sorted: Vec<AggregateEntry> = Vec::new();
    proof {
        lemma_rank_order_total(metric);
        assert(sorted.deep_view() =~= Seq::<EntryView>::empty());
        assert(sorted.deep_view().to_multiset().add(rest.deep_view().to_multiset())
            =~= given.to_multiset());
    }
    while rest.len() > 0
        invariant
            order == rank_order(metric),
            total_ordering(order),
            sorted_by(sorted.deep_view(), order),
            sorted.deep_view().to_multiset().add(rest.deep_view().to_multiset())
                == given.to_multiset(),
        decreases rest.len(),
    {
        let ghost placed = sorted.deep_view();
        let ghost waiting = rest.deep_view();
        let entry = rest.pop().unwrap();
        let at = insertion_point(&sorted, &entry, metric);
        proof {
            assert(waiting =~= rest.deep_view().push(entry@));
            assert forall|k: int| 0 <= k < placed.len() implies placed[k] == sorted[k]@ by {}
        }
        sorted.insert(at, entry);
        proof {
            let now = sorted.deep_view();
            assert(now =~= placed.insert(at as int, entry@));
            assert forall|i: int, j: int| 0 <= i < j < now.len() implies #[trigger] order(
                now[i],
                now[j],
            ) by {
                if j < at {
                    assert(order(placed[i], placed[j]));
                } else if j == at {
                    assert(ranks_no_later(placed[i], entry@, metric));
                } else if i < at {
                    assert(order(placed[i], placed[j - 1]));
                } else if i == at {
                    assert(!order(placed[at as int], entry@));
                    assert(order(entry@, placed[at as int]));
                    if j - 1 > at {
                        assert(order(placed[at as int], placed[j - 1]));
                    }
                    assert(order(entry@, placed[j - 1]));
                } else {
                    assert(order(placed[i - 1], placed[j - 1]));
                }
            }
            let left = rest.deep_view();
            to_multiset_build(left, entry@);
            to_multiset_insert(placed, at as int, entry@);
            assert(now.to_multiset().add(left.to_multiset()) =~= placed.to_multiset().add(
                waiting.to_multiset(),
            ));
        }
    }
    proof {
        assert(rest.deep_view() =~= Seq::<EntryView>::empty());
        assert(sorted.deep_view().to_multiset() =~= given.to_multiset());
        lemma_ranked(given, metric);
        assert(is_ranking_of(sorted.deep_view(), given, metric));
        assert(sorted.deep_view().len() == given.len());
    }
    sorted
}

/// Ranks the entries by the metric and keeps the leading ones, at most
/// `limit` of them; the others are dropped.
pub fn rank(entries: Vec<AggregateEntry>, metric: Metric, limit: usize) -> (report: RankedReport)
    ensures
        report.deep_view() == top_ranked(entries.deep_view(), metric, limit as nat),
        report.len() <= limit,
        report.len() <= entries.len(),
        forall|i: int, j: int|
            0 <= i < j < report.len() ==> entry_value(#[trigger] report[i]@, metric)
                >= entry_value(#[trigger] report[j]@, metric),
{
    let ghost given = entries.deep_view();
    let mut report = sort_entries(entries, metric);
    let ghost whole = report.deep_view();
    report.truncate(limit);
    proof {
        lemma_ranked(given, metric);
        lemma_top_ranked_descends(given, metric, limit as nat);
        assert(report.deep_view() =~= top_ranked(given, metric, limit as nat));
        assert forall|i: int, j: int| 0 <= i < j < report.len() implies entry_value(
            #[trigger] report[i]@,
            metric,
        ) >= entry_value(#[trigger] report[j]@, metric) by {
            assert(report.deep_view()[i] == report[i]@);
            assert(report.deep_view()[j] == report[j]@);
        }
    }
    report
}

} // verus!
