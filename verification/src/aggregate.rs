//! Grouping of samples by process name.
//!
//! All samples that carry the same name, compared character for character,
//! are summed into one entry. Entries come out in the order in which their
//! names first appear in the snapshot.

use vstd::prelude::*;
use crate::error::MonitorError;
use crate::metric::{sample_weight, Metric};
use crate::reading::{reading_units, valid_reading};
use crate::sample::{AggregateEntry, EntryView, ProcessSample, SampleView};

verus! {

/// Every sample carries an acceptable CPU reading.
pub open spec fn all_valid(samples: Seq<SampleView>) -> bool {
    forall|i: int| 0 <= i < samples.len() ==> valid_reading(#[trigger] samples[i].cpu_bits)
}

/// Some sample carries the name.
pub open spec fn has_name(samples: Seq<SampleView>, name: Seq<char>) -> bool {
    exists|i: int| 0 <= i < samples.len() && #[trigger] samples[i].name == name
}

/// The sum of a metric over the samples that carry the name.
pub open spec fn total(samples: Seq<SampleView>, name: Seq<char>, metric: Metric) -> nat
    decreases samples.len(),
{
    if samples.len() == 0 {
        0
    } else {
        let earlier = total(samples.drop_last(), name, metric);
        if samples.last().name == name {
            earlier + sample_weight(samples.last(), metric)
        } else {
            earlier
        }
    }
}

/// The distinct names of a snapshot, in order of first appearance.
pub open spec fn names_seen(samples: Seq<SampleView>) -> Seq<Seq<char>>
    decreases samples.len(),
{
    if samples.len() == 0 {
        Seq::empty()
    } else {
        let earlier = names_seen(samples.drop_last());
        if earlier.contains(samples.last().name) {
            earlier
        } else {
            earlier.push(samples.last().name)
        }
    }
}

/// The entry that a snapshot yields for a name.
pub open spec fn entry_for(samples: Seq<SampleView>, name: Seq<char>) -> EntryView {
    EntryView {
        name,
        memory_bytes: total(samples, name, Metric::Memory),
        cpu_units: total(samples, name, Metric::Cpu),
    }
}

/// The aggregate of a snapshot: one entry for each distinct name.
pub open spec fn aggregate_of(samples: Seq<SampleView>) -> Seq<EntryView> {
    Seq::new(names_seen(samples).len(), |i: int| entry_for(samples, names_seen(samples)[i]))
}

/// The names of a sequence of entries.
pub open spec fn entry_names(entries: Seq<EntryView>) -> Seq<Seq<char>> {
    Seq::new(entries.len(), |i: int| entries[i].name)
}

/// The names seen are exactly the names that occur, each listed once.
pub proof fn lemma_names_seen(samples: Seq<SampleView>)
    ensures
        names_seen(samples).no_duplicates(),
        names_seen(samples).len() <= samples.len(),
        forall|name: Seq<char>| #[trigger]
            names_seen(samples).contains(name) <==> has_name(samples, name),
    decreases samples.len(),
{
    if samples.len() > 0 {
        let head = samples.drop_last();
        let last = samples.last();
        lemma_names_seen(head);
        assert forall|name: Seq<char>| #[trigger]
            names_seen(samples).contains(name) <==> has_name(samples, name) by {
            if names_seen(samples).contains(name) {
                if names_seen(head).contains(name) {
                    let i = choose|i: int| 0 <= i < head.len() && #[trigger] head[i].name == name;
                    assert(samples[i].name == name);
                } else {
                    assert(samples[samples.len() - 1].name == name);
                }
            }
            if has_name(samples, name) {
                let i = choose|i: int| 0 <= i < samples.len() && #[trigger] samples[i].name == name;
                if i < head.len() {
                    assert(head[i].name == name);
                    assert(names_seen(head).contains(name));
                    let j = choose|j: int|
                        0 <= j < names_seen(head).len() && names_seen(head)[j] == name;
                    assert(names_seen(samples)[j] == name);
                } else {
                    if names_seen(head).contains(name) {
                    } else {
                        assert(names_seen(samples)[names_seen(head).len() as int] == name);
                    }
                }
            }
        }
    }
}

/// A name that no sample carries has a total of zero.
pub proof fn lemma_total_of_absent_name(samples: Seq<SampleView>, name: Seq<char>, metric: Metric)
    requires
        !has_name(samples, name),
    ensures
        total(samples, name, metric) == 0,
    decreases samples.len(),
{
    if samples.len() > 0 {
        let head = samples.drop_last();
        assert(samples[samples.len() - 1].name != name);
        assert forall|i: int| 0 <= i < head.len() implies #[trigger] head[i].name != name by {
            assert(samples[i].name != name);
        }
        lemma_total_of_absent_name(head, name, metric);
    }
}

/// A total is at most the number of samples times the largest weight.
pub proof fn lemma_total_bound(samples: Seq<SampleView>, name: Seq<char>, metric: Metric)
    requires
        all_valid(samples),
    ensures
        total(samples, name, metric) <= samples.len() * u64::MAX,
    decreases samples.len(),
{
    if samples.len() > 0 {
        let head = samples.drop_last();
        let last = samples.last();
        assert forall|i: int| 0 <= i < head.len() implies valid_reading(
            #[trigger] head[i].cpu_bits,
        ) by {
            assert(valid_reading(samples[i].cpu_bits));
        }
        lemma_total_bound(head, name, metric);
        assert(valid_reading(samples[samples.len() - 1].cpu_bits));
        crate::reading::lemma_valid_reading_fits(last.cpu_bits);
        assert(sample_weight(last, metric) <= u64::MAX);
    }
}

/// Taking a sample out lowers the total of its name by its weight, and
/// leaves every other total as it was.
pub proof fn lemma_total_remove(
    samples: Seq<SampleView>,
    k: int,
    name: Seq<char>,
    metric: Metric,
)
    requires
        0 <= k < samples.len(),
    ensures
        total(samples, name, metric) == total(samples.remove(k), name, metric) + if samples[k].name
            == name {
            sample_weight(samples[k], metric)
        } else {
            0
        },
    decreases samples.len(),
{
    if k == samples.len() - 1 {
        assert(samples.remove(k) =~= samples.drop_last());
    } else {
        let head = samples.drop_last();
        lemma_total_remove(head, k, name, metric);
        assert(samples.remove(k).drop_last() =~= head.remove(k));
        assert(samples.remove(k).last() == samples.last());
        assert(head[k] == samples[k]);
    }
}

/// Totals do not depend on the order of the samples.
pub proof fn lemma_total_order_independent(
    a: Seq<SampleView>,
    b: Seq<SampleView>,
    name: Seq<char>,
    metric: Metric,
)
    requires
        a.to_multiset() == b.to_multiset(),
    ensures
        total(a, name, metric) == total(b, name, metric),
    decreases a.len(),
{
    broadcast use vstd::seq_lib::group_to_multiset_ensures;

    assert(a.len() == b.len()) by {
        vstd::seq_lib::to_multiset_len(a);
        vstd::seq_lib::to_multiset_len(b);
    }
    if a.len() > 0 {
        let last = a.last();
        assert(a.contains(last)) by {
            assert(a[a.len() - 1] == last);
        }
        assert(b.to_multiset().count(last) > 0);
        assert(b.contains(last));
        let k = choose|k: int| 0 <= k < b.len() && b[k] == last;
        assert(a.drop_last() =~= a.remove(a.len() - 1));
        assert(a.drop_last().to_multiset() == b.remove(k).to_multiset());
        lemma_total_order_independent(a.drop_last(), b.remove(k), name, metric);
        lemma_total_remove(b, k, name, metric);
    }
}

/// The entries are an aggregate of the snapshot: no two of them share a name,
/// each carries a name that occurs in the snapshot together with the sums
/// over the samples of that name, and every name that occurs has its entry.
pub open spec fn is_aggregate_of(entries: Seq<EntryView>, samples: Seq<SampleView>) -> bool {
    &&& forall|i: int, j: int|
        0 <= i < j < entries.len() ==> (#[trigger] entries[i]).name != (#[trigger] entries[j]).name
    &&& forall|i: int|
        0 <= i < entries.len() ==> has_name(samples, entries[i].name) && #[trigger] entries[i]
            == entry_for(samples, entries[i].name)
    &&& forall|k: int|
        0 <= k < samples.len() ==> entry_names(entries).contains(#[trigger] samples[k].name)
}

/// The aggregate holds exactly one entry for each name that occurs in the
/// snapshot and none for any other, and each entry carries the sums over the
/// samples of its name.
pub proof fn lemma_one_entry_per_name(samples: Seq<SampleView>)
    ensures
        is_aggregate_of(aggregate_of(samples), samples),
        entry_names(aggregate_of(samples)) == names_seen(samples),
        entry_names(aggregate_of(samples)).no_duplicates(),
        aggregate_of(samples).no_duplicates(),
        forall|name: Seq<char>| #[trigger]
            entry_names(aggregate_of(samples)).contains(name) <==> has_name(samples, name),
{
    lemma_names_seen(samples);
    let entries = aggregate_of(samples);
    assert(entry_names(entries) =~= names_seen(samples));
    assert forall|i: int, j: int| 0 <= i < entries.len() && 0 <= j < entries.len() && i
        != j implies entries[i] != entries[j] by {
        assert(names_seen(samples)[i] != names_seen(samples)[j]);
    }
    assert forall|i: int, j: int| 0 <= i < j < entries.len() implies (#[trigger] entries[i]).name
        != (#[trigger] entries[j]).name by {
        assert(names_seen(samples)[i] != names_seen(samples)[j]);
    }
    assert forall|i: int| 0 <= i < entries.len() implies has_name(samples, entries[i].name)
        && #[trigger] entries[i] == entry_for(samples, entries[i].name) by {
        assert(names_seen(samples).contains(names_seen(samples)[i]));
    }
    assert forall|k: int| 0 <= k < samples.len() implies entry_names(entries).contains(
        #[trigger] samples[k].name,
    ) by {
        assert(has_name(samples, samples[k].name));
    }
}

/// Reordering the samples leaves the aggregate the same up to the order of
/// its entries.
pub proof fn lemma_aggregate_order_independent(a: Seq<SampleView>, b: Seq<SampleView>)
    requires
        a.to_multiset() == b.to_multiset(),
    ensures
        aggregate_of(a).to_multiset() == aggregate_of(b).to_multiset(),
{
    broadcast use vstd::seq_lib::group_to_multiset_ensures;

    lemma_one_entry_per_name(a);
    lemma_one_entry_per_name(b);
    lemma_names_seen(a);
    lemma_names_seen(b);
    let x = aggregate_of(a);
    let y = aggregate_of(b);
    assert forall|name: Seq<char>| has_name(a, name) == has_name(b, name) by {
        if has_name(a, name) {
            lemma_has_name_order_independent(a, b, name);
        }
        if has_name(b, name) {
            lemma_has_name_order_independent(b, a, name);
        }
    }
    assert forall|e: EntryView| x.contains(e) == y.contains(e) by {
        lemma_aggregate_contains(a, e);
        lemma_aggregate_contains(b, e);
        lemma_total_order_independent(a, b, e.name, Metric::Memory);
        lemma_total_order_independent(a, b, e.name, Metric::Cpu);
    }
    x.lemma_multiset_has_no_duplicates();
    y.lemma_multiset_has_no_duplicates();
    assert forall|e: EntryView| x.to_multiset().count(e) == y.to_multiset().count(e) by {
        assert(x.contains(e) == y.contains(e));
    }
    assert(x.to_multiset() =~= y.to_multiset());
}

proof fn lemma_has_name_order_independent(a: Seq<SampleView>, b: Seq<SampleView>, name: Seq<char>)
    requires
        a.to_multiset() == b.to_multiset(),
        has_name(a, name),
    ensures
        has_name(b, name),
{
    broadcast use vstd::seq_lib::group_to_multiset_ensures;

    let i = choose|i: int| 0 <= i < a.len() && #[trigger] a[i].name == name;
    assert(a.contains(a[i]));
    assert(b.to_multiset().count(a[i]) > 0);
    assert(b.contains(a[i]));
    let k = choose|k: int| 0 <= k < b.len() && b[k] == a[i];
    assert(b[k].name == name);
}

proof fn lemma_aggregate_contains(samples: Seq<SampleView>, e: EntryView)
    ensures
        aggregate_of(samples).contains(e) <==> has_name(samples, e.name) && e == entry_for(
            samples,
            e.name,
        ),
{
    lemma_names_seen(samples);
    if aggregate_of(samples).contains(e) {
        let i = choose|i: int| 0 <= i < aggregate_of(samples).len() && aggregate_of(samples)[i] == e;
        assert(names_seen(samples)[i] == e.name);
        assert(names_seen(samples).contains(e.name));
    }
    if has_name(samples, e.name) && e == entry_for(samples, e.name) {
        assert(names_seen(samples).contains(e.name));
        let j = choose|j: int| 0 <= j < names_seen(samples).len() && names_seen(samples)[j] == e.name;
        assert(aggregate_of(samples)[j] == e);
    }
}

/// The sum of a metric over all samples, whatever their names.
pub open spec fn grand_total(samples: Seq<SampleView>, metric: Metric) -> nat
    decreases samples.len(),
{
    if samples.len() == 0 {
        0
    } else {
        grand_total(samples.drop_last(), metric) + sample_weight(samples.last(), metric)
    }
}

/// When every process shares one name, the aggregate is a single entry that
/// carries the sums over all samples.
pub proof fn lemma_single_name(samples: Seq<SampleView>, name: Seq<char>)
    requires
        samples.len() > 0,
        forall|i: int| 0 <= i < samples.len() ==> #[trigger] samples[i].name == name,
    ensures
        aggregate_of(samples) == seq![
            EntryView {
                name,
                memory_bytes: grand_total(samples, Metric::Memory),
                cpu_units: grand_total(samples, Metric::Cpu),
            },
        ],
{
    lemma_uniform_names(samples, name);
    lemma_uniform_total(samples, name, Metric::Memory);
    lemma_uniform_total(samples, name, Metric::Cpu);
    assert(aggregate_of(samples) =~= seq![
        EntryView {
            name,
            memory_bytes: grand_total(samples, Metric::Memory),
            cpu_units: grand_total(samples, Metric::Cpu),
        },
    ]);
}

proof fn lemma_uniform_names(samples: Seq<SampleView>, name: Seq<char>)
    requires
        samples.len() > 0,
        forall|i: int| 0 <= i < samples.len() ==> #[trigger] samples[i].name == name,
    ensures
        names_seen(samples) == seq![name],
    decreases samples.len(),
{
    let head = samples.drop_last();
    assert(samples[samples.len() - 1].name == name);
    if head.len() == 0 {
        assert(names_seen(head) =~= Seq::<Seq<char>>::empty());
        assert(names_seen(samples) =~= seq![name]);
    } else {
        assert forall|i: int| 0 <= i < head.len() implies #[trigger] head[i].name == name by {
            assert(samples[i].name == name);
        }
        lemma_uniform_names(head, name);
        assert(names_seen(head)[0] == name);
    }
}

proof fn lemma_uniform_total(samples: Seq<SampleView>, name: Seq<char>, metric: Metric)
    requires
        forall|i: int| 0 <= i < samples.len() ==> #[trigger] samples[i].name == name,
    ensures
        total(samples, name, metric) == grand_total(samples, metric),
    decreases samples.len(),
{
    if samples.len() > 0 {
        let head = samples.drop_last();
        assert(samples[samples.len() - 1].name == name);
        assert forall|i: int| 0 <= i < head.len() implies #[trigger] head[i].name == name by {
            assert(samples[i].name == name);
        }
        lemma_uniform_total(head, name, metric);
    }
}

/// The index of the entry that carries the name, if there is one.
fn find_entry(entries: &Vec<AggregateEntry>, name: &String) -> (found: Option<usize>)
    ensures
        match found {
            Some(j) => j < entries.len() && entries[j as int].name@ == name@,
            None => forall|k: int| 0 <= k < entries.len() ==> entries[k].name@ != name@,
        },
{
    let mut k: usize = 0;
    while k < entries.len()
        invariant
            k <= entries.len(),
            forall|j: int| 0 <= j < k ==> entries[j].name@ != name@,
        decreases entries.len() - k,
    {
        if entries[k].name == *name {
            return Some(k);
        }
        k += 1;
    }
    None
}

/// Groups a snapshot by process name and sums memory and CPU within each
/// group.
///
/// Fails with `InvalidMetric` exactly when some sample carries a CPU reading
/// that is not acceptable; no partial aggregate is produced then.
pub fn aggregate(samples: &Vec<ProcessSample>) -> (result: Result<
    Vec<AggregateEntry>,
    MonitorError,
>)
    ensures
        match result {
            Ok(entries) => {
                &&& all_valid(samples.deep_view())
                &&& entries.deep_view() == aggregate_of(samples.deep_view())
                &&& is_aggregate_of(entries.deep_view(), samples.deep_view())
            },
            Err(e) => !all_valid(samples.deep_view()) && e == MonitorError::InvalidMetric,
        },
{
    let ghost all = samples.deep_view();
    let mut entries: Vec<AggregateEntry> = Vec::new();
    let mut i: usize = 0;
    while i < samples.len()
        invariant
            i <= samples.len(),
            all == samples.deep_view(),
            all_valid(all.take(i as int)),
            entries.deep_view() =~= aggregate_of(all.take(i as int)),
        decreases samples.len() - i,
    {
        let sample = &samples[i];
        let ghost prev = all.take(i as int);
        let ghost cur = all.take(i + 1);
        let ghost name = sample.name@;
        let units = match reading_units(sample.cpu_bits) {
            Ok(units) => units,
            Err(_) => {
                assert(!valid_reading(all[i as int].cpu_bits));
                return Err(MonitorError::InvalidMetric);
            },
        };
        proof {
            assert(cur.drop_last() =~= prev);
            assert(cur.last() == all[i as int]);
            assert(all[i as int] == sample@);
            lemma_names_seen(prev);
            lemma_total_bound(prev, name, Metric::Memory);
            lemma_total_bound(prev, name, Metric::Cpu);
            assert(prev.len() * u64::MAX <= u64::MAX * u64::MAX) by (nonlinear_arith)
                requires
                    prev.len() <= u64::MAX,
            ;
            assert forall|k: int| 0 <= k < cur.len() implies valid_reading(
                #[trigger] cur[k].cpu_bits,
            ) by {
                if k < i {
                    assert(valid_reading(prev[k].cpu_bits));
                }
            }
        }
        let ghost before = entries.deep_view();
        assert(before.len() == entries.len());
        assert(before.len() == names_seen(prev).len());
        match find_entry(&entries, &sample.name) {
            Some(j) => {
                proof {
                    assert(before.len() == names_seen(prev).len());
                    assert(before[j as int] == entries[j as int]@);
                    assert(aggregate_of(prev)[j as int] == entry_for(
                        prev,
                        names_seen(prev)[j as int],
                    ));
                    assert(names_seen(prev)[j as int] == name);
                }
                entries[j].memory_bytes = entries[j].memory_bytes + sample.memory_bytes as u128;
                entries[j].cpu_units = entries[j].cpu_units + units as u128;
                proof {
                    assert(names_seen(cur) == names_seen(prev));
                    assert forall|k: int| 0 <= k < names_seen(cur).len() implies entries.deep_view()[k]
                        == aggregate_of(cur)[k] by {
                        assert(entries.deep_view()[k] == entries[k]@);
                        assert(before[k] == aggregate_of(prev)[k]);
                        if k != j {
                            assert(names_seen(prev)[k] != names_seen(prev)[j as int]);
                        }
                    }
                }
            },
            None => {
                proof {
                    assert forall|k: int| 0 <= k < names_seen(prev).len() implies names_seen(
                        prev,
                    )[k] != name by {
                        assert(before[k] == entries[k]@);
                        assert(before[k] == aggregate_of(prev)[k]);
                    }
                    assert(!names_seen(prev).contains(name));
                    assert(!has_name(prev, name));
                    lemma_total_of_absent_name(prev, name, Metric::Memory);
                    lemma_total_of_absent_name(prev, name, Metric::Cpu);
                }
                entries.push(
                    AggregateEntry {
                        name: sample.name.clone(),
                        memory_bytes: sample.memory_bytes as u128,
                        cpu_units: units as u128,
                    },
                );
                proof {
                    assert(names_seen(cur) == names_seen(prev).push(name));
                    assert forall|k: int| 0 <= k < names_seen(cur).len() implies entries.deep_view()[k]
                        == aggregate_of(cur)[k] by {
                        assert(entries.deep_view()[k] == entries[k]@);
                        if k < names_seen(prev).len() {
                            assert(before[k] == aggregate_of(prev)[k]);
                            assert(names_seen(prev)[k] != name);
                        }
                    }
                }
            },
        }
        assert(entries.deep_view() =~= aggregate_of(cur));
        i += 1;
    }
    proof {
        assert(all.take(i as int) =~= all);
        lemma_one_entry_per_name(all);
    }
    Ok(entries)
}

/// An empty snapshot has an empty aggregate.
pub proof fn lemma_empty_aggregate()
    ensures
        aggregate_of(Seq::<SampleView>::empty()) == Seq::<EntryView>::empty(),
{
    assert(aggregate_of(Seq::<SampleView>::empty()) =~= Seq::<EntryView>::empty());
}

} // verus!
