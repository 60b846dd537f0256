//! The order in which entries are ranked.
//!
//! Entries are ranked by the chosen metric, larger first. Entries that tie on
//! the metric go by name, ascending in the order of their UTF-8 bytes, which
//! is the order of `str`. Entries that tie on the name as well go by the other
//! metric, larger first. The last key only matters for lists that repeat a
//! name; it makes the order total on all entries, so that every list has one
//! ranking and no more.

use vstd::prelude::*;
use vstd::relations::*;
use vstd::utf8::*;
use crate::metric::{entry_value, Metric};
use crate::sample::{AggregateEntry, EntryView};

verus! {

/// `a` is before `b` in lexicographic order, given that they agree on all
/// positions below `from`.
pub open spec fn bytes_before_from(a: Seq<u8>, b: Seq<u8>, from: int) -> bool
    decreases a.len() - from,
{
    if from < 0 || from >= b.len() {
        false
    } else if from >= a.len() {
        true
    } else if a[from] != b[from] {
        a[from] < b[from]
    } else {
        bytes_before_from(a, b, from + 1)
    }
}

/// Strict lexicographic order on byte strings: at the first position where
/// the two differ `a` has the smaller byte, or `a` is a proper prefix of `b`.
pub open spec fn bytes_before(a: Seq<u8>, b: Seq<u8>) -> bool {
    bytes_before_from(a, b, 0)
}

/// Strict order on names: lexicographic on their UTF-8 encodings.
pub open spec fn name_before(a: Seq<char>, b: Seq<char>) -> bool {
    bytes_before(encode_utf8(a), encode_utf8(b))
}

/// `a` is ranked no later than `b` under the metric.
pub open spec fn ranks_no_later(a: EntryView, b: EntryView, metric: Metric) -> bool {
    if entry_value(a, metric) != entry_value(b, metric) {
        entry_value(a, metric) > entry_value(b, metric)
    } else if a.name != b.name {
        name_before(a.name, b.name)
    } else {
        entry_value(a, metric.other()) >= entry_value(b, metric.other())
    }
}

/// The ranking order of a metric as a relation.
pub open spec fn rank_order(metric: Metric) -> spec_fn(EntryView, EntryView) -> bool {
    |a: EntryView, b: EntryView| ranks_no_later(a, b, metric)
}

proof fn lemma_bytes_before_asymmetric(a: Seq<u8>, b: Seq<u8>, from: int)
    requires
        bytes_before_from(a, b, from),
    ensures
        !bytes_before_from(b, a, from),
    decreases a.len() - from,
{
    if from < a.len() && from < b.len() && a[from] == b[from] {
        lemma_bytes_before_asymmetric(a, b, from + 1);
    }
}

proof fn lemma_bytes_before_transitive(a: Seq<u8>, b: Seq<u8>, c: Seq<u8>, from: int)
    requires
        bytes_before_from(a, b, from),
        bytes_before_from(b, c, from),
    ensures
        bytes_before_from(a, c, from),
    decreases a.len() - from,
{
    if from < a.len() && a[from] == b[from] && b[from] == c[from] {
        lemma_bytes_before_transitive(a, b, c, from + 1);
    }
}

proof fn lemma_bytes_before_connected(a: Seq<u8>, b: Seq<u8>, from: int)
    requires
        0 <= from <= a.len(),
        from <= b.len(),
        forall|k: int| 0 <= k < from ==> a[k] == b[k],
        a != b,
    ensures
        bytes_before_from(a, b, from) || bytes_before_from(b, a, from),
    decreases a.len() - from,
{
    if from < a.len() && from < b.len() && a[from] == b[from] {
        lemma_bytes_before_connected(a, b, from + 1);
    } else if from == a.len() && from == b.len() {
        assert(a =~= b);
    }
}

/// Names are strictly and totally ordered: no name is before itself, the
/// order is transitive, and of two different names one is before the other.
pub proof fn lemma_name_order(a: Seq<char>, b: Seq<char>, c: Seq<char>)
    ensures
        !name_before(a, a),
        name_before(a, b) ==> !name_before(b, a),
        name_before(a, b) && name_before(b, c) ==> name_before(a, c),
        a != b ==> name_before(a, b) || name_before(b, a),
{
    let x = encode_utf8(a);
    let y = encode_utf8(b);
    let z = encode_utf8(c);
    if name_before(a, a) {
        lemma_bytes_before_asymmetric(x, x, 0);
    }
    if name_before(a, b) {
        lemma_bytes_before_asymmetric(x, y, 0);
        if name_before(b, c) {
            lemma_bytes_before_transitive(x, y, z, 0);
        }
    }
    if a != b {
        encode_utf8_decode_utf8(a);
        encode_utf8_decode_utf8(b);
        assert(x != y);
        lemma_bytes_before_connected(x, y, 0);
    }
}

/// The ranking order is a total order on entries: any two entries are
/// ranked one way or the other, and both ways only if they are the same.
pub proof fn lemma_rank_order_total(metric: Metric)
    ensures
        total_ordering(rank_order(metric)),
{
    let r = rank_order(metric);
    assert forall|x: EntryView| #[trigger] r(x, x) by {}
    assert forall|x: EntryView, y: EntryView| #[trigger] r(x, y) && #[trigger] r(y, x) implies x
        == y by {
        lemma_name_order(x.name, y.name, x.name);
        assert(entry_value(x, metric) == entry_value(y, metric));
        assert(x.name == y.name);
        assert(entry_value(x, metric.other()) == entry_value(y, metric.other()));
    }
    assert forall|x: EntryView, y: EntryView, z: EntryView| #[trigger]
        r(x, y) && #[trigger] r(y, z) implies r(x, z) by {
        lemma_name_order(x.name, y.name, z.name);
        lemma_name_order(y.name, z.name, x.name);
        lemma_name_order(x.name, z.name, y.name);
    }
    assert forall|x: EntryView, y: EntryView| #[trigger] r(x, y) || #[trigger] r(y, x) by {
        lemma_name_order(x.name, y.name, x.name);
    }
}

/// Whether the first name is before the second in the order of their bytes.
pub fn name_precedes(a: &str, b: &str) -> (before: bool)
    ensures
        before == name_before(a@, b@),
{
    let x = a.as_bytes();
    let y = b.as_bytes();
    let mut i: usize = 0;
    while i < x.len() && i < y.len()
        invariant
            i <= x.len(),
            i <= y.len(),
            x@ == encode_utf8(a@),
            y@ == encode_utf8(b@),
            bytes_before(x@, y@) == bytes_before_from(x@, y@, i as int),
        decreases x.len() - i,
    {
        if x[i] != y[i] {
            return x[i] < y[i];
        }
        i += 1;
    }
    i < y.len()
}

/// Whether the first entry is ranked no later than the second.
pub fn precedes(a: &AggregateEntry, b: &AggregateEntry, metric: Metric) -> (no_later: bool)
    ensures
        no_later == ranks_no_later(a@, b@, metric),
{
    let (first, second, other_first, other_second) = match metric {
        Metric::Memory => (a.memory_bytes, b.memory_bytes, a.cpu_units, b.cpu_units),
        Metric::Cpu => (a.cpu_units, b.cpu_units, a.memory_bytes, b.memory_bytes),
    };
    if first != second {
        first > second
    } else if a.name != b.name {
        name_precedes(a.name.as_str(), b.name.as_str())
    } else {
        other_first >= other_second
    }
}

} // verus!
