use procmon::aggregate::aggregate;
use procmon::error::MonitorError;
use procmon::metric::Metric;
use procmon::rank::{rank, sort_entries};
use procmon::report::build_report;
use procmon::sample::{AggregateEntry, ProcessSample};
use procmon::text::format_row;

fn sample(pid: u32, name: &str, memory_bytes: u64, cpu: f32) -> ProcessSample {
    ProcessSample { pid, name: name.to_string(), memory_bytes, cpu_bits: cpu.to_bits() }
}

fn entry(name: &str, memory_bytes: u128, cpu_units: u128) -> AggregateEntry {
    AggregateEntry { name: name.to_string(), memory_bytes, cpu_units }
}

fn names(entries: &[AggregateEntry]) -> Vec<&str> {
    entries.iter().map(|e| e.name.as_str()).collect()
}

fn example() -> Vec<ProcessSample> {
    vec![
        sample(1, "x", 1048576, 2.0),
        sample(2, "x", 2097152, 3.0),
        sample(3, "y", 1048576, 1.0),
    ]
}

#[test]
fn aggregate_sums_samples_that_share_a_name() {
    let entries = aggregate(&example()).unwrap();
    assert_eq!(
        entries,
        vec![entry("x", 3145728, 5 * 1048576), entry("y", 1048576, 1048576)]
    );
}

#[test]
fn end_to_end_example() {
    let report = build_report(&example(), Metric::Memory, 10).unwrap();
    assert_eq!(
        report,
        vec![entry("x", 3145728, 5 * 1048576), entry("y", 1048576, 1048576)]
    );
    assert_eq!(format_row(&report[0], true), "x\t\t3.00 MB\t5.00 %");
    assert_eq!(format_row(&report[1], true), "y\t\t1.00 MB\t1.00 %");
}

#[test]
fn aggregate_has_one_entry_for_each_distinct_name() {
    let samples = vec![
        sample(1, "a", 1, 0.0),
        sample(2, "b", 2, 0.0),
        sample(3, "a", 4, 0.0),
        sample(4, "c", 8, 0.0),
        sample(5, "b", 16, 0.0),
        sample(6, "a", 32, 0.0),
    ];
    let entries = aggregate(&samples).unwrap();
    assert_eq!(entries, vec![entry("a", 37, 0), entry("b", 18, 0), entry("c", 8, 0)]);
}

#[test]
fn aggregate_keeps_entries_of_idle_processes() {
    let samples = vec![sample(1, "idle", 0, 0.0), sample(2, "busy", 5, 1.0)];
    let entries = aggregate(&samples).unwrap();
    assert_eq!(entries, vec![entry("idle", 0, 0), entry("busy", 5, 1048576)]);
}

#[test]
fn names_are_grouped_verbatim() {
    let samples = vec![
        sample(1, "Bash", 1, 0.0),
        sample(2, "bash", 2, 0.0),
        sample(3, "bash ", 4, 0.0),
        sample(4, "bash", 8, 0.0),
    ];
    let entries = aggregate(&samples).unwrap();
    assert_eq!(entries, vec![entry("Bash", 1, 0), entry("bash", 10, 0), entry("bash ", 4, 0)]);
}

#[test]
fn aggregate_does_not_depend_on_the_order_of_samples() {
    let forward = example();
    let mut backward = example();
    backward.reverse();
    let mut rotated = example();
    rotated.rotate_left(1);
    let mut a = aggregate(&forward).unwrap();
    let mut b = aggregate(&backward).unwrap();
    let mut c = aggregate(&rotated).unwrap();
    a.sort_by(|p, q| p.name.cmp(&q.name));
    b.sort_by(|p, q| p.name.cmp(&q.name));
    c.sort_by(|p, q| p.name.cmp(&q.name));
    assert_eq!(a, b);
    assert_eq!(a, c);
}

#[test]
fn report_does_not_depend_on_the_order_of_samples() {
    let samples = vec![
        sample(1, "a", 100, 1.0),
        sample(2, "b", 100, 2.0),
        sample(3, "c", 300, 0.5),
        sample(4, "a", 200, 1.0),
        sample(5, "d", 100, 2.0),
    ];
    let expected = build_report(&samples, Metric::Memory, 3).unwrap();
    assert_eq!(names(&expected), vec!["a", "c", "b"]);
    let mut shuffled = samples.clone();
    for turn in 0..samples.len() {
        shuffled.rotate_left(1);
        if turn % 2 == 0 {
            shuffled.swap(0, 3);
        }
        assert_eq!(build_report(&shuffled, Metric::Memory, 3).unwrap(), expected);
    }
}

#[test]
fn running_the_pipeline_twice_gives_the_same_report() {
    let samples = example();
    let first = build_report(&samples, Metric::Cpu, 10).unwrap();
    let second = build_report(&samples, Metric::Cpu, 10).unwrap();
    assert_eq!(first, second);
}

#[test]
fn empty_snapshot_gives_an_empty_report() {
    let samples: Vec<ProcessSample> = Vec::new();
    assert_eq!(aggregate(&samples), Ok(Vec::new()));
    assert_eq!(build_report(&samples, Metric::Memory, 10), Ok(Vec::new()));
    assert_eq!(build_report(&samples, Metric::Cpu, 0), Ok(Vec::new()));
}

#[test]
fn one_shared_name_gives_a_single_entry_with_the_sum() {
    let samples = vec![
        sample(1, "worker", 1000, 1.5),
        sample(2, "worker", 2000, 2.5),
        sample(3, "worker", 3000, 0.0),
        sample(4, "worker", u64::MAX, 4.0),
    ];
    let report = build_report(&samples, Metric::Memory, 10).unwrap();
    assert_eq!(report, vec![entry("worker", 6000 + u64::MAX as u128, 8 * 1048576)]);
}

#[test]
fn sums_do_not_wrap() {
    let samples = vec![
        sample(1, "big", u64::MAX, 0.0),
        sample(2, "big", u64::MAX, 0.0),
        sample(3, "big", u64::MAX, 0.0),
    ];
    let entries = aggregate(&samples).unwrap();
    assert_eq!(entries, vec![entry("big", 3 * (u64::MAX as u128), 0)]);
}

#[test]
fn nan_reading_is_an_invalid_metric() {
    let samples = vec![sample(1, "x", 1, 1.0), sample(2, "y", 1, f32::NAN)];
    assert_eq!(aggregate(&samples), Err(MonitorError::InvalidMetric));
    assert_eq!(build_report(&samples, Metric::Cpu, 5), Err(MonitorError::InvalidMetric));
    assert_eq!(build_report(&samples, Metric::Memory, 5), Err(MonitorError::InvalidMetric));
}

#[test]
fn negative_reading_is_an_invalid_metric() {
    let samples = vec![sample(1, "x", 1, -0.5)];
    assert_eq!(aggregate(&samples), Err(MonitorError::InvalidMetric));
}

#[test]
fn rank_orders_by_the_metric_descending() {
    let entries = vec![
        entry("a", 10, 300),
        entry("b", 30, 100),
        entry("c", 20, 200),
        entry("d", 40, 50),
    ];
    let by_memory = rank(entries.clone(), Metric::Memory, 10);
    assert_eq!(names(&by_memory), vec!["d", "b", "c", "a"]);
    let by_cpu = rank(entries, Metric::Cpu, 10);
    assert_eq!(names(&by_cpu), vec!["a", "c", "b", "d"]);
    for pair in by_memory.windows(2) {
        assert!(pair[0].memory_bytes >= pair[1].memory_bytes);
    }
    for pair in by_cpu.windows(2) {
        assert!(pair[0].cpu_units >= pair[1].cpu_units);
    }
}

#[test]
fn rank_truncates_to_the_limit() {
    let entries = vec![entry("a", 10, 0), entry("b", 30, 0), entry("c", 20, 0)];
    assert_eq!(names(&rank(entries.clone(), Metric::Memory, 2)), vec!["b", "c"]);
    assert_eq!(names(&rank(entries.clone(), Metric::Memory, 3)), vec!["b", "c", "a"]);
    assert_eq!(names(&rank(entries.clone(), Metric::Memory, 4)), vec!["b", "c", "a"]);
    assert_eq!(names(&rank(entries.clone(), Metric::Memory, 1)), vec!["b"]);
    assert!(rank(entries, Metric::Memory, 0).is_empty());
}

#[test]
fn rank_keeps_twenty_of_many() {
    let entries: Vec<AggregateEntry> =
        (0..50u128).map(|i| entry(&format!("p{}", i), (i * 37) % 50, 0)).collect();
    let report = rank(entries, Metric::Memory, 20);
    assert_eq!(report.len(), 20);
    let values: Vec<u128> = report.iter().map(|e| e.memory_bytes).collect();
    let expected: Vec<u128> = (30..50u128).rev().collect();
    assert_eq!(values, expected);
}

#[test]
fn ties_are_broken_by_name_ascending() {
    let entries = vec![
        entry("zeta", 5, 0),
        entry("alpha", 5, 0),
        entry("mid", 7, 0),
        entry("beta", 5, 0),
    ];
    let report = rank(entries, Metric::Memory, 10);
    assert_eq!(names(&report), vec!["mid", "alpha", "beta", "zeta"]);
}

#[test]
fn sort_entries_keeps_every_entry() {
    let entries = vec![
        entry("a", 1, 5),
        entry("a", 1, 7),
        entry("b", 1, 6),
        entry("c", 9, 0),
        entry("a", 1, 7),
    ];
    let sorted = sort_entries(entries, Metric::Memory);
    assert_eq!(
        sorted,
        vec![
            entry("c", 9, 0),
            entry("a", 1, 7),
            entry("a", 1, 7),
            entry("a", 1, 5),
            entry("b", 1, 6),
        ]
    );
}

#[test]
fn sort_entries_agrees_with_a_stable_sort_on_distinct_names() {
    let entries: Vec<AggregateEntry> = (0..40u128)
        .map(|i| entry(&format!("n{:02}", (i * 7) % 40), (i * i) % 11, (i * 3) % 5))
        .collect();
    let mut expected = entries.clone();
    expected.sort_by(|a, b| b.cpu_units.cmp(&a.cpu_units).then(a.name.cmp(&b.name)));
    assert_eq!(sort_entries(entries, Metric::Cpu), expected);
}
