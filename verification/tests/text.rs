use procmon::reading::{to_chart_height, to_hundredths};
use procmon::sample::AggregateEntry;
use procmon::text::{chart_series, format_cpu, format_memory, format_report, format_row, table_cells};

fn entry(name: &str, memory_bytes: u128, cpu_units: u128) -> AggregateEntry {
    AggregateEntry { name: name.to_string(), memory_bytes, cpu_units }
}

#[test]
fn memory_is_shown_in_mebibytes_with_two_decimals() {
    assert_eq!(format_memory(3145728), "3.00 MB");
    assert_eq!(format_memory(0), "0.00 MB");
    assert_eq!(format_memory(1), "0.00 MB");
    assert_eq!(format_memory(1572864), "1.50 MB");
    assert_eq!(format_memory(12_345_678_901), "11773.76 MB");
}

#[test]
fn memory_text_agrees_with_float_formatting() {
    let cases: [u64; 12] = [
        0, 1, 5242, 5243, 10485, 10486, 1048575, 1048576, 123456789, 131072, 393216, 917504,
    ];
    for bytes in cases {
        let expected = format!("{:.2} MB", bytes as f64 / 1048576.0);
        assert_eq!(format_memory(bytes as u128), expected, "for {} bytes", bytes);
    }
}

#[test]
fn ties_round_to_the_even_hundredth() {
    assert_eq!(to_hundredths(131072), 12);
    assert_eq!(to_hundredths(393216), 38);
    assert_eq!(to_hundredths(655360), 62);
    assert_eq!(to_hundredths(917504), 88);
}

#[test]
fn cpu_is_shown_in_percent_with_two_decimals() {
    assert_eq!(format_cpu(5 * 1048576), "5.00 %");
    assert_eq!(format_cpu(1048576 / 4), "0.25 %");
    assert_eq!(format_cpu(100 * 1048576 + 524288), "100.50 %");
}

#[test]
fn row_has_name_memory_and_cpu_between_tabs() {
    let x = entry("x", 3145728, 5 * 1048576);
    assert_eq!(format_row(&x, true), "x\t\t3.00 MB\t5.00 %");
    assert_eq!(format_row(&x, false), "x\t\t3.00 MB");
}

#[test]
fn report_text_clears_the_screen_and_lists_rows() {
    let report = vec![entry("x", 3145728, 5 * 1048576), entry("y", 1048576, 1048576)];
    assert_eq!(
        format_report(&report, true),
        "\x1B[2J\x1B[1;1HName\t\tMemory\tCPU\nx\t\t3.00 MB\t5.00 %\ny\t\t1.00 MB\t1.00 %\n"
    );
    assert_eq!(
        format_report(&report, false),
        "\x1B[2J\x1B[1;1HName\t\tMemory\nx\t\t3.00 MB\ny\t\t1.00 MB\n"
    );
    assert_eq!(format_report(&Vec::new(), true), "\x1B[2J\x1B[1;1HName\t\tMemory\tCPU\n");
}

#[test]
fn table_cells_are_name_memory_cpu() {
    let cells = table_cells(&entry("init", 2621440, 786432));
    assert_eq!(cells.0, "init");
    assert_eq!(cells.1, "2.50 MB");
    assert_eq!(cells.2, "0.75 %");
}

#[test]
fn chart_bars_are_memory_in_kibibytes() {
    let report = vec![entry("x", 3145728, 0), entry("y", 1023, 0), entry("z", 1024, 0)];
    let series = chart_series(&report);
    assert_eq!(
        series,
        vec![("x".to_string(), 3072u64), ("y".to_string(), 0u64), ("z".to_string(), 1u64)]
    );
    assert_eq!(to_chart_height(u128::MAX), u64::MAX);
}
