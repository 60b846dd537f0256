//! The text of a report: table cells, rows of the plain-text layout, and the
//! series of the bar chart.
//!
//! Totals are shown with two decimals, rounded half to even, memory in
//! mebibytes as `3.00 MB` and CPU in percent as `5.00 %`.

use vstd::prelude::*;
use crate::reading::{chart_height, hundredths, to_chart_height, to_hundredths};
use crate::sample::{AggregateEntry, EntryView, RankedReport};

verus! {

/// The character of a decimal digit.
pub open spec fn digit_char(d: nat) -> char {
    if d == 0 {
        '0'
    } else if d == 1 {
        '1'
    } else if d == 2 {
        '2'
    } else if d == 3 {
        '3'
    } else if d == 4 {
        '4'
    } else if d == 5 {
        '5'
    } else if d == 6 {
        '6'
    } else if d == 7 {
        '7'
    } else if d == 8 {
        '8'
    } else {
        '9'
    }
}

/// A number in decimal, without leading zeros.
pub open spec fn decimal(n: nat) -> Seq<char>
    decreases n,
{
    if n < 10 {
        seq![digit_char(n)]
    } else {
        decimal(n / 10).push(digit_char(n % 10))
    }
}

/// A count of hundredths with a decimal point before its last two digits.
pub open spec fn two_decimals(h: nat) -> Seq<char> {
    decimal(h / 100).push('.').push(digit_char((h / 10) % 10)).push(digit_char(h % 10))
}

/// A memory total in mebibytes.
pub open spec fn memory_text(bytes: nat) -> Seq<char> {
    two_decimals(hundredths(bytes)) + " MB"@
}

/// A CPU total in percent.
pub open spec fn cpu_text(units: nat) -> Seq<char> {
    two_decimals(hundredths(units)) + " %"@
}

/// One row of the plain-text layout: the name, two tabs, the memory, and,
/// where CPU is shown, a tab and the CPU.
pub open spec fn row_text(entry: EntryView, with_cpu: bool) -> Seq<char> {
    let left = entry.name + "\t\t"@ + memory_text(entry.memory_bytes);
    if with_cpu {
        left + "\t"@ + cpu_text(entry.cpu_units)
    } else {
        left
    }
}

/// The header row of the plain-text layout.
pub open spec fn header_text(with_cpu: bool) -> Seq<char> {
    if with_cpu {
        "Name\t\tMemory\tCPU"@
    } else {
        "Name\t\tMemory"@
    }
}

/// The control sequence that clears the screen and homes the cursor.
pub open spec fn clear_screen_text() -> Seq<char> {
    "\x1B[2J\x1B[1;1H"@
}

/// The rows of a report, each closed by a line feed.
pub open spec fn rows_text(entries: Seq<EntryView>, with_cpu: bool) -> Seq<char>
    decreases entries.len(),
{
    if entries.len() == 0 {
        Seq::empty()
    } else {
        rows_text(entries.drop_last(), with_cpu) + row_text(entries.last(), with_cpu) + "\n"@
    }
}

/// A whole report in the plain-text layout: the screen is cleared, then come
/// the header and the rows, one to a line.
pub open spec fn report_text(entries: Seq<EntryView>, with_cpu: bool) -> Seq<char> {
    clear_screen_text() + header_text(with_cpu) + "\n"@ + rows_text(entries, with_cpu)
}

/// The bars of the chart: each entry's name with its memory in kibibytes.
pub open spec fn chart_of(entries: Seq<EntryView>) -> Seq<(Seq<char>, u64)> {
    Seq::new(entries.len(), |i: int| (entries[i].name, chart_height(entries[i].memory_bytes) as u64))
}

/// The view of a chart series.
pub open spec fn series_view(series: Seq<(String, u64)>) -> Seq<(Seq<char>, u64)> {
    Seq::new(series.len(), |i: int| (series[i].0@, series[i].1))
}

fn digit_str(d: u8) -> (text: &'static str)
    requires
        d < 10,
    ensures
        text@ == seq![digit_char(d as nat)],
{
    proof {
        reveal_strlit("0");
        reveal_strlit("1");
        reveal_strlit("2");
        reveal_strlit("3");
        reveal_strlit("4");
        reveal_strlit("5");
        reveal_strlit("6");
        reveal_strlit("7");
        reveal_strlit("8");
        reveal_strlit("9");
    }
    let text = if d == 0 {
        "0"
    } else if d == 1 {
        "1"
    } else if d == 2 {
        "2"
    } else if d == 3 {
        "3"
    } else if d == 4 {
        "4"
    } else if d == 5 {
        "5"
    } else if d == 6 {
        "6"
    } else if d == 7 {
        "7"
    } else if d == 8 {
        "8"
    } else {
        "9"
    };
    assert(text@ =~= seq![digit_char(d as nat)]);
    text
}

fn push_decimal(out: &mut String, n: u128)
    ensures
        final(out)@ == old(out)@ + decimal(n as nat),
    decreases n,
{
    if n >= 10 {
        push_decimal(out, n / 10);
    }
    out.append(digit_str((n % 10) as u8));
    assert(out@ =~= old(out)@ + decimal(n as nat));
}

fn push_two_decimals(out: &mut String, h: u128)
    ensures
        final(out)@ == old(out)@ + two_decimals(h as nat),
{
    proof {
        reveal_strlit(".");
    }
    push_decimal(out, h / 100);
    out.append(".");
    out.append(digit_str(((h / 10) % 10) as u8));
    out.append(digit_str((h % 10) as u8));
    assert(out@ =~= old(out)@ + two_decimals(h as nat));
}

/// A memory total as text, such as `3.00 MB`.
pub fn format_memory(bytes: u128) -> (text: String)
    ensures
        text@ == memory_text(bytes as nat),
{
    let mut text = String::new();
    push_two_decimals(&mut text, to_hundredths(bytes));
    text.append(" MB");
    assert(text@ =~= memory_text(bytes as nat));
    text
}

/// A CPU total as text, such as `5.00 %`.
pub fn format_cpu(units: u128) -> (text: String)
    ensures
        text@ == cpu_text(units as nat),
{
    let mut text = String::new();
    push_two_decimals(&mut text, to_hundredths(units));
    text.append(" %");
    assert(text@ =~= cpu_text(units as nat));
    text
}

fn push_row(out: &mut String, entry: &AggregateEntry, with_cpu: bool)
    ensures
        final(out)@ == old(out)@ + row_text(entry@, with_cpu),
{
    out.append(entry.name.as_str());
    out.append("\t\t");
    push_two_decimals(out, to_hundredths(entry.memory_bytes));
    out.append(" MB");
    if with_cpu {
        out.append("\t");
        push_two_decimals(out, to_hundredths(entry.cpu_units));
        out.append(" %");
    }
    assert(out@ =~= old(out)@ + row_text(entry@, with_cpu));
}

/// One row of the plain-text layout, such as `x\t\t3.00 MB\t5.00 %`.
pub fn format_row(entry: &AggregateEntry, with_cpu: bool) -> (text: String)
    ensures
        text@ == row_text(entry@, with_cpu),
{
    let mut text = String::new();
    push_row(&mut text, entry, with_cpu);
    assert(text@ =~= row_text(entry@, with_cpu));
    text
}

/// A whole report in the plain-text layout, led by the sequence that clears
/// the screen.
pub fn format_report(report: &RankedReport, with_cpu: bool) -> (text: String)
    ensures
        text@ == report_text(report.deep_view(), with_cpu),
{
    let ghost entries = report.deep_view();
    let mut text = String::from_str("\x1B[2J\x1B[1;1H");
    if with_cpu {
        text.append("Name\t\tMemory\tCPU");
    } else {
        text.append("Name\t\tMemory");
    }
    text.append("\n");
    let ghost lead = text@;
    assert(lead =~= clear_screen_text() + header_text(with_cpu) + "\n"@);
    let mut i: usize = 0;
    assert(rows_text(entries.take(0), with_cpu) =~= Seq::<char>::empty());
    while i < report.len()
        invariant
            i <= report.len(),
            entries == report.deep_view(),
            text@ =~= lead + rows_text(entries.take(i as int), with_cpu),
        decreases report.len() - i,
    {
        proof {
            assert(entries.take(i + 1).drop_last() =~= entries.take(i as int));
            assert(entries.take(i + 1).last() == report[i as int]@);
        }
        push_row(&mut text, &report[i], with_cpu);
        text.append("\n");
        i += 1;
    }
    assert(entries.take(i as int) =~= entries);
    text
}

/// The cells of one table row: name, memory, CPU.
pub fn table_cells(entry: &AggregateEntry) -> (cells: (String, String, String))
    ensures
        cells.0@ == entry@.name,
        cells.1@ == memory_text(entry@.memory_bytes),
        cells.2@ == cpu_text(entry@.cpu_units),
{
    (entry.name.clone(), format_memory(entry.memory_bytes), format_cpu(entry.cpu_units))
}

/// The series of the bar chart: for each entry of the report, in order, its
/// name and its memory in whole kibibytes.
pub fn chart_series(report: &RankedReport) -> (series: Vec<(String, u64)>)
    ensures
        series_view(series@) == chart_of(report.deep_view()),
{
    let mut series: Vec<(String, u64)> = Vec::new();
    let mut i: usize = 0;
    while i < report.len()
        invariant
            i <= report.len(),
            series.len() == i,
            forall|k: int|
                0 <= k < i ==> (#[trigger] series[k]).0@ == report[k]@.name && series[k].1
                    == chart_height(report[k]@.memory_bytes),
        decreases report.len() - i,
    {
        series.push((report[i].name.clone(), to_chart_height(report[i].memory_bytes)));
        i += 1;
    }
    assert(series_view(series@) =~= chart_of(report.deep_view()));
    series
}

} // verus!
