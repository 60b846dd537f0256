//! A process-resource monitor: samples are grouped by process name, the
//! groups are ranked, and the leading ones are laid out for display.
//!
//! One tick of the monitor takes a snapshot of the process table through
//! `aggregate` and `rank` (together: `report::build_report`) to a report,
//! which `text` lays out. `refresh` holds the loop that drives the ticks, as
//! a state machine whose steps the program carries out. Nothing here reads
//! the process table, draws, sleeps or polls: the program around the library
//! does.
//!
//! No floating point is used. Totals are integers in units of 2^-20 (see
//! `reading`), which is exact for memory in mebibytes and keeps CPU
//! percentages to a millionth.

pub mod aggregate;
pub mod error;
pub mod metric;
pub mod order;
pub mod rank;
pub mod reading;
pub mod refresh;
pub mod report;
pub mod sample;
pub mod text;
