//! Daily well-being logger: scanning the history file, planning and building
//! the next entry, and framing it as CSV.

pub mod entry;
pub mod history;
pub mod number;
pub mod text;

pub use entry::{format_signed, header_cells, plan_entry, EntryPlan, LogEntry, Ratings};
pub use history::{row_day, scan_history, scan_records, summarize, ScanSummary, WORKOUT_COLUMN};
pub use number::{format_decimal, format_tenths, parse_rating, parse_sleep_hours, parse_sleep_quality};
pub use text::{is_header_cell, is_true_cell};
