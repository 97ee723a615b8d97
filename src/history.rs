//! Scanning the history file: the first and last entry dates, and whether a
//! workout has already been logged today. Dates are day numbers counted from
//! the common era (0001-01-01 is day 1), in UTC.

use chrono::Datelike;
use crate::text::{header_cell, is_header_cell, is_true_cell, true_cell};
use vstd::prelude::*;

verus! {

/// The position of the `workout_today` column in a row.
pub const WORKOUT_COLUMN: usize = 10;

/// What the history says about the entries so far.
#[derive(Clone, Copy, Debug, PartialEq, Eq, Structural)]
pub struct ScanSummary {
    pub first_entry_date: Option<i32>,
    pub last_entry_date: Option<i32>,
    pub workout_logged_today: bool,
}

/// The UTC day of an RFC 3339 timestamp, or `None` where it does not parse.
pub uninterp spec fn rfc3339_utc_day(s: Seq<char>) -> Option<i32>;

/// The records of a headed CSV text after its header, each `None` where the
/// reader reports an error for it.
pub uninterp spec fn csv_records(data: Seq<u8>) -> Seq<Option<Seq<Seq<char>>>>;

pub open spec fn cells_view(cells: Seq<String>) -> Seq<Seq<char>> {
    cells.map_values(|c: String| c@)
}

pub open spec fn records_view(records: Seq<Option<Vec<String>>>) -> Seq<Option<Seq<Seq<char>>>> {
    records.map_values(
        |r: Option<Vec<String>>|
            match r {
                Some(cells) => Some(cells_view(cells@)),
                None => None,
            },
    )
}

/// Relies on chrono's `DateTime::parse_from_rfc3339`, then on the UTC date of
/// the parsed instant and its day number (`num_days_from_ce`).
#[verifier::external_body]
fn timestamp_day(s: &str) -> (r: Option<i32>)
    ensures
        r == rfc3339_utc_day(s@),
{
    chrono::DateTime::parse_from_rfc3339(s).ok().map(
        |dt| dt.with_timezone(&chrono::Utc).date_naive().num_days_from_ce(),
    )
}

/// Relies on csv's `Reader` with a header row: `records` yields every record
/// after the header, or the error met in reading it.
#[verifier::external_body]
fn read_records(data: &[u8]) -> (r: Vec<Option<Vec<String>>>)
    ensures
        records_view(r@) == csv_records(data@),
{
    let mut rdr = csv::ReaderBuilder::new().has_headers(true).from_reader(data);
    rdr.records().map(|rec| rec.ok().map(|row| row.iter().map(String::from).collect())).collect()
}

/// What one row contributes: its day and whether its workout cell reads true.
/// A row without cells, one that repeats the header, or one whose timestamp
/// does not parse contributes nothing.
pub open spec fn row_fact(cells: Seq<Seq<char>>) -> Option<(i32, bool)> {
    if cells.len() == 0 || header_cell(cells[0]) {
        None
    } else {
        match rfc3339_utc_day(cells[0]) {
            None => None,
            Some(d) => Some(
                (d, cells.len() > WORKOUT_COLUMN && true_cell(cells[WORKOUT_COLUMN as int])),
            ),
        }
    }
}

pub open spec fn record_fact(record: Option<Seq<Seq<char>>>) -> Option<(i32, bool)> {
    match record {
        Some(cells) => row_fact(cells),
        None => None,
    }
}

/// The day of a row that contributes.
pub open spec fn fact_day(f: Option<(i32, bool)>) -> i32 {
    match f {
        Some((d, _)) => d,
        None => 0,
    }
}

pub open spec fn empty_summary() -> ScanSummary {
    ScanSummary { first_entry_date: None, last_entry_date: None, workout_logged_today: false }
}

/// The summary after one more dated row.
pub open spec fn step(s: ScanSummary, day: i32, workout: bool, today: i32) -> ScanSummary {
    ScanSummary {
        first_entry_date: match s.first_entry_date {
            Some(f) if f <= day => Some(f),
            _ => Some(day),
        },
        last_entry_date: Some(day),
        workout_logged_today: s.workout_logged_today || (day == today && workout),
    }
}

/// The summary of rows in file order; rows that contribute nothing are passed over.
pub open spec fn scan_facts(facts: Seq<Option<(i32, bool)>>, today: i32) -> ScanSummary
    decreases facts.len(),
{
    if facts.len() == 0 {
        empty_summary()
    } else {
        let prev = scan_facts(facts.drop_last(), today);
        match facts.last() {
            Some((d, w)) => step(prev, d, w, today),
            None => prev,
        }
    }
}

/// The summary of a history file's contents.
pub open spec fn scan_text(data: Seq<u8>, today: i32) -> ScanSummary {
    scan_facts(csv_records(data).map_values(|r: Option<Seq<Seq<char>>>| record_fact(r)), today)
}

impl ScanSummary {
    /// The summary of a history with no entries, as when no file exists.
    pub fn empty() -> (r: ScanSummary)
        ensures
            r == empty_summary(),
    {
        ScanSummary { first_entry_date: None, last_entry_date: None, workout_logged_today: false }
    }

    /// Takes one more dated row into the summary.
    pub fn record(&mut self, day: i32, workout: bool, today: i32)
        ensures
            *final(self) == step(*old(self), day, workout, today),
    {
        match self.first_entry_date {
            Some(f) if f <= day => {},
            _ => {
                self.first_entry_date = Some(day);
            },
        }
        self.last_entry_date = Some(day);
        if day == today && workout {
            self.workout_logged_today = true;
        }
    }
}

/// The summary of rows already reduced to their facts.
pub fn summarize(facts: &Vec<Option<(i32, bool)>>, today: i32) -> (r: ScanSummary)
    ensures
        r == scan_facts(facts@, today),
{
    let mut s = ScanSummary::empty();
    let mut i: usize = 0;
    while i < facts.len()
        invariant
            i <= facts@.len(),
            s == scan_facts(facts@.subrange(0, i as int), today),
        decreases facts.len() - i,
    {
        let ghost pre = facts@.subrange(0, (i + 1) as int);
        assert(pre.drop_last() =~= facts@.subrange(0, i as int));
        if let Some((d, w)) = facts[i] {
            s.record(d, w, today);
        }
        i = i + 1;
    }
    assert(facts@.subrange(0, facts.len() as int) =~= facts@);
    s
}

/// What one row contributes to the summary.
pub fn row_day(cells: &Vec<String>) -> (r: Option<(i32, bool)>)
    ensures
        r == row_fact(cells_view(cells@)),
{
    if cells.len() == 0 {
        return None;
    }
    if is_header_cell(cells[0].as_str()) {
        return None;
    }
    match timestamp_day(cells[0].as_str()) {
        None => None,
        Some(d) => {
            let workout = cells.len() > WORKOUT_COLUMN && is_true_cell(
                cells[WORKOUT_COLUMN].as_str(),
            );
            Some((d, workout))
        },
    }
}

/// The summary of records as the CSV reader hands them out.
pub fn scan_records(records: &Vec<Option<Vec<String>>>, today: i32) -> (r: ScanSummary)
    ensures
        r == scan_facts(
            records_view(records@).map_values(|r: Option<Seq<Seq<char>>>| record_fact(r)),
            today,
        ),
{
    let ghost facts = records_view(records@).map_values(
        |r: Option<Seq<Seq<char>>>| record_fact(r),
    );
    let mut v: Vec<Option<(i32, bool)>> = Vec::new();
    let mut i: usize = 0;
    while i < records.len()
        invariant
            i <= records@.len(),
            facts.len() == records@.len(),
            facts == records_view(records@).map_values(
                |r: Option<Seq<Seq<char>>>| record_fact(r),
            ),
            v@ == facts.subrange(0, i as int),
        decreases records.len() - i,
    {
        let f = match &records[i] {
            Some(cells) => row_day(cells),
            None => None,
        };
        v.push(f);
        i = i + 1;
        assert(v@ =~= facts.subrange(0, i as int));
    }
    assert(v@ =~= facts);
    summarize(&v, today)
}

/// The summary of a history file's contents; rows that cannot be read or
/// dated are passed over.
pub fn scan_history(data: &[u8], today: i32) -> (r: ScanSummary)
    ensures
        r == scan_text(data@, today),
{
    let records = read_records(data);
    scan_records(&records, today)
}

/// In any history, the first entry date is known exactly when the last one
/// is; it is then no later than the last, no later than any dated row, and the
/// day of one of them.
pub proof fn lemma_first_not_after_last(facts: Seq<Option<(i32, bool)>>, today: i32)
    ensures
        ({
            let s = scan_facts(facts, today);
            &&& (s.first_entry_date is Some <==> s.last_entry_date is Some)
            &&& (s.first_entry_date is Some <==> exists|i: int|
                0 <= i < facts.len() && #[trigger] facts[i] is Some)
            &&& s.first_entry_date is Some ==> s.first_entry_date->0 <= s.last_entry_date->0
            &&& forall|i: int|
                0 <= i < facts.len() && #[trigger] facts[i] is Some ==> s.first_entry_date is Some
                    && s.first_entry_date->0 <= fact_day(facts[i])
            &&& s.first_entry_date is Some ==> exists|i: int|
                0 <= i < facts.len() && #[trigger] facts[i] is Some && fact_day(facts[i])
                    == s.first_entry_date->0
        }),
    decreases facts.len(),
{
    if facts.len() > 0 {
        let pre = facts.drop_last();
        lemma_first_not_after_last(pre, today);
        let n = facts.len() - 1;
        assert forall|i: int| 0 <= i < n implies #[trigger] facts[i] == pre[i] by {}
        let p = scan_facts(pre, today);
        let s = scan_facts(facts, today);
        if facts.last() is Some {
            assert(facts[n] is Some);
            if p.first_entry_date is Some {
                let j = choose|j: int|
                    0 <= j < pre.len() && #[trigger] pre[j] is Some && fact_day(pre[j])
                        == p.first_entry_date->0;
                assert(facts[j] == pre[j]);
            }
        } else {
            if s.first_entry_date is Some {
                let j = choose|j: int|
                    0 <= j < pre.len() && #[trigger] pre[j] is Some && fact_day(pre[j])
                        == p.first_entry_date->0;
                assert(facts[j] == pre[j]);
            }
            if exists|i: int| 0 <= i < facts.len() && #[trigger] facts[i] is Some {
                let i = choose|i: int| 0 <= i < facts.len() && #[trigger] facts[i] is Some;
                assert(pre[i] is Some);
            }
        }
    }
}

/// Rows that contribute nothing, wherever they stand, leave the summary of
/// the other rows as it is.
pub proof fn lemma_skipped_row_ignored(
    pre: Seq<Option<(i32, bool)>>,
    post: Seq<Option<(i32, bool)>>,
    today: i32,
)
    ensures
        scan_facts(pre + seq![None] + post, today) == scan_facts(pre + post, today),
    decreases post.len(),
{
    if post.len() == 0 {
        assert((pre + seq![None] + post).drop_last() =~= pre);
        assert(pre + post =~= pre);
    } else {
        lemma_skipped_row_ignored(pre, post.drop_last(), today);
        assert((pre + seq![None] + post).drop_last() =~= pre + seq![None] + post.drop_last());
        assert((pre + post).drop_last() =~= pre + post.drop_last());
    }
}

/// A row whose timestamp does not parse, set between valid rows, leaves the
/// summary of the valid rows as it is.
pub proof fn lemma_corrupt_row_ignored(
    before: Seq<Option<(i32, bool)>>,
    bad: Seq<Seq<char>>,
    after: Seq<Option<(i32, bool)>>,
    today: i32,
)
    requires
        bad.len() == 0 || rfc3339_utc_day(bad[0]) is None,
    ensures
        scan_facts(before + seq![row_fact(bad)] + after, today) == scan_facts(
            before + after,
            today,
        ),
{
    assert(row_fact(bad) is None);
    lemma_skipped_row_ignored(before, after, today);
}

} // verus!
