//! The next entry: what to ask, the entry built from the answers, and its row
//! as CSV.

use crate::history::{
    cells_view, fact_day, row_fact, scan_facts, ScanSummary, rfc3339_utc_day,
    WORKOUT_COLUMN,
};
use crate::number::{decimal_text, format_decimal, format_tenths, tenths_text};
use crate::text::{ascii_lower, header_cell, is_white_space, trim, trim_end, trim_start, true_cell, true_literal};
use vstd::prelude::*;

verus! {

/// What the history decides for the next entry.
#[derive(Clone, Copy, Debug, PartialEq, Eq, Structural)]
pub struct EntryPlan {
    /// No entry is dated today yet: the sleep questions are asked.
    pub is_first_entry_today: bool,
    /// Days since the first entry, the first day counting as day 1.
    pub day_count: i64,
    /// No workout was logged as done today: the workout question is asked.
    pub ask_workout: bool,
}

/// One logged entry. Sleep figures are in tenths (75 is 7.5 hours).
#[derive(Clone, Debug)]
pub struct LogEntry {
    pub timestamp: String,
    pub day_count: i64,
    pub sleep_hours: Option<u32>,
    pub sleep_quality: Option<u32>,
    pub sleepiness: u8,
    pub zonkedness: u8,
    pub energy: u8,
    pub strength: u8,
    pub focus: u8,
    pub intelligence: u8,
    pub workout_today: bool,
    pub remarks: String,
}

/// The answers to the six rating questions, in the order of the columns.
#[derive(Clone, Copy, Debug, PartialEq, Eq, Structural)]
pub struct Ratings {
    pub sleepiness: u8,
    pub zonkedness: u8,
    pub energy: u8,
    pub strength: u8,
    pub focus: u8,
    pub intelligence: u8,
}

pub open spec fn plan_of(today: i32, s: ScanSummary) -> EntryPlan {
    EntryPlan {
        is_first_entry_today: match s.last_entry_date {
            Some(l) => l != today,
            None => true,
        },
        day_count: match s.first_entry_date {
            Some(f) => (today - f + 1) as i64,
            None => 1,
        },
        ask_workout: !s.workout_logged_today,
    }
}

/// Decides the next entry's questions and day count from the history's summary.
pub fn plan_entry(today: i32, summary: &ScanSummary) -> (r: EntryPlan)
    ensures
        r == plan_of(today, *summary),
{
    let is_first_entry_today = match summary.last_entry_date {
        Some(l) => l != today,
        None => true,
    };
    let day_count: i64 = match summary.first_entry_date {
        Some(f) => (today as i64) - (f as i64) + 1,
        None => 1,
    };
    EntryPlan { is_first_entry_today, day_count, ask_workout: !summary.workout_logged_today }
}

impl LogEntry {
    /// The entry for a plan and the answers given. Sleep figures are kept only
    /// on the day's first entry; a workout already logged today stays logged.
    pub fn build(
        plan: &EntryPlan,
        timestamp: String,
        sleep_hours: Option<u32>,
        sleep_quality: Option<u32>,
        ratings: Ratings,
        workout_answer: bool,
        remarks: String,
    ) -> (r: LogEntry)
        ensures
            r.timestamp@ == timestamp@,
            r.day_count == plan.day_count,
            r.sleep_hours == (if plan.is_first_entry_today {
                sleep_hours
            } else {
                None
            }),
            r.sleep_quality == (if plan.is_first_entry_today {
                sleep_quality
            } else {
                None
            }),
            r.sleepiness == ratings.sleepiness,
            r.zonkedness == ratings.zonkedness,
            r.energy == ratings.energy,
            r.strength == ratings.strength,
            r.focus == ratings.focus,
            r.intelligence == ratings.intelligence,
            r.workout_today == (!plan.ask_workout || workout_answer),
            r.remarks@ == remarks@,
    {
        let (sleep_hours, sleep_quality) = if plan.is_first_entry_today {
            (sleep_hours, sleep_quality)
        } else {
            (None, None)
        };
        LogEntry {
            timestamp,
            day_count: plan.day_count,
            sleep_hours,
            sleep_quality,
            sleepiness: ratings.sleepiness,
            zonkedness: ratings.zonkedness,
            energy: ratings.energy,
            strength: ratings.strength,
            focus: ratings.focus,
            intelligence: ratings.intelligence,
            workout_today: !plan.ask_workout || workout_answer,
            remarks,
        }
    }
}

/// The bytes of one CSV record, terminator included, or `None` where the
/// writer reports an error.
pub uninterp spec fn csv_record_bytes(fields: Seq<Seq<char>>) -> Option<Seq<u8>>;

pub open spec fn false_literal() -> Seq<char> {
    seq!['f', 'a', 'l', 's', 'e']
}

pub open spec fn bool_text(b: bool) -> Seq<char> {
    if b {
        true_literal()
    } else {
        false_literal()
    }
}

/// A whole number as a cell, with a '-' where it is negative.
pub open spec fn signed_text(n: int) -> Seq<char> {
    if n < 0 {
        seq!['-'] + decimal_text((-n) as nat)
    } else {
        decimal_text(n as nat)
    }
}

/// An optional figure in tenths as a cell; empty where it is absent.
pub open spec fn optional_tenths_text(t: Option<u32>) -> Seq<char> {
    match t {
        Some(v) => tenths_text(v as nat),
        None => Seq::empty(),
    }
}

/// The columns of the file, in order.
pub open spec fn header_fields() -> Seq<Seq<char>> {
    seq![
        "timestamp"@,
        "day_count"@,
        "sleep_hours"@,
        "sleep_quality"@,
        "sleepiness"@,
        "zonkedness"@,
        "energy"@,
        "strength"@,
        "focus"@,
        "intelligence"@,
        "workout_today"@,
        "remarks"@,
    ]
}

/// The cells of an entry's row, in the order of the columns.
pub open spec fn entry_fields(e: LogEntry) -> Seq<Seq<char>> {
    seq![
        e.timestamp@,
        signed_text(e.day_count as int),
        optional_tenths_text(e.sleep_hours),
        optional_tenths_text(e.sleep_quality),
        decimal_text(e.sleepiness as nat),
        decimal_text(e.zonkedness as nat),
        decimal_text(e.energy as nat),
        decimal_text(e.strength as nat),
        decimal_text(e.focus as nat),
        decimal_text(e.intelligence as nat),
        bool_text(e.workout_today),
        e.remarks@,
    ]
}

/// What is appended to the file for an entry: the header first where the file
/// did not exist, then the entry's row.
pub open spec fn appended_bytes(file_existed: bool, e: LogEntry) -> Option<Seq<u8>> {
    match csv_record_bytes(entry_fields(e)) {
        None => None,
        Some(row) => if file_existed {
            Some(row)
        } else {
            match csv_record_bytes(header_fields()) {
                None => None,
                Some(head) => Some(head + row),
            }
        },
    }
}

/// Relies on csv's `Writer::write_record` into a buffer, and `into_inner` to
/// take the buffer back.
#[verifier::external_body]
fn encode_record(fields: &Vec<String>) -> (r: Option<Vec<u8>>)
    ensures
        match r {
            Some(b) => Some(b@),
            None => None::<Seq<u8>>,
        } == csv_record_bytes(cells_view(fields@)),
{
    let mut wtr = csv::Writer::from_writer(Vec::new());
    match wtr.write_record(fields) {
        Ok(()) => wtr.into_inner().ok(),
        Err(_) => None,
    }
}

fn format_bool(b: bool) -> (r: String)
    ensures
        r@ == bool_text(b),
{
    proof {
        reveal_strlit("true");
        reveal_strlit("false");
    }
    if b {
        let s = String::from_str("true");
        assert(s@ =~= true_literal());
        s
    } else {
        let s = String::from_str("false");
        assert(s@ =~= false_literal());
        s
    }
}

/// A whole number as a cell.
pub fn format_signed(n: i64) -> (r: String)
    ensures
        r@ == signed_text(n as int),
{
    if n < 0 {
        let m = (0 - (n as i128)) as u64;
        let mut s = String::from_str("-");
        proof {
            reveal_strlit("-");
        }
        let d = format_decimal(m);
        s.append(d.as_str());
        assert(s@ =~= seq!['-'] + decimal_text((-n) as nat));
        s
    } else {
        format_decimal(n as u64)
    }
}

fn format_optional_tenths(t: Option<u32>) -> (r: String)
    ensures
        r@ == optional_tenths_text(t),
{
    match t {
        Some(v) => format_tenths(v),
        None => String::new(),
    }
}

/// The header row's cells.
pub fn header_cells() -> (r: Vec<String>)
    ensures
        cells_view(r@) == header_fields(),
{
    let r = vec![
        String::from_str("timestamp"),
        String::from_str("day_count"),
        String::from_str("sleep_hours"),
        String::from_str("sleep_quality"),
        String::from_str("sleepiness"),
        String::from_str("zonkedness"),
        String::from_str("energy"),
        String::from_str("strength"),
        String::from_str("focus"),
        String::from_str("intelligence"),
        String::from_str("workout_today"),
        String::from_str("remarks"),
    ];
    assert(cells_view(r@) =~= header_fields());
    r
}

impl LogEntry {
    /// The cells of this entry's row.
    pub fn cells(&self) -> (r: Vec<String>)
        ensures
            cells_view(r@) == entry_fields(*self),
    {
        let r = vec![
            self.timestamp.clone(),
            format_signed(self.day_count),
            format_optional_tenths(self.sleep_hours),
            format_optional_tenths(self.sleep_quality),
            format_decimal(self.sleepiness as u64),
            format_decimal(self.zonkedness as u64),
            format_decimal(self.energy as u64),
            format_decimal(self.strength as u64),
            format_decimal(self.focus as u64),
            format_decimal(self.intelligence as u64),
            format_bool(self.workout_today),
            self.remarks.clone(),
        ];
        assert(cells_view(r@) =~= entry_fields(*self));
        r
    }

    /// The bytes to append to the file for this entry: the header row first
    /// where the file did not exist, then this entry's row.
    pub fn append_bytes(&self, file_existed: bool) -> (r: Option<Vec<u8>>)
        ensures
            match r {
                Some(b) => Some(b@),
                None => None::<Seq<u8>>,
            } == appended_bytes(file_existed, *self),
    {
        let row = match encode_record(&self.cells()) {
            Some(b) => b,
            None => return None,
        };
        if file_existed {
            return Some(row);
        }
        let mut head = match encode_record(&header_cells()) {
            Some(b) => b,
            None => return None,
        };
        let mut tail = row;
        head.append(&mut tail);
        Some(head)
    }
}

proof fn lemma_bool_cell(b: bool)
    ensures
        true_cell(bool_text(b)) == b,
        !header_cell(bool_text(b)),
{
    let t = bool_text(b);
    assert(!is_white_space(t[0]));
    assert(trim_start(t) == t);
    assert(!is_white_space(t.last()));
    assert(trim_end(t) == t);
    assert(trim(t) == t);
    if b {
        assert(t.map_values(|c: char| ascii_lower(c)) =~= true_literal());
    } else {
        assert(t.map_values(|c: char| ascii_lower(c)).len() != true_literal().len());
    }
    assert(t.len() != crate::text::header_literal().len());
}

/// With no history, the next entry is the first of the day, on day 1, and
/// the workout question is asked.
pub proof fn lemma_no_history(today: i32)
    ensures
        plan_of(today, crate::history::empty_summary()) == (EntryPlan {
            is_first_entry_today: true,
            day_count: 1,
            ask_workout: true,
        }),
{
}

/// Where no dated row lies after today, the day count is today's distance
/// from the first entry date plus one, and so at least 1.
pub proof fn lemma_day_count_positive(facts: Seq<Option<(i32, bool)>>, today: i32)
    requires
        forall|i: int| 0 <= i < facts.len() && #[trigger] facts[i] is Some ==> fact_day(facts[i]) <= today,
    ensures
        ({
            let s = scan_facts(facts, today);
            let p = plan_of(today, s);
            &&& p.day_count >= 1
            &&& s.first_entry_date is Some ==> p.day_count == today - s.first_entry_date->0 + 1
            &&& s.first_entry_date is None ==> p.day_count == 1
        }),
{
    crate::history::lemma_first_not_after_last(facts, today);
}

/// After a row dated today, the next entry is a follow-up without sleep
/// questions; where that row logged a workout, the workout question is not
/// asked again.
pub proof fn lemma_follow_up_today(facts: Seq<Option<(i32, bool)>>, workout: bool, today: i32)
    ensures
        ({
            let p = plan_of(today, scan_facts(facts.push(Some((today, workout))), today));
            &&& !p.is_first_entry_today
            &&& workout ==> !p.ask_workout
        }),
{
    assert(facts.push(Some((today, workout))).drop_last() =~= facts);
}

/// An entry's row, read back, is dated by its timestamp and carries its
/// workout answer; so after it is appended the scan's last entry date is that
/// date, and a workout done today is logged.
pub proof fn lemma_entry_rescanned(
    facts: Seq<Option<(i32, bool)>>,
    e: LogEntry,
    day: i32,
    today: i32,
)
    requires
        rfc3339_utc_day(e.timestamp@) == Some(day),
        !header_cell(e.timestamp@),
    ensures
        row_fact(entry_fields(e)) == Some((day, e.workout_today)),
        ({
            let before = scan_facts(facts, today);
            let after = scan_facts(facts.push(row_fact(entry_fields(e))), today);
            &&& after.last_entry_date == Some(day)
            &&& after.workout_logged_today == (before.workout_logged_today || (day == today
                && e.workout_today))
        }),
{
    lemma_bool_cell(e.workout_today);
    let f = entry_fields(e);
    assert(f[WORKOUT_COLUMN as int] == bool_text(e.workout_today));
    assert(f[0] == e.timestamp@);
    assert(facts.push(row_fact(f)).drop_last() =~= facts);
}

} // verus!
