//! The data model: calendar dates, minute-precision timestamps, projects,
//! tasks, and the holiday lookup table.
//!
//! A timestamp is modelled as a proleptic-Gregorian calendar date plus a
//! minute of the day; its linearisation to minutes since 1970-01-01 uses the
//! standard civil-from-days arithmetic, so differences of timestamps are
//! exact minute counts.
use vstd::prelude::*;

verus! {

/// Largest task count one analysis accepts; keeps all intermediate
/// arithmetic (including the sum of squared deviations) inside `i128`.
pub const MAX_TASKS: usize = 16384;

/// Smallest day number a valid date can map to (0001-01-01).
pub const MIN_DATE_DAYS: i64 = -719162;

/// Largest day number a valid date can map to (9999-12-31).
pub const MAX_DATE_DAYS: i64 = 2932896;

/// A bound on the absolute value of any valid timestamp in minutes.
pub const MAX_ABS_TS_MINUTES: i64 = 4_300_000_000;

/// A bound on the absolute difference of two valid timestamps in minutes,
/// and on a task's estimated time.
pub const MAX_ABS_TIMESPAN: i64 = 8_600_000_000;

/// A calendar date in the proleptic Gregorian calendar.
#[derive(Clone, Copy, PartialEq, Eq, Structural, Debug)]
pub struct Date {
    pub year: i32,
    pub month: u8,
    pub day: u8,
}

/// The dates the library accepts: years 1 through 9999.
pub open spec fn date_valid(d: Date) -> bool {
    &&& 1 <= d.year <= 9999
    &&& 1 <= d.month <= 12
    &&& 1 <= d.day <= 31
}

/// Days since 1970-01-01 of a date, by the usual civil-from-days formula.
pub open spec fn spec_date_days(d: Date) -> int {
    let y: int = if d.month <= 2 {
        d.year - 1
    } else {
        d.year as int
    };
    let era: int = y / 400;
    let yoe: int = y - era * 400;
    let mp: int = if d.month > 2 {
        d.month - 3
    } else {
        d.month + 9
    };
    let doy: int = (153 * mp + 2) / 5 + d.day - 1;
    let doe: int = yoe * 365 + yoe / 4 - yoe / 100 + doy;
    era * 146097 + doe - 719468
}

/// Days since 1970-01-01 of a valid date.
pub fn date_days(d: &Date) -> (r: i64)
    requires
        date_valid(*d),
    ensures
        r == spec_date_days(*d),
        MIN_DATE_DAYS <= r <= MAX_DATE_DAYS,
{
    let y: u64 = if d.month <= 2 {
        (d.year - 1) as u64
    } else {
        d.year as u64
    };
    let era: u64 = y / 400;
    let yoe: u64 = y - era * 400;
    let mp: u64 = if d.month > 2 {
        (d.month - 3) as u64
    } else {
        (d.month + 9) as u64
    };
    let doy: u64 = (153 * mp + 2) / 5 + (d.day - 1) as u64;
    let doe: u64 = yoe * 365 + yoe / 4 - yoe / 100 + doy;
    (era * 146097 + doe) as i64 - 719468
}

/// A point in time: a date and a minute of that day.
#[derive(Clone, Copy, PartialEq, Eq, Structural, Debug)]
pub struct Timestamp {
    pub date: Date,
    pub minute: u16,
}

pub open spec fn timestamp_valid(t: Timestamp) -> bool {
    &&& date_valid(t.date)
    &&& t.minute < 1440
}

/// Minutes since 1970-01-01 00:00 of a timestamp.
pub open spec fn spec_ts_minutes(t: Timestamp) -> int {
    spec_date_days(t.date) * 1440 + t.minute
}

/// Minutes since 1970-01-01 00:00 of a valid timestamp.
pub fn ts_minutes(t: &Timestamp) -> (r: i64)
    requires
        timestamp_valid(*t),
    ensures
        r == spec_ts_minutes(*t),
        -MAX_ABS_TS_MINUTES <= r <= MAX_ABS_TS_MINUTES,
{
    let days = date_days(&t.date);
    days * 1440 + t.minute as i64
}

/// A valid date maps into the supported day window.
pub proof fn lemma_date_days_bound(d: Date)
    requires
        date_valid(d),
    ensures
        MIN_DATE_DAYS <= spec_date_days(d) <= MAX_DATE_DAYS,
{
    let y: int = if d.month <= 2 {
        d.year - 1
    } else {
        d.year as int
    };
    let era: int = y / 400;
    let yoe: int = y - era * 400;
    vstd::arithmetic::div_mod::lemma_div_is_ordered(0, y, 400);
    vstd::arithmetic::div_mod::lemma_div_is_ordered(y, 9999, 400);
    vstd::arithmetic::div_mod::lemma_fundamental_div_mod(y, 400);
    assert(0 <= yoe < 400);
    vstd::arithmetic::div_mod::lemma_div_is_ordered(0, yoe, 4);
    vstd::arithmetic::div_mod::lemma_div_is_ordered(yoe, 399, 4);
    vstd::arithmetic::div_mod::lemma_div_is_ordered(0, yoe, 100);
    vstd::arithmetic::div_mod::lemma_div_is_ordered(yoe, 399, 100);
    let mp: int = if d.month > 2 {
        d.month - 3
    } else {
        d.month + 9
    };
    vstd::arithmetic::div_mod::lemma_div_is_ordered(0, 153 * mp + 2, 5);
    vstd::arithmetic::div_mod::lemma_div_is_ordered(153 * mp + 2, 1685, 5);
}

/// A valid timestamp maps into the supported minute window.
pub proof fn lemma_ts_minutes_bound(t: Timestamp)
    requires
        timestamp_valid(t),
    ensures
        -MAX_ABS_TS_MINUTES <= spec_ts_minutes(t) <= MAX_ABS_TS_MINUTES,
{
    lemma_date_days_bound(t.date);
}

/// A project a task may belong to; identity is the `id` field.
#[derive(Clone, Debug)]
pub struct Project {
    pub id: String,
    pub name: String,
}

/// One unit of work as the loader hands it over. A task is analyzable only
/// when both `begin_time` and `end_time` are present. `estimated_time` is in
/// minutes and, when present, strictly positive.
#[derive(Debug)]
pub struct Task {
    pub id: String,
    pub name: String,
    pub group: Option<String>,
    pub estimated_time: Option<i64>,
    pub begin_time: Option<Timestamp>,
    pub end_time: Option<Timestamp>,
    pub comment: Option<String>,
    pub project: Option<Project>,
}

/// The well-formedness the loader guarantees: timestamps lie in the
/// supported calendar window and an estimate, when present, is a positive
/// minute count no larger than the largest representable timespan.
pub open spec fn task_valid(t: Task) -> bool {
    &&& (t.begin_time is Some ==> timestamp_valid(t.begin_time->0))
    &&& (t.end_time is Some ==> timestamp_valid(t.end_time->0))
    &&& (t.estimated_time is Some ==> 0 < t.estimated_time->0 <= MAX_ABS_TIMESPAN)
}

pub open spec fn tasks_valid(s: Seq<Task>) -> bool {
    forall|i: int| 0 <= i < s.len() ==> task_valid(#[trigger] s[i])
}

/// The holiday lookup: a date is a holiday exactly when the table holds an
/// entry for it. Constructed by the caller and passed in explicitly.
pub struct HolidayTable {
    pub entries: Vec<(Date, String)>,
}

pub open spec fn spec_is_holiday(h: &HolidayTable, d: Date) -> bool {
    exists|i: int| 0 <= i < h.entries@.len() && (#[trigger] h.entries@[i]).0 == d
}

impl HolidayTable {
    pub fn new() -> (r: HolidayTable)
        ensures
            r.entries@.len() == 0,
    {
        HolidayTable { entries: Vec::new() }
    }

    pub fn is_holiday(&self, d: &Date) -> (r: bool)
        ensures
            r == spec_is_holiday(self, *d),
    {
        let mut i: usize = 0;
        while i < self.entries.len()
            invariant
                0 <= i <= self.entries@.len(),
                forall|j: int| 0 <= j < i ==> (#[trigger] self.entries@[j]).0 != *d,
            decreases self.entries@.len() - i,
        {
            if self.entries[i].0 == *d {
                return true;
            }
            i = i + 1;
        }
        false
    }
}

} // verus!
