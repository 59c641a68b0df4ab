//! The clock: from a firmware time reading to a timestamp.
//!
//! Two readings can serve as a clock. A calendar reading gives date and time
//! of day and becomes the number of microseconds since 1 January 1970. A
//! counter reading gives processor cycles and becomes microseconds by a fixed
//! ratio. Which of the two is read is the caller's choice, made once; the
//! timestamps that come out are compared by their distance only.

use vstd::prelude::*;
use crate::calendar::{
    day_number, days_before_year, days_from_civil, days_in_month, is_civil_date, is_leap_year,
    lemma_day_number_within_year, lemma_days_before_year_grows,
};
use crate::time::{elapsed_between, lemma_elapsed_of_wrapped, modulus};

verus! {

/// Cycles of the counter per microsecond.
pub const CYCLES_PER_MICROSECOND: u64 = 1000;

/// Microseconds per day.
pub const MICROS_PER_DAY: u64 = 86_400_000_000;

/// Microseconds per hour.
pub const MICROS_PER_HOUR: u64 = 3_600_000_000;

/// Microseconds per minute.
pub const MICROS_PER_MINUTE: u64 = 60_000_000;

/// Microseconds per second.
pub const MICROS_PER_SECOND: u64 = 1_000_000;

/// Date and time of day as the firmware reports them.
#[derive(Clone, Copy, Debug, PartialEq, Eq)]
pub struct CalendarTime {
    year: u16,
    month: u8,
    day: u8,
    hour: u8,
    minute: u8,
    second: u8,
    nanosecond: u32,
}

/// A calendar reading as a value.
pub struct CalendarView {
    pub year: int,
    pub month: int,
    pub day: int,
    pub hour: int,
    pub minute: int,
    pub second: int,
    pub nanosecond: int,
}

/// What was read from the firmware to tell the time.
#[derive(Clone, Copy, Debug, PartialEq, Eq)]
pub enum ClockReading {
    /// Date and time of day.
    Calendar(CalendarTime),
    /// The processor's cycle counter.
    Counter(u64),
}

impl CalendarView {
    /// Whether the fields name a moment: a date of the calendar and a time
    /// of day.
    pub open spec fn wf(self) -> bool {
        &&& 0 <= self.year <= u16::MAX
        &&& is_civil_date(self.year, self.month, self.day)
        &&& 0 <= self.hour < 24
        &&& 0 <= self.minute < 60
        &&& 0 <= self.second < 60
        &&& 0 <= self.nanosecond < 1_000_000_000
    }

    /// Microseconds from the start of 1 January 1970 to the moment; negative
    /// before it. Parts of a microsecond are dropped.
    pub open spec fn micros_since_epoch(self) -> int {
        day_number(self.year, self.month, self.day) * MICROS_PER_DAY + self.hour * MICROS_PER_HOUR
            + self.minute * MICROS_PER_MINUTE + self.second * MICROS_PER_SECOND + self.nanosecond
            / 1000
    }
}

/// The reading with the given fields.
pub open spec fn reading_of(
    year: u16,
    month: u8,
    day: u8,
    hour: u8,
    minute: u8,
    second: u8,
    nanosecond: u32,
) -> CalendarView {
    CalendarView {
        year: year as int,
        month: month as int,
        day: day as int,
        hour: hour as int,
        minute: minute as int,
        second: second as int,
        nanosecond: nanosecond as int,
    }
}

/// The timestamp of a counter reading.
pub open spec fn counter_timestamp(cycles: u64) -> u64 {
    cycles / CYCLES_PER_MICROSECOND
}

/// The timestamp of a calendar reading: the microseconds since the epoch,
/// modulo 2^64.
pub open spec fn calendar_timestamp(t: CalendarView) -> u64 {
    (t.micros_since_epoch() % modulus()) as u64
}

/// Whether year `y` has a 29 February.
fn leap_year(y: u16) -> (leap: bool)
    ensures
        leap == is_leap_year(y as int),
{
    y % 4 == 0 && (y % 100 != 0 || y % 400 == 0)
}

/// Number of days of month `m` in year `y`.
fn month_length(y: u16, m: u8) -> (days: u8)
    ensures
        days == days_in_month(y as int, m as int),
{
    if m == 2 {
        if leap_year(y) { 29 } else { 28 }
    } else if m == 4 || m == 6 || m == 9 || m == 11 {
        30
    } else {
        31
    }
}

impl View for CalendarTime {
    type V = CalendarView;

    closed spec fn view(&self) -> CalendarView {
        reading_of(
            self.year,
            self.month,
            self.day,
            self.hour,
            self.minute,
            self.second,
            self.nanosecond,
        )
    }
}

impl CalendarTime {
    #[verifier::type_invariant]
    spec fn inv(self) -> bool {
        self@.wf()
    }

    /// A calendar reading from its fields. Fields that name no moment, such
    /// as a 30 February or an hour 24, give none.
    pub fn new(
        year: u16,
        month: u8,
        day: u8,
        hour: u8,
        minute: u8,
        second: u8,
        nanosecond: u32,
    ) -> (made: Option<Self>)
        ensures
            made is Some <==> reading_of(year, month, day, hour, minute, second, nanosecond).wf(),
            made is Some ==> made->Some_0@ == reading_of(
                year,
                month,
                day,
                hour,
                minute,
                second,
                nanosecond,
            ),
    {
        if month < 1 || month > 12 || day < 1 || day > month_length(year, month) {
            return None;
        }
        if hour >= 24 || minute >= 60 || second >= 60 || nanosecond >= 1_000_000_000 {
            return None;
        }
        Some(CalendarTime { year, month, day, hour, minute, second, nanosecond })
    }

    /// The timestamp of the reading.
    pub fn micros(&self) -> (t: u64)
        ensures
            self@.wf(),
            t == calendar_timestamp(self@),
    {
        proof {
            use_type_invariant(self);
            lemma_day_number_of_reading(self@);
        }
        let days = days_from_civil(self.year as i64, self.month as i64, self.day as i64);
        let seconds: i128 = ((days as i128 * 24 + self.hour as i128) * 60 + self.minute as i128) * 60
            + self.second as i128;
        let total: i128 = seconds * 1_000_000 + (self.nanosecond / 1000) as i128;
        assert(total == self@.micros_since_epoch());
        if total >= 0 {
            total as u64
        } else {
            (total + 0x1_0000_0000_0000_0000) as u64
        }
    }
}

/// The day count of a reading's date is small: the years of a reading lie
/// between 0 and 65535.
pub proof fn lemma_day_number_of_reading(t: CalendarView)
    requires
        t.wf(),
    ensures
        -719_528 <= day_number(t.year, t.month, t.day) <= 23_217_003,
{
    assert(days_before_year(0) == -719_528);
    assert(days_before_year(65536) == 23_217_004);
    lemma_day_number_within_year(t.year, t.month, t.day);
    lemma_days_before_year_grows(0, t.year);
    lemma_days_before_year_grows(t.year + 1, 65536);
}

/// The timestamp of a reading of either kind.
pub fn timestamp(reading: &ClockReading) -> (t: u64)
    ensures
        t == match *reading {
            ClockReading::Calendar(time) => calendar_timestamp(time@),
            ClockReading::Counter(cycles) => counter_timestamp(cycles),
        },
{
    match reading {
        ClockReading::Calendar(time) => time.micros(),
        ClockReading::Counter(cycles) => *cycles / CYCLES_PER_MICROSECOND,
    }
}

/// From 1970 on the timestamp of a calendar reading is the number of
/// microseconds since the epoch itself: nothing wraps.
pub proof fn lemma_timestamp_after_epoch(t: CalendarView)
    requires
        t.wf(),
        t.year >= 1970,
    ensures
        calendar_timestamp(t) == t.micros_since_epoch(),
{
    lemma_day_number_of_reading(t);
    lemma_day_number_within_year(t.year, t.month, t.day);
    lemma_days_before_year_grows(1970, t.year);
}

/// The distance between the timestamps of two calendar readings is the time
/// that passed between them, also where one or both lie before the epoch.
pub proof fn lemma_elapsed_between_readings(earlier: CalendarView, later: CalendarView)
    requires
        earlier.wf(),
        later.wf(),
        earlier.micros_since_epoch() <= later.micros_since_epoch(),
    ensures
        elapsed_between(calendar_timestamp(earlier), calendar_timestamp(later))
            == later.micros_since_epoch() - earlier.micros_since_epoch(),
{
    lemma_day_number_of_reading(earlier);
    lemma_day_number_of_reading(later);
    let a = earlier.micros_since_epoch();
    let b = later.micros_since_epoch();
    assert(a >= -719_528 * 86_400_000_000);
    assert(b < 23_217_004 * 86_400_000_000);
    lemma_elapsed_of_wrapped(a, b);
}

} // verus!
