//! Core data model: severity levels, naive timestamps, and parsed log records.

use vstd::prelude::*;

verus! {

/// Severity of a log record. Equality only; no ordering is defined.
#[derive(Clone, Copy, Debug, PartialEq, Eq, Hash, Structural)]
pub enum Level {
    Info,
    Warning,
    Error,
}

/// A naive point in time: calendar date plus time of day, no timezone and no
/// sub-second component. Offsets and `Z` markers in the input are recognized
/// only to be discarded.
#[derive(Clone, Copy, Debug, PartialEq, Eq, Hash, Structural)]
pub struct Timestamp {
    pub year: u32,
    pub month: u32,
    pub day: u32,
    pub hour: u32,
    pub minute: u32,
    pub second: u32,
}

pub open spec fn is_leap_year(y: int) -> bool {
    (y % 4 == 0 && y % 100 != 0) || y % 400 == 0
}

pub open spec fn days_in_month(y: int, m: int) -> int {
    if m == 2 {
        if is_leap_year(y) {
            29
        } else {
            28
        }
    } else if m == 4 || m == 6 || m == 9 || m == 11 {
        30
    } else {
        31
    }
}

/// A timestamp is valid when it denotes a real calendar date (four-digit
/// year) and a real time of day.
pub open spec fn ts_valid(t: Timestamp) -> bool {
    &&& t.year <= 9999
    &&& 1 <= t.month <= 12
    &&& 1 <= t.day <= days_in_month(t.year as int, t.month as int)
    &&& t.hour <= 23
    &&& t.minute <= 59
    &&& t.second <= 59
}

/// Total order on timestamps: the positional encoding of the six fields.
/// For valid timestamps this agrees with chronological order, and it is
/// injective because every base exceeds the range of the field below it.
pub open spec fn ts_key(t: Timestamp) -> int {
    t.second + 60 * (t.minute + 60 * (t.hour + 24 * (t.day + 32 * (t.month + 13 * t.year))))
}

pub open spec fn ts_min(a: Timestamp, b: Timestamp) -> Timestamp {
    if ts_key(a) <= ts_key(b) {
        a
    } else {
        b
    }
}

pub open spec fn ts_max(a: Timestamp, b: Timestamp) -> Timestamp {
    if ts_key(a) <= ts_key(b) {
        b
    } else {
        a
    }
}

/// On valid timestamps the order key is injective.
pub proof fn lemma_ts_key_injective(a: Timestamp, b: Timestamp)
    requires
        ts_valid(a),
        ts_valid(b),
        ts_key(a) == ts_key(b),
    ensures
        a == b,
{
}

impl Timestamp {
    /// The order key, computed executably. Fits in `u64` because every field
    /// of a valid timestamp is bounded.
    pub fn key(&self) -> (r: u64)
        requires
            ts_valid(*self),
        ensures
            r == ts_key(*self),
    {
        self.second as u64 + 60 * (self.minute as u64 + 60 * (self.hour as u64 + 24 * (self.day
            as u64 + 32 * (self.month as u64 + 13 * self.year as u64))))
    }
}

/// Executable number of days in a month.
pub fn month_days(y: u32, m: u32) -> (d: u32)
    requires
        1 <= m <= 12,
    ensures
        d == days_in_month(y as int, m as int),
{
    if m == 2 {
        if (y % 4 == 0 && y % 100 != 0) || y % 400 == 0 {
            29
        } else {
            28
        }
    } else if m == 4 || m == 6 || m == 9 || m == 11 {
        30
    } else {
        31
    }
}

impl Timestamp {
    /// Executable validity test.
    pub fn valid(&self) -> (r: bool)
        ensures
            r == ts_valid(*self),
    {
        self.year <= 9999 && 1 <= self.month && self.month <= 12 && self.hour <= 23
            && self.minute <= 59 && self.second <= 59 && 1 <= self.day && self.day <= month_days(
            self.year,
            self.month,
        )
    }
}

/// One successfully parsed log line.
#[derive(Clone, Debug)]
pub struct LogEntry {
    pub ts: Timestamp,
    pub level: Level,
    pub message: String,
}

/// Mathematical model of a `LogEntry`: the message as a character sequence.
pub struct EntryV {
    pub ts: Timestamp,
    pub level: Level,
    pub message: Seq<char>,
}

impl View for LogEntry {
    type V = EntryV;

    open spec fn view(&self) -> EntryV {
        EntryV { ts: self.ts, level: self.level, message: self.message@ }
    }
}

} // verus!
