//! Replaying an old combat log at the pace it was written: the timestamp of
//! each line is read, and the replay pauses wherever the log paused for
//! more than 300 ms.
use vstd::prelude::*;
use vstd::string::*;
use chrono::{Datelike, NaiveDateTime, Timelike};
use crate::combat_log::first_piece;
use crate::text::{chars_of, find_double_space, substring, trim, trim_range};

verus! {

/// A date and time of day as chrono's `NaiveDateTime` holds it: the day
/// counted from January 1 of year 1 (day 1), the second of the day, and the
/// nanoseconds into that second (from 1_000_000_000 on during a leap
/// second).
#[derive(Clone, Copy)]
pub struct LogTime {
    pub day: i32,
    pub second: u32,
    pub nanos: u32,
}

impl View for LogTime {
    type V = (int, int, int);

    open spec fn view(&self) -> (int, int, int) {
        (self.day as int, self.second as int, self.nanos as int)
    }
}

/// What `NaiveDateTime::parse_from_str(text, format)` yields, as
/// (day from CE, second of day, nanosecond); `None` where it fails.
pub uninterp spec fn parsed_log_time(text: Seq<char>, format: Seq<char>) -> Option<(int, int, int)>;

/// Calls chrono's `NaiveDateTime::parse_from_str` and reads the result
/// through `Datelike::num_days_from_ce`, `Timelike::num_seconds_from_midnight`
/// and `Timelike::nanosecond`. The contract claims only that the result is
/// `parsed_log_time` of the two arguments: nothing is stated about which
/// texts parse or to what.
#[verifier::external_body]
fn parse_log_time(text: &str, format: &str) -> (r: Option<LogTime>)
    ensures
        match r {
            Some(t) => parsed_log_time(text@, format@) == Some(t@),
            None => parsed_log_time(text@, format@) is None,
        },
{
    match NaiveDateTime::parse_from_str(text, format) {
        Ok(t) => Some(
            LogTime {
                day: t.num_days_from_ce(),
                second: t.num_seconds_from_midnight(),
                nanos: t.nanosecond(),
            },
        ),
        Err(_) => None,
    }
}

/// `later.signed_duration_since(earlier)` of chrono's `NaiveDateTime`, in
/// nanoseconds: whole days between the dates, plus the difference of the
/// times, where a leap second in the earlier (later) time adds (takes away)
/// a second when the seconds of the day differ, as `NaiveTime`'s
/// subtraction counts it.
pub open spec fn duration_since_nanos(later: (int, int, int), earlier: (int, int, int)) -> int {
    let days = later.0 - earlier.0;
    let leap = if later.1 > earlier.1 && earlier.2 >= 1_000_000_000 {
        1int
    } else if later.1 < earlier.1 && later.2 >= 1_000_000_000 {
        -1int
    } else {
        0int
    };
    (days * 86400 + later.1 - earlier.1 + leap) * 1_000_000_000 + later.2 - earlier.2
}

/// A pause, as a `std::time::Duration` holds it.
#[derive(Clone, Copy)]
pub struct SleepFor {
    pub secs: u64,
    pub nanos: u32,
}

impl View for SleepFor {
    type V = int;

    open spec fn view(&self) -> int {
        self.secs * 1_000_000_000 + self.nanos
    }
}

/// Why a line stops the replay.
pub enum ReplayError {
    /// The timestamp of the line could not be read.
    BadTimestamp,
    /// The line is older than the last one the replay paused at.
    TimeWentBackwards,
}

/// The longest gap in the log, in nanoseconds, that the replay does not
/// reproduce.
pub open spec fn max_unpaused_gap() -> int {
    300_000_000
}

/// The time of the last line at which the replay paused (or of the first
/// line).
pub struct ReplayClock {
    pub time_of_last: Option<LogTime>,
}

/// How the replay goes on after a line of time `now`, given the time `last`
/// it last paused at: `Ok(Some(d))` pauses for `d` nanoseconds and `now`
/// becomes the new mark, `Ok(None)` goes on at once, `Err` stops.
pub open spec fn replay_outcome(last: Option<(int, int, int)>, now: (int, int, int)) -> Result<
    Option<int>,
    ReplayError,
> {
    match last {
        None => Ok(None),
        Some(l) => {
            let d = duration_since_nanos(now, l);
            if d < 0 {
                Err(ReplayError::TimeWentBackwards)
            } else if d > max_unpaused_gap() {
                Ok(Some(d))
            } else {
                Ok(None)
            }
        },
    }
}

/// The mark after a line of time `now`: the first line sets it, a pause
/// moves it to `now`, and otherwise it stays.
pub open spec fn next_mark(last: Option<(int, int, int)>, now: (int, int, int)) -> Option<
    (int, int, int),
> {
    match replay_outcome(last, now) {
        Ok(Some(_)) => Some(now),
        Ok(None) => if last is None {
            Some(now)
        } else {
            last
        },
        Err(_) => last,
    }
}

/// The text whose date the replay reads: the part of the line before the
/// two-space separator, trimmed, after the year `2023/` (the log leaves the
/// year out).
pub open spec fn timestamp_text(line: Seq<char>) -> Seq<char> {
    "2023/"@ + trim(first_piece(line))
}

/// The format the timestamp text is read with.
pub open spec fn timestamp_format() -> Seq<char> {
    "%Y/%m/%d %X.%3f"@
}

/// Builds `timestamp_text(line)`.
pub fn replay_timestamp_text(line: &str) -> (r: String)
    ensures
        r@ == timestamp_text(line@),
{
    let v = chars_of(line);
    let n = v.len();
    assert(v@.subrange(0, n as int) =~= line@);
    let end = match find_double_space(&v, 0, n) {
        Some(i) => i,
        None => n,
    };
    assert(v@.subrange(0, end as int) == first_piece(line@)) by {
        if end < n {
            assert(line@.subrange(0, end as int) =~= v@.subrange(0, end as int));
        }
    }
    let (a, b) = trim_range(&v, 0, end);
    let date = substring(line, a, b);
    let year = String::from_str("2023/");
    year.concat(date.as_str())
}

impl ReplayClock {
    pub fn new() -> (c: Self)
        ensures
            c.time_of_last is None,
    {
        ReplayClock { time_of_last: None }
    }

    /// The mark as plain values.
    pub open spec fn mark(&self) -> Option<(int, int, int)> {
        match self.time_of_last {
            Some(t) => Some(t@),
            None => None,
        }
    }

    /// Takes in a line of time `now`: says how long to pause before the
    /// next line and moves the mark.
    pub fn advance(&mut self, now: LogTime) -> (r: Result<Option<SleepFor>, ReplayError>)
        ensures
            match (r, replay_outcome(old(self).mark(), now@)) {
                (Ok(Some(s)), Ok(Some(d))) => s@ == d && s.nanos < 1_000_000_000,
                (Ok(None), Ok(None)) => true,
                (Err(ReplayError::TimeWentBackwards), Err(ReplayError::TimeWentBackwards)) => true,
                _ => false,
            },
            final(self).mark() == next_mark(old(self).mark(), now@),
    {
        match self.time_of_last {
            None => {
                self.time_of_last = Some(now);
                Ok(None)
            },
            Some(last) => {
                let days = now.day as i128 - last.day as i128;
                let mut secs = now.second as i128 - last.second as i128;
                if now.second > last.second && last.nanos >= 1_000_000_000 {
                    secs = secs + 1;
                } else if now.second < last.second && now.nanos >= 1_000_000_000 {
                    secs = secs - 1;
                }
                let d = (days * 86400 + secs) * 1_000_000_000 + now.nanos as i128
                    - last.nanos as i128;
                assert(d == duration_since_nanos(now@, last@));
                if d < 0 {
                    Err(ReplayError::TimeWentBackwards)
                } else if d > 300_000_000 {
                    let whole = d / 1_000_000_000;
                    let frac = d % 1_000_000_000;
                    assert(d <= (0x1_0000_0000 * 86401 + 1) * 1_000_000_000 + 0x1_0000_0000);
                    proof {
                        vstd::arithmetic::div_mod::lemma_fundamental_div_mod(
                            d as int,
                            1_000_000_000,
                        );
                        vstd::arithmetic::div_mod::lemma_mod_pos_bound(d as int, 1_000_000_000);
                    }
                    assert(whole <= 0x1_0000_0000 * 86401 + 5);
                    self.time_of_last = Some(now);
                    Ok(Some(SleepFor { secs: whole as u64, nanos: frac as u32 }))
                } else {
                    Ok(None)
                }
            },
        }
    }

    /// Takes in one line of the log being replayed: reads its timestamp
    /// with chrono and goes on as `advance` does. A line whose timestamp
    /// cannot be read stops the replay and leaves the mark as it was.
    pub fn step(&mut self, line: &str) -> (r: Result<Option<SleepFor>, ReplayError>)
        ensures
            match parsed_log_time(timestamp_text(line@), timestamp_format()) {
                None => r is Err && r->Err_0 is BadTimestamp && final(self).mark() == old(
                    self,
                ).mark(),
                Some(now) => final(self).mark() == next_mark(old(self).mark(), now) && match (
                    r,
                    replay_outcome(old(self).mark(), now),
                ) {
                    (Ok(Some(s)), Ok(Some(d))) => s@ == d && s.nanos < 1_000_000_000,
                    (Ok(None), Ok(None)) => true,
                    (
                        Err(ReplayError::TimeWentBackwards),
                        Err(ReplayError::TimeWentBackwards),
                    ) => true,
                    _ => false,
                },
            },
    {
        let text = replay_timestamp_text(line);
        match parse_log_time(text.as_str(), "%Y/%m/%d %X.%3f") {
            None => Err(ReplayError::BadTimestamp),
            Some(now) => self.advance(now),
        }
    }
}

} // verus!
