//! Wall-clock values: moments in the local time zone and daily schedule times.

use vstd::prelude::*;
use vstd::arithmetic::div_mod::{lemma_fundamental_div_mod_converse_div,
    lemma_fundamental_div_mod_converse_mod};
use chrono::{Offset, TimeZone, Timelike};

verus! {

/// Largest distance from the Unix epoch, in seconds, of the moments this library handles
/// (about 278,000 years, beyond every moment chrono can represent).
pub const MAX_UTC_SECS: i64 = 0x800_0000_0000;

/// Largest distance from the Unix epoch, in seconds, of a moment from which the next
/// scheduled run is computed (about 139,000 years; chrono can add days there).
pub const SCHEDULE_RANGE_SECS: i64 = 0x400_0000_0000 - 3 * 86400;

pub const SECS_PER_DAY: i64 = 86400;

/// A moment and the local UTC offset in force at it, as `chrono::DateTime<Local>` holds
/// them: seconds since the Unix epoch, the nanoseconds past that second, and the local
/// offset east of UTC in seconds.
#[derive(Debug, Clone, Copy, PartialEq, Eq)]
pub struct LocalDateTime {
    pub utc_secs: i64,
    pub nanos: u32,
    pub offset_secs: i32,
}

impl LocalDateTime {
    /// Within the handled range, with a sub-second part and offset that chrono allows.
    pub open spec fn valid(self) -> bool {
        &&& -MAX_UTC_SECS <= self.utc_secs <= MAX_UTC_SECS
        &&& self.nanos < 1_000_000_000
        &&& -SECS_PER_DAY < self.offset_secs < SECS_PER_DAY
    }

    /// Seconds since the epoch of the local wall-clock reading.
    pub open spec fn local_secs(self) -> int {
        self.utc_secs + self.offset_secs
    }

    /// Number of the local calendar day, counted from 1970-01-01.
    pub open spec fn local_day(self) -> int {
        self.local_secs() / (SECS_PER_DAY as int)
    }

    /// Seconds since local midnight.
    pub open spec fn seconds_of_day(self) -> int {
        self.local_secs() % (SECS_PER_DAY as int)
    }

    /// Whether `self` is strictly earlier than `other`.
    pub open spec fn before(self, other: LocalDateTime) -> bool {
        self.utc_secs < other.utc_secs || (self.utc_secs == other.utc_secs && self.nanos
            < other.nanos)
    }

    pub fn new(utc_secs: i64, nanos: u32, offset_secs: i32) -> (r: Option<LocalDateTime>)
        ensures
            match r {
                Some(t) => t.valid() && t.utc_secs == utc_secs && t.nanos == nanos
                    && t.offset_secs == offset_secs,
                None => !(LocalDateTime { utc_secs, nanos, offset_secs }).valid(),
            },
    {
        if -MAX_UTC_SECS <= utc_secs && utc_secs <= MAX_UTC_SECS && nanos < 1_000_000_000
            && -SECS_PER_DAY < offset_secs as i64 && (offset_secs as i64) < SECS_PER_DAY {
            Some(LocalDateTime { utc_secs, nanos, offset_secs })
        } else {
            None
        }
    }

    pub fn is_before(&self, other: &LocalDateTime) -> (r: bool)
        ensures
            r == self.before(*other),
    {
        self.utc_secs < other.utc_secs || (self.utc_secs == other.utc_secs && self.nanos
            < other.nanos)
    }

    /// The local calendar day and the seconds since local midnight.
    pub fn day_and_seconds(&self) -> (r: (i64, i64))
        requires
            self.valid(),
        ensures
            r.0 == self.local_day(),
            r.1 == self.seconds_of_day(),
            0 <= r.1 < SECS_PER_DAY,
            r.0 * SECS_PER_DAY + r.1 == self.local_secs(),
    {
        let shift_days: i64 = 101_900_000;
        let local: i64 = self.utc_secs + self.offset_secs as i64;
        let shifted: u64 = (local + shift_days * SECS_PER_DAY) as u64;
        let q: u64 = shifted / 86400;
        let rem: u64 = shifted % 86400;
        let day: i64 = q as i64 - shift_days;
        let sod: i64 = rem as i64;
        proof {
            assert(shifted == q * 86400 + rem);
            assert(local == day * 86400 + sod) by (nonlinear_arith)
                requires
                    shifted == q * 86400 + rem,
                    shifted == local + shift_days * 86400,
                    day == q - shift_days,
                    sod == rem,
            ;
            lemma_fundamental_div_mod_converse_div(local as int, 86400, day as int, sod as int);
            lemma_fundamental_div_mod_converse_mod(local as int, 86400, day as int, sod as int);
        }
        (day, sod)
    }
}

/// A time of day at minute precision, as a daily schedule names it.
#[derive(Debug, Clone, Copy, PartialEq, Eq)]
pub struct ScheduleTime {
    pub hour: u32,
    pub minute: u32,
}

impl ScheduleTime {
    pub open spec fn valid(self) -> bool {
        self.hour < 24 && self.minute < 60
    }

    /// Seconds from midnight to this time.
    pub open spec fn seconds(self) -> int {
        self.hour * 3600 + self.minute * 60
    }

    /// The time `hour:minute`, if it is a valid time of day.
    pub fn from_hm_opt(hour: u32, minute: u32) -> (r: Option<ScheduleTime>)
        ensures
            match r {
                Some(t) => t.valid() && t.hour == hour && t.minute == minute,
                None => !(hour < 24 && minute < 60),
            },
    {
        if hour < 24 && minute < 60 {
            Some(ScheduleTime { hour, minute })
        } else {
            None
        }
    }

    pub fn seconds_from_midnight(&self) -> (r: i64)
        requires
            self.valid(),
        ensures
            r == self.seconds(),
            r == 3600 * self.hour + 60 * self.minute,
            0 <= r < SECS_PER_DAY,
    {
        self.hour as i64 * 3600 + self.minute as i64 * 60
    }
}

/// `s` has the shape `DD:DD` with ASCII digits.
pub open spec fn is_hh_mm_form(s: Seq<char>) -> bool {
    &&& s.len() == 5
    &&& '0' <= s[0] <= '9'
    &&& '0' <= s[1] <= '9'
    &&& s[2] == ':'
    &&& '0' <= s[3] <= '9'
    &&& '0' <= s[4] <= '9'
}

pub open spec fn digit_value(c: char) -> int {
    (c as u32) - ('0' as u32)
}

/// The hour written in a `DD:DD` text.
pub open spec fn hh_of(s: Seq<char>) -> int {
    digit_value(s[0]) * 10 + digit_value(s[1])
}

/// The minute written in a `DD:DD` text.
pub open spec fn mm_of(s: Seq<char>) -> int {
    digit_value(s[3]) * 10 + digit_value(s[4])
}

/// The chrono format of a schedule time: two-digit hour, colon, two-digit minute.
pub const SCHEDULE_FORMAT: &'static str = "%H:%M";

/// The text of `SCHEDULE_FORMAT`.
pub open spec fn schedule_format() -> Seq<char> {
    seq!['%', 'H', ':', '%', 'M']
}

/// Hour and minute of the time that `chrono::NaiveTime::parse_from_str` reads from text `s`
/// with format `fmt`, or `None` when it rejects the text.
pub uninterp spec fn chrono_time_parse(s: Seq<char>, fmt: Seq<char>) -> Option<(u32, u32)>;

/// Calls `chrono::NaiveTime::parse_from_str(s, fmt)` and reads back hour and minute; its
/// answer is named `chrono_time_parse`. For the format `%H:%M` on a `DD:DD` text chrono
/// accepts exactly hours 00 to 23 and minutes 00 to 59, and the time it gives has that
/// hour and minute; for other formats and texts nothing more is stated.
#[verifier::external_body]
fn chrono_parse_time(s: &str, fmt: &str) -> (r: Option<(u32, u32)>)
    ensures
        r == chrono_time_parse(s@, fmt@),
        fmt@ == schedule_format() && is_hh_mm_form(s@) ==> match r {
            Some((h, m)) => hh_of(s@) <= 23 && mm_of(s@) <= 59 && h == hh_of(s@) && m == mm_of(
                s@,
            ),
            None => !(hh_of(s@) <= 23 && mm_of(s@) <= 59),
        },
{
    match chrono::NaiveTime::parse_from_str(s, fmt) {
        Ok(t) => Some((t.hour(), t.minute())),
        Err(_) => None,
    }
}

/// Reads a `DD:DD` text as a schedule time through chrono.
pub fn parse_hh_mm(s: &str) -> (r: Option<ScheduleTime>)
    requires
        is_hh_mm_form(s@),
    ensures
        match r {
            Some(t) => t.valid() && hh_of(s@) <= 23 && mm_of(s@) <= 59 && t.hour == hh_of(s@)
                && t.minute == mm_of(s@),
            None => !(hh_of(s@) <= 23 && mm_of(s@) <= 59),
        },
{
    proof {
        reveal_strlit("%H:%M");
    }
    assert(SCHEDULE_FORMAT@ =~= schedule_format());
    match chrono_parse_time(s, SCHEDULE_FORMAT) {
        Some((h, m)) => Some(ScheduleTime { hour: h, minute: m }),
        None => None,
    }
}

pub open spec fn offset_in_range(t: LocalDateTime) -> bool {
    -SECS_PER_DAY < t.offset_secs < SECS_PER_DAY
}

/// Calls `chrono::Local.from_local_datetime` on the local wall-clock reading
/// `local_secs` seconds after 1970-01-01 00:00 and keeps the answer when it is unique.
/// Whether it is unique depends on the machine's time zone and is not stated; when it is,
/// the moment shows exactly that local reading under its offset.
#[verifier::external_body]
fn chrono_resolve_local(local_secs: i64) -> (r: Option<LocalDateTime>)
    ensures
        r matches Some(t) ==> t.utc_secs + t.offset_secs == local_secs && t.nanos == 0
            && offset_in_range(t),
{
    let naive = chrono::DateTime::from_timestamp(local_secs, 0)?.naive_utc();
    chrono::Local.from_local_datetime(&naive).single().map(
        |dt| LocalDateTime {
            utc_secs: dt.timestamp(),
            nanos: dt.timestamp_subsec_nanos(),
            offset_secs: dt.offset().fix().local_minus_utc(),
        },
    )
}

/// Calls `DateTime::checked_add_signed` with `TimeDelta::try_seconds(secs)` on the
/// `DateTime<Local>` for `t` (`None` when either is out of chrono's range): the moment
/// `secs` seconds later, with the offset the machine's time zone has then (which is not
/// stated). chrono succeeds for every moment and distance this far from the epoch.
#[verifier::external_body]
fn chrono_add_seconds(t: LocalDateTime, secs: i64) -> (r: Option<LocalDateTime>)
    requires
        t.nanos < 1_000_000_000,
    ensures
        (-0x400_0000_0000 <= t.utc_secs <= 0x400_0000_0000 && -0x100_0000_0000 <= secs
            <= 0x100_0000_0000) ==> r is Some,
        r matches Some(u) ==> u.utc_secs == t.utc_secs + secs && u.nanos == t.nanos
            && offset_in_range(u),
{
    let dt = chrono::DateTime::from_timestamp(t.utc_secs, t.nanos)?.with_timezone(&chrono::Local);
    let d = dt.checked_add_signed(chrono::TimeDelta::try_seconds(secs)?)?;
    Some(LocalDateTime {
        utc_secs: d.timestamp(),
        nanos: d.timestamp_subsec_nanos(),
        offset_secs: d.offset().fix().local_minus_utc(),
    })
}

/// The moment that shows the local reading `local_secs` in the machine's time zone, if
/// there is exactly one.
pub fn resolve_local(local_secs: i64) -> (r: Option<LocalDateTime>)
    ensures
        r matches Some(t) ==> t.utc_secs + t.offset_secs == local_secs && t.nanos == 0
            && offset_in_range(t),
{
    chrono_resolve_local(local_secs)
}

/// The moment one day (86,400 seconds) after `t`, with the local offset in force then.
pub fn add_one_day(t: LocalDateTime) -> (r: LocalDateTime)
    requires
        -0x400_0000_0000 <= t.utc_secs <= 0x400_0000_0000,
        t.nanos < 1_000_000_000,
    ensures
        r.utc_secs == t.utc_secs + SECS_PER_DAY,
        r.nanos == t.nanos,
        offset_in_range(r),
{
    match chrono_add_seconds(t, SECS_PER_DAY) {
        Some(u) => u,
        None => t,
    }
}

} // verus!
