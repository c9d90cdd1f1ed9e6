//! When scheduled backups run: instants, the server's local time, and the
//! next run of a schedule.
use vstd::prelude::*;
use chrono::{Datelike, Timelike};

use crate::text::decimal;
use crate::backup_model::{
    spec_parse_time_of_day, ScheduleInputView, WebDatabaseBackupFrequency,
    WebDatabaseBackupScheduleInput, parse_time_of_day,
};

verus! {

broadcast use vstd::string::group_string_axioms;

pub const SECONDS_PER_HOUR: i64 = 3600;

pub const SECONDS_PER_DAY: i64 = 86400;

/// Bound on the seconds of the instants that the library accepts as the
/// current time (about 250000 years either side of 1970).
pub const MAX_INSTANT_SECONDS: i64 = 8_000_000_000_000;

/// The last second that `chrono` represents: +262142-12-31T23:59:59Z, the
/// end of `NaiveDateTime::MAX`.
pub const MAX_REPRESENTABLE_SECONDS: i64 = 8_210_266_876_799;

/// The first second that `chrono` represents: -262143-01-01T00:00:00Z,
/// `NaiveDateTime::MIN`.
pub const MIN_REPRESENTABLE_SECONDS: i64 = -8_334_601_228_800;

/// A point in time: seconds and nanoseconds since 1970-01-01T00:00:00Z.
#[derive(Debug, Clone, Copy, PartialEq, Eq, Structural)]
pub struct BackupInstant {
    pub seconds: i64,
    pub nanos: u32,
}

pub open spec fn is_valid_instant(t: BackupInstant) -> bool {
    -MAX_INSTANT_SECONDS <= t.seconds <= MAX_INSTANT_SECONDS && t.nanos < 1_000_000_000
}

/// An instant that `chrono` represents (`DateTime::<Utc>::MIN_UTC` to
/// `MAX_UTC`), and so can show in the server's time zone.
pub open spec fn is_representable(t: BackupInstant) -> bool {
    MIN_REPRESENTABLE_SECONDS <= t.seconds <= MAX_REPRESENTABLE_SECONDS && t.nanos < 1_000_000_000
}

/// `a` is not later than `b`.
pub open spec fn instant_le(a: BackupInstant, b: BackupInstant) -> bool {
    a.seconds < b.seconds || (a.seconds == b.seconds && a.nanos <= b.nanos)
}

pub fn is_not_later(a: BackupInstant, b: BackupInstant) -> (r: bool)
    ensures
        r == instant_le(a, b),
{
    a.seconds < b.seconds || (a.seconds == b.seconds && a.nanos <= b.nanos)
}

pub open spec fn plus_seconds(t: BackupInstant, s: int) -> BackupInstant {
    BackupInstant { seconds: (t.seconds + s) as i64, nanos: t.nanos }
}

/// The instant at which the server's local clock first reads a time of day
/// on the local date of another instant: the instant, its local weekday (0
/// is Sunday), the zone's offset from UTC at it, and the zone's offset at
/// the instant whose date it shares.
#[derive(Debug, Clone, Copy, PartialEq, Eq, Structural)]
pub struct LocalTimeOfDay {
    pub instant: BackupInstant,
    pub weekday_from_sunday: u32,
    pub utc_offset_seconds: i32,
    pub origin_utc_offset_seconds: i32,
}

/// Seconds from 1970-01-01T00:00:00 to the local time that an instant shows
/// under an offset from UTC.
pub open spec fn local_seconds(t: BackupInstant, utc_offset_seconds: int) -> int {
    t.seconds + utc_offset_seconds
}

/// Whether `c` is the instant at which the local clock reads `hour:minute:00`
/// on the local date of `at`: the offsets are those of a time zone (under a
/// day), the local dates agree, the local time of day is `hour:minute`, and
/// the weekday is that of the local date (1970-01-01 was a Thursday).
pub open spec fn is_local_time_of_day(c: LocalTimeOfDay, at: BackupInstant, hour: int, minute: int) -> bool {
    let local = local_seconds(c.instant, c.utc_offset_seconds as int);
    &&& -SECONDS_PER_DAY < c.utc_offset_seconds < SECONDS_PER_DAY
    &&& -SECONDS_PER_DAY < c.origin_utc_offset_seconds < SECONDS_PER_DAY
    &&& c.instant.nanos == 0
    &&& local % (SECONDS_PER_DAY as int) == hour * SECONDS_PER_HOUR + minute * 60
    &&& local / (SECONDS_PER_DAY as int) == local_seconds(at, c.origin_utc_offset_seconds as int) / (
    SECONDS_PER_DAY as int)
    &&& c.weekday_from_sunday == (local / (SECONDS_PER_DAY as int) + 4) % 7
}

/// Sets the server-local time of day of `at` to `hour:minute:00.000` with
/// `chrono` (`with_second`, `with_nanosecond`, `with_hour`, `with_minute`
/// on `DateTime<Local>`; each keeps the local date and maps back to UTC by
/// the zone's offset), and reads the local weekday of the result and the
/// zone's offset (`FixedOffset::local_minus_utc`, under a day) at the result
/// and at `at`. It is `None` where that local time does not exist or is
/// ambiguous; which offsets apply depends on the server's time zone, so they
/// are returned rather than stated.
#[verifier::external_body]
pub(crate) fn local_time_of_day(at: BackupInstant, hour: u32, minute: u32) -> (r: Option<LocalTimeOfDay>)
    requires
        is_valid_instant(at),
        hour < 24,
        minute < 60,
    ensures
        r matches Some(t) ==> is_local_time_of_day(t, at, hour as int, minute as int),
{
    let local = chrono::DateTime::from_timestamp(at.seconds, at.nanos)?.with_timezone(&chrono::Local);
    let next = local.with_second(0)?.with_nanosecond(0)?.with_hour(hour)?.with_minute(minute)?;
    Some(LocalTimeOfDay {
        instant: BackupInstant { seconds: next.timestamp(), nanos: next.timestamp_subsec_nanos() },
        weekday_from_sunday: next.weekday().num_days_from_sunday(),
        utc_offset_seconds: next.offset().local_minus_utc(),
        origin_utc_offset_seconds: local.offset().local_minus_utc(),
    })
}

/// What an RFC 3339 text written for `at` gives back: where it reads as an
/// instant at all, that instant has the nanoseconds of `at` and lies at most
/// 30 seconds from it (the text carries the zone's offset rounded to whole
/// minutes).
pub open spec fn reads_back_near(text: Seq<char>, at: BackupInstant) -> bool {
    rfc3339_instant(text) matches Some(u) ==> u.nanos == at.nanos && at.seconds - 30 <= u.seconds <= at.seconds + 30
}

/// `DateTime::to_rfc3339` of `at` in the server's local time zone: the local
/// date and time of `at` with its nanoseconds, then the zone's offset, which
/// chrono writes rounded to whole minutes. Read back with
/// `DateTime::parse_from_rfc3339`, the text is then `at` moved by at most the
/// rounding, or nothing where the parser refuses it (a year outside
/// 0000..=9999, or an offset that rounds to 24 hours). Left unsaid: the text
/// itself, which depends on the time zone, and that it reads back as exactly
/// `at` where the zone's offset is a whole number of minutes.
#[verifier::external_body]
pub(crate) fn local_rfc3339(at: BackupInstant) -> (r: String)
    requires
        is_representable(at),
    ensures
        reads_back_near(r@, at),
{
    chrono::DateTime::from_timestamp(at.seconds, at.nanos).unwrap().with_timezone(&chrono::Local).to_rfc3339()
}

/// The proleptic Gregorian date (year, month, day) of the day that lies
/// `days` days after 1970-01-01: days are counted in 400-year eras of
/// 146097 days that begin on a 1 March, as in the usual civil-from-days
/// conversion.
pub open spec fn civil_from_days(days: int) -> (int, int, int) {
    let z = days + 719468;
    let era = z / 146097;
    let doe = z - era * 146097;
    let yoe = (doe - doe / 1460 + doe / 36524 - doe / 146096) / 365;
    let doy = doe - (365 * yoe + yoe / 4 - yoe / 100);
    let mp = (5 * doy + 2) / 153;
    let day = doy - (153 * mp + 2) / 5 + 1;
    let month = if mp < 10 {
        mp + 3
    } else {
        mp - 9
    };
    let year = yoe + era * 400 + if month <= 2 {
        1int
    } else {
        0int
    };
    (year, month, day)
}

/// The digit for `n` in 0..=9.
pub open spec fn digit_of(n: int) -> char {
    seq!['0', '1', '2', '3', '4', '5', '6', '7', '8', '9'][n]
}

/// `n` in 0..=99 as two digits.
pub open spec fn two_digits(n: int) -> Seq<char> {
    seq![digit_of(n / 10), digit_of(n % 10)]
}

/// `n` in 0..=9999 as four digits.
pub open spec fn four_digits(n: int) -> Seq<char> {
    two_digits(n / 100) + two_digits(n % 100)
}

/// A year as `chrono`'s `%Y` writes it: four digits for 0..=9999; beyond,
/// the sign and at least four digits.
pub open spec fn year_text(year: int) -> Seq<char> {
    if 0 <= year <= 9999 {
        four_digits(year)
    } else if year > 9999 {
        seq!['+'] + decimal(year as nat)
    } else if year >= -9999 {
        seq!['-'] + four_digits(-year)
    } else {
        seq!['-'] + decimal((-year) as nat)
    }
}

/// The local date and time that lie `local` seconds after
/// 1970-01-01T00:00:00, written as `%Y%m%d-%H%M%S`.
pub open spec fn compact_stamp(local: int) -> Seq<char> {
    let (year, month, day) = civil_from_days(local / (SECONDS_PER_DAY as int));
    let second_of_day = local % (SECONDS_PER_DAY as int);
    year_text(year) + two_digits(month) + two_digits(day) + seq!['-'] + two_digits(second_of_day / 3600)
        + two_digits(second_of_day % 3600 / 60) + two_digits(second_of_day % 60)
}

/// `stamp` is `at` written as `%Y%m%d-%H%M%S` in the local time of some
/// time zone, whose offset from UTC is under a day.
pub open spec fn is_local_stamp(stamp: Seq<char>, at: BackupInstant) -> bool {
    exists|offset: int|
        -SECONDS_PER_DAY < offset < SECONDS_PER_DAY && #[trigger] compact_stamp(local_seconds(at, offset)) == stamp
}

/// A character of a compact time stamp: a digit, or the sign of a year
/// beyond four digits, or the date separator.
pub open spec fn is_stamp_char(c: char) -> bool {
    ('0' <= c <= '9') || c == '+' || c == '-'
}

/// `at` in the server's local time as `chrono` formats `%Y%m%d-%H%M%S`
/// (`DateTime::format` on `DateTime<Local>`): the local date and time are
/// those of `at` moved by the zone's offset (`FixedOffset`, under a day),
/// the year with four digits (with a sign outside 0..=9999, and at most six
/// digits in chrono's range), then two digits each for month, day, hour,
/// minute and second. The offset depends on the server's time zone, so it
/// is stated to exist, not which it is.
#[verifier::external_body]
pub(crate) fn local_compact_stamp(at: BackupInstant) -> (r: String)
    requires
        is_representable(at),
    ensures
        is_local_stamp(r@, at),
        15 <= r@.len() <= 18,
        forall|k: int| 0 <= k < r@.len() ==> is_stamp_char(#[trigger] r@[k]),
{
    chrono::DateTime::from_timestamp(at.seconds, at.nanos).unwrap().with_timezone(&chrono::Local).format(
        "%Y%m%d-%H%M%S",
    ).to_string()
}

/// The instant that an RFC 3339 text denotes, as `DateTime::parse_from_rfc3339` reads it.
pub uninterp spec fn rfc3339_instant(s: Seq<char>) -> Option<BackupInstant>;

/// `chrono::DateTime::parse_from_rfc3339`, taken as the instant it denotes.
#[verifier::external_body]
pub(crate) fn parse_rfc3339_instant(s: &str) -> (r: Option<BackupInstant>)
    ensures
        r == rfc3339_instant(s@),
{
    match chrono::DateTime::parse_from_rfc3339(s) {
        Ok(t) => Some(BackupInstant { seconds: t.timestamp(), nanos: t.timestamp_subsec_nanos() }),
        Err(_) => None,
    }
}

/// Days from a local weekday to the scheduled weekday; a week when the
/// scheduled time today is already past.
pub open spec fn weekly_days_ahead(weekday: u32, current_weekday: u32, candidate_passed: bool) -> int {
    let d = (weekday + 7 - current_weekday) % 7;
    if d == 0 && candidate_passed {
        7
    } else {
        d
    }
}

/// The next run of a daily or weekly schedule, given the instant at which
/// the scheduled local time falls on the local date of `after`.
pub open spec fn spec_next_run_from_candidate(
    input: ScheduleInputView,
    after: BackupInstant,
    candidate: LocalTimeOfDay,
) -> BackupInstant {
    let passed = instant_le(candidate.instant, after);
    if input.frequency == WebDatabaseBackupFrequency::Daily {
        if passed {
            plus_seconds(candidate.instant, SECONDS_PER_DAY as int)
        } else {
            candidate.instant
        }
    } else {
        plus_seconds(
            candidate.instant,
            weekly_days_ahead(input.weekday, candidate.weekday_from_sunday, passed) * SECONDS_PER_DAY,
        )
    }
}

pub fn next_run_from_candidate(
    input: &WebDatabaseBackupScheduleInput,
    after: BackupInstant,
    candidate: LocalTimeOfDay,
) -> (r: BackupInstant)
    requires
        MIN_REPRESENTABLE_SECONDS <= candidate.instant.seconds <= MAX_REPRESENTABLE_SECONDS,
        candidate.weekday_from_sunday < 7,
    ensures
        r == spec_next_run_from_candidate(input@, after, candidate),
{
    let next = candidate.instant;
    let passed = is_not_later(next, after);
    if input.frequency == WebDatabaseBackupFrequency::Daily {
        if passed {
            return BackupInstant { seconds: next.seconds + SECONDS_PER_DAY, nanos: next.nanos };
        }
        return next;
    }
    let mut days_ahead: u64 = ((input.weekday as u64) + 7 - (candidate.weekday_from_sunday as u64)) % 7;
    if days_ahead == 0 && passed {
        days_ahead = 7;
    }
    BackupInstant { seconds: next.seconds + (days_ahead as i64) * SECONDS_PER_DAY, nanos: next.nanos }
}

/// The run of a daily or weekly schedule that follows `after`: from the
/// instant at which the local clock reads the schedule's `HH:mm` on the
/// local date of `after`, as [`spec_next_run_from_candidate`] says.
pub open spec fn is_local_next_run(input: ScheduleInputView, after: BackupInstant, t: BackupInstant) -> bool {
    exists|c: LocalTimeOfDay|
        #![trigger spec_next_run_from_candidate(input, after, c)]
        spec_parse_time_of_day(input.time_of_day) matches Some((hour, minute)) && is_local_time_of_day(
            c,
            after,
            hour as int,
            minute as int,
        ) && t == spec_next_run_from_candidate(input, after, c)
}

/// How far an instant on the local date of `at` can lie from it: the local
/// times differ by less than a day, the offsets by less than two.
pub proof fn lemma_local_time_of_day_near(c: LocalTimeOfDay, at: BackupInstant, hour: int, minute: int)
    requires
        is_local_time_of_day(c, at, hour, minute),
    ensures
        at.seconds - 3 * SECONDS_PER_DAY < c.instant.seconds < at.seconds + 3 * SECONDS_PER_DAY,
        c.weekday_from_sunday < 7,
{
    let d = SECONDS_PER_DAY as int;
    let a = local_seconds(at, c.origin_utc_offset_seconds as int);
    let l = local_seconds(c.instant, c.utc_offset_seconds as int);
    assert(l - a < d && a - l < d) by (nonlinear_arith)
        requires
            d == 86400,
            l / d == a / d,
    {
        vstd::arithmetic::div_mod::lemma_fundamental_div_mod(l, d);
        vstd::arithmetic::div_mod::lemma_fundamental_div_mod(a, d);
    }
}

/// The next run of a daily or weekly schedule after `after`, given what the
/// server's time zone says of its `HH:mm` on the local date of `after`
/// (`None` where that local time does not exist): the run that
/// [`spec_next_run_from_candidate`] gives whenever `chrono` represents it.
pub fn next_run_at_local_time(
    input: &WebDatabaseBackupScheduleInput,
    after: BackupInstant,
    candidate: Option<LocalTimeOfDay>,
) -> (r: Option<BackupInstant>)
    requires
        is_valid_instant(after),
        candidate matches Some(c) ==> spec_parse_time_of_day(input.time_of_day@) matches Some((hour, minute))
            && is_local_time_of_day(c, after, hour as int, minute as int),
    ensures
        match candidate {
            None => r is None,
            Some(c) => r == (if is_representable(spec_next_run_from_candidate(input@, after, c)) {
                Some(spec_next_run_from_candidate(input@, after, c))
            } else {
                None
            }),
        },
{
    let candidate = match candidate {
        Some(c) => c,
        None => {
            return None;
        },
    };
    proof {
        let (hour, minute) = spec_parse_time_of_day(input.time_of_day@)->0;
        lemma_local_time_of_day_near(candidate, after, hour as int, minute as int);
    }
    let next = next_run_from_candidate(input, after, candidate);
    proof {
        let passed = instant_le(candidate.instant, after);
        let d = weekly_days_ahead(input.weekday, candidate.weekday_from_sunday, passed);
        assert(0 <= d <= 7);
    }
    if next.seconds > MAX_REPRESENTABLE_SECONDS || next.seconds < MIN_REPRESENTABLE_SECONDS {
        return None;
    }
    Some(next)
}

/// The run after `after` that a daily or weekly schedule takes from the
/// instant `candidate` at which the local clock reads its time on the day
/// of `after`: while that instant is still ahead, a daily schedule runs
/// then, and so does a weekly one on its weekday; once it has passed, the
/// run moves a whole day (daily) or a whole week (weekly on its weekday).
/// A weekly run always falls on the scheduled weekday, at most a week on.
pub proof fn law_next_run_keeps_the_time_of_day(
    input: ScheduleInputView,
    after: BackupInstant,
    candidate: LocalTimeOfDay,
)
    requires
        input.frequency != WebDatabaseBackupFrequency::Hourly,
        input.weekday < 7,
        candidate.weekday_from_sunday < 7,
        MIN_REPRESENTABLE_SECONDS <= candidate.instant.seconds <= MAX_REPRESENTABLE_SECONDS,
    ensures
        ({
            let next = spec_next_run_from_candidate(input, after, candidate);
            let ahead = after.seconds < candidate.instant.seconds || (after.seconds == candidate.instant.seconds
                && after.nanos < candidate.instant.nanos);
            &&& next.nanos == candidate.instant.nanos
            &&& input.frequency == WebDatabaseBackupFrequency::Daily ==> if ahead {
                next == candidate.instant
            } else {
                next.seconds == candidate.instant.seconds + 86400
            }
            &&& input.frequency == WebDatabaseBackupFrequency::Weekly ==> {
                &&& 0 <= next.seconds - candidate.instant.seconds <= 7 * 86400
                &&& (next.seconds - candidate.instant.seconds) % 86400 == 0
                &&& (candidate.weekday_from_sunday + (next.seconds - candidate.instant.seconds) / 86400) % 7
                    == input.weekday
                &&& (ahead && candidate.weekday_from_sunday == input.weekday) ==> next == candidate.instant
                &&& (!ahead && candidate.weekday_from_sunday == input.weekday) ==> next.seconds
                    == candidate.instant.seconds + 7 * 86400
            }
        }),
{
    let next = spec_next_run_from_candidate(input, after, candidate);
    let passed = instant_le(candidate.instant, after);
    let d = weekly_days_ahead(input.weekday, candidate.weekday_from_sunday, passed);
    if input.frequency == WebDatabaseBackupFrequency::Weekly {
        assert((candidate.weekday_from_sunday + d) % 7 == input.weekday);
        assert((next.seconds - candidate.instant.seconds) == d * 86400);
        assert((d * 86400) / 86400 == d);
        assert((d * 86400) % 86400 == 0);
    }
}

/// The next run of a schedule after `after`: an hourly schedule runs its
/// interval later; a daily or weekly one at its local time of day, as
/// [`next_run_from_candidate`] says. `None` where the schedule's time is
/// not `HH:mm`, where that local time does not exist on the day of
/// `after`, or where the next run lies past the last instant that `chrono`
/// represents (there adding the interval to a `chrono` date overflows).
pub fn next_web_database_backup_run_at(input: &WebDatabaseBackupScheduleInput, after: BackupInstant) -> (r: Option<
    BackupInstant,
>)
    requires
        is_valid_instant(after),
    ensures
        input.frequency == WebDatabaseBackupFrequency::Hourly ==> r == (if is_representable(
            plus_seconds(after, input.interval_hours * SECONDS_PER_HOUR),
        ) {
            Some(plus_seconds(after, input.interval_hours * SECONDS_PER_HOUR))
        } else {
            None
        }),
        input.frequency != WebDatabaseBackupFrequency::Hourly && spec_parse_time_of_day(input.time_of_day@)
            is None ==> r is None,
        input.frequency != WebDatabaseBackupFrequency::Hourly ==> (r matches Some(t) ==> is_local_next_run(
            input@,
            after,
            t,
        )),
        r matches Some(t) ==> is_representable(t),
{
    if input.frequency == WebDatabaseBackupFrequency::Hourly {
        let seconds: i64 = after.seconds + (input.interval_hours as i64) * SECONDS_PER_HOUR;
        if seconds > MAX_REPRESENTABLE_SECONDS {
            return None;
        }
        return Some(BackupInstant { seconds, nanos: after.nanos });
    }
    let (hour, minute) = match parse_time_of_day(input.time_of_day.as_str()) {
        Some(t) => t,
        None => {
            return None;
        },
    };
    let candidate = local_time_of_day(after, hour, minute);
    next_run_at_local_time(input, after, candidate)
}

} // verus!
