//! Study days: the local calendar day of a moment in the learner's time zone,
//! where a day begins at a chosen hour rather than at midnight.
use vstd::prelude::*;
use crate::model::{Error, Result, invalid, fails_with};
use chrono::{Datelike, Timelike};

verus! {

/// Whether the time-zone database of `chrono-tz` knows the zone `name`.
pub uninterp spec fn spec_timezone_known(name: Seq<char>) -> bool;

/// The local date (days from the common era, day 1 = 0001-01-01) and hour of
/// the Unix timestamp in the named zone, if `chrono` represents both the moment
/// and its local time.
pub uninterp spec fn spec_local_clock(timestamp: int, name: Seq<char>) -> Option<(int, int)>;

/// The ISO form (`%Y-%m-%d`) of the date with the given days-from-CE number,
/// if `chrono` can represent that date.
pub uninterp spec fn spec_date_text(days: int) -> Option<Seq<char>>;

/// Whether `chrono` reads the text as a date in the form `%Y-%m-%d`.
pub uninterp spec fn spec_date_valid(text: Seq<char>) -> bool;

/// `name.parse::<chrono_tz::Tz>()`: whether the name is a known IANA zone.
#[verifier::external_body]
fn timezone_known(name: &str) -> (known: bool)
    ensures
        known == spec_timezone_known(name@),
{
    name.parse::<chrono_tz::Tz>().is_ok()
}

/// `DateTime::from_timestamp(timestamp, 0)` shown in the zone `name`: its local
/// date as a days-from-CE number and its local hour (always below 24). The
/// local time is `NaiveDateTime::checked_add_offset` of the zone's offset at
/// that moment, so a moment whose local time leaves `chrono`'s range gives none
/// (where `DateTime::date_naive` would panic).
#[verifier::external_body]
fn local_clock(timestamp: i64, name: &str) -> (r: Option<(i32, u32)>)
    requires
        spec_timezone_known(name@),
    ensures
        r matches Some(v) ==> spec_local_clock(timestamp as int, name@) == Some(
            (v.0 as int, v.1 as int),
        ) && v.1 < 24,
        r is None ==> spec_local_clock(timestamp as int, name@) is None,
{
    let tz: chrono_tz::Tz = name.parse().ok()?;
    let utc = chrono::DateTime::from_timestamp(timestamp, 0)?;
    let offset = chrono::Offset::fix(utc.with_timezone(&tz).offset());
    let local = utc.naive_utc().checked_add_offset(offset)?;
    Some((local.date().num_days_from_ce(), local.hour()))
}

/// `NaiveDate::from_num_days_from_ce_opt(days)` formatted with `to_string`.
#[verifier::external_body]
fn date_text(days: i32) -> (r: Option<String>)
    ensures
        r matches Some(t) ==> spec_date_text(days as int) == Some(t@),
        r is None ==> spec_date_text(days as int) is None,
{
    chrono::NaiveDate::from_num_days_from_ce_opt(days).map(|d| d.to_string())
}

/// `NaiveDate::parse_from_str(text, "%Y-%m-%d").is_ok()`.
#[verifier::external_body]
pub(crate) fn date_valid(text: &str) -> (ok: bool)
    ensures
        ok == spec_date_valid(text@),
{
    chrono::NaiveDate::parse_from_str(text, "%Y-%m-%d").is_ok()
}

/// The days-from-CE number of the study day that contains `timestamp`: the
/// local date, or the day before it when the local hour is before `start_hour`.
pub open spec fn study_day_number(timestamp: int, tz: Seq<char>, start_hour: int) -> Option<int> {
    match spec_local_clock(timestamp, tz) {
        Some(v) => Some(if v.1 < start_hour { v.0 - 1 } else { v.0 }),
        None => None,
    }
}

/// The study day that contains `timestamp`, in ISO form.
pub open spec fn study_day_text(timestamp: int, tz: Seq<char>, start_hour: int) -> Option<Seq<char>> {
    match study_day_number(timestamp, tz, start_hour) {
        Some(n) => if i32::MIN <= n <= i32::MAX {
            spec_date_text(n)
        } else {
            None
        },
        None => None,
    }
}

/// The settings under which study days can be computed at all.
pub open spec fn day_settings_valid(tz: Seq<char>, start_hour: int) -> bool {
    start_hour <= 23 && spec_timezone_known(tz)
}

/// What `study_day` returns: its errors, in the order it checks them, and the
/// day text otherwise.
pub open spec fn study_day_ok(timestamp: int, tz: Seq<char>, start_hour: int, r: Result<String>) -> bool {
    if start_hour > 23 {
        fails_with(r, "学習日の開始時刻が不正です。"@)
    } else if !spec_timezone_known(tz) {
        fails_with(r, "タイムゾーンが不正です。"@)
    } else {
        match study_day_text(timestamp, tz, start_hour) {
            Some(t) => r matches Ok(s) && s@ == t,
            None => fails_with(r, "日時が不正です。"@),
        }
    }
}

/// The study day number of `timestamp`, with the same errors as `study_day`.
pub fn study_day_index(timestamp: i64, timezone: &str, start_hour: u32) -> (r: Result<i32>)
    ensures
        start_hour > 23 ==> fails_with(r, "学習日の開始時刻が不正です。"@),
        start_hour <= 23 && !spec_timezone_known(timezone@) ==> fails_with(
            r,
            "タイムゾーンが不正です。"@,
        ),
        day_settings_valid(timezone@, start_hour as int) ==> match study_day_number(
            timestamp as int,
            timezone@,
            start_hour as int,
        ) {
            Some(n) => if i32::MIN <= n <= i32::MAX {
                r == Ok::<i32, Error>(n as i32)
            } else {
                fails_with(r, "日時が不正です。"@)
            },
            None => fails_with(r, "日時が不正です。"@),
        },
{
    if start_hour > 23 {
        return Err(invalid("学習日の開始時刻が不正です。"));
    }
    if !timezone_known(timezone) {
        return Err(invalid("タイムゾーンが不正です。"));
    }
    match local_clock(timestamp, timezone) {
        None => Err(invalid("日時が不正です。")),
        Some((day, hour)) => {
            if hour < start_hour {
                match day.checked_sub(1) {
                    Some(d) => Ok(d),
                    None => Err(invalid("日時が不正です。")),
                }
            } else {
                Ok(day)
            }
        },
    }
}

/// The study day (`YYYY-MM-DD`) that contains the Unix timestamp in the time
/// zone, a day beginning at `start_hour` local time.
pub fn study_day(timestamp: i64, timezone: &str, start_hour: u32) -> (r: Result<String>)
    ensures
        study_day_ok(timestamp as int, timezone@, start_hour as int, r),
{
    let day = study_day_index(timestamp, timezone, start_hour)?;
    match date_text(day) {
        Some(t) => Ok(t),
        None => Err(invalid("日時が不正です。")),
    }
}

} // verus!
