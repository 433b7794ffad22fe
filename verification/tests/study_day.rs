use chrono::DateTime;
use kotoba_core::study_day;

fn at(value: &str) -> i64 {
    DateTime::parse_from_rfc3339(value).unwrap().timestamp()
}

#[test]
fn day_rolls_over_at_four_am_in_the_study_timezone() {
    assert_eq!(
        study_day(at("2026-09-10T03:59:59+09:00"), "Asia/Tokyo", 4).unwrap(),
        "2026-09-09"
    );
    assert_eq!(
        study_day(at("2026-09-10T04:00:00+09:00"), "Asia/Tokyo", 4).unwrap(),
        "2026-09-10"
    );
}

#[test]
fn custom_boundary_uses_local_wall_clock_across_daylight_saving() {
    assert_eq!(
        study_day(at("2026-03-08T04:00:00-04:00"), "America/New_York", 4).unwrap(),
        "2026-03-08"
    );
    assert_eq!(
        study_day(at("2026-09-10T05:59:59+09:00"), "Asia/Tokyo", 6).unwrap(),
        "2026-09-09"
    );
    assert_eq!(
        study_day(at("2026-09-10T06:00:00+09:00"), "Asia/Tokyo", 6).unwrap(),
        "2026-09-10"
    );
    assert!(study_day(0, "invalid", 4).is_err());
    assert!(study_day(0, "UTC", 24).is_err());
}

#[test]
fn study_day_errors_name_the_broken_setting() {
    assert_eq!(
        study_day(0, "UTC", 24).unwrap_err().message(),
        "学習日の開始時刻が不正です。"
    );
    assert_eq!(
        study_day(0, "Nowhere/Invalid", 4).unwrap_err().message(),
        "タイムゾーンが不正です。"
    );
    assert_eq!(study_day(0, "UTC", 0).unwrap(), "1970-01-01");
    assert_eq!(study_day(0, "UTC", 1).unwrap(), "1969-12-31");
    assert_eq!(study_day(86_399, "UTC", 0).unwrap(), "1970-01-01");
    assert_eq!(study_day(86_400, "UTC", 0).unwrap(), "1970-01-02");
}

#[test]
fn moments_as_far_as_chrono_reaches_have_a_study_day() {
    assert_eq!(
        study_day(i64::MAX, "Asia/Tokyo", 4).unwrap_err().message(),
        "日時が不正です。"
    );
    assert_eq!(
        study_day(-8_400_000_000_000, "UTC", 0).unwrap_err().message(),
        "日時が不正です。"
    );
    let day = study_day(8_100_000_000_000, "Asia/Tokyo", 4).unwrap();
    assert!(day.starts_with("+25"), "{day}");
    let last = 8_210_266_876_799; // +262142-12-31T23:59:59Z, the last moment chrono represents
    assert!(study_day(last, "UTC", 0).unwrap().ends_with("-12-31"));
    assert_eq!(
        study_day(last, "Asia/Tokyo", 0).unwrap_err().message(),
        "日時が不正です。"
    );
}
