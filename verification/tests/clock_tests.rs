use chrono::Datelike;
use mesai::clock::{day_before, days_earlier, UtcTime, DATE_MAX_DAYS, DATE_MIN_DAYS, UNIX_EPOCH_DAY};
use mesai::format::{fmt_date_short, fmt_dt};

#[test]
fn calendar_range_matches_chrono() {
    assert_eq!(chrono::NaiveDate::MIN.num_days_from_ce(), DATE_MIN_DAYS);
    assert_eq!(chrono::NaiveDate::MAX.num_days_from_ce(), DATE_MAX_DAYS);
    assert_ne!(fmt_date_short(DATE_MIN_DAYS), "");
    assert_ne!(fmt_date_short(DATE_MAX_DAYS), "");
    assert_eq!(fmt_date_short(DATE_MIN_DAYS - 1), "");
    assert_eq!(fmt_date_short(DATE_MAX_DAYS + 1), "");
    assert_eq!(fmt_date_short(UNIX_EPOCH_DAY as i32), "Per 1 Oca");
    let epoch = chrono::NaiveDate::from_ymd_opt(1970, 1, 1).unwrap();
    assert_eq!(epoch.num_days_from_ce() as i64, UNIX_EPOCH_DAY);
}

#[test]
fn day_arithmetic() {
    assert_eq!(day_before(739808), Some(739807));
    assert_eq!(day_before(DATE_MIN_DAYS), None);
    assert_eq!(day_before(DATE_MIN_DAYS + 1), Some(DATE_MIN_DAYS));
    assert_eq!(days_earlier(739808, 13), Some(739795));
    assert_eq!(days_earlier(DATE_MIN_DAYS + 3, 4), None);
    assert_eq!(days_earlier(739808, 0), Some(739808));
}

#[test]
fn local_dates_of_instants() {
    let t = UtcTime { secs: 1_783_780_200, nanos: 0 };
    let s = fmt_dt(&t);
    assert!(s.contains("2026"));
    assert!(s.contains("Temmuz"));
    assert_eq!(fmt_dt(&UtcTime { secs: i64::MAX, nanos: 0 }), "");
    assert_eq!(fmt_dt(&UtcTime { secs: 0, nanos: 1_500_000_000 }), "");
    assert_ne!(fmt_dt(&UtcTime { secs: 59, nanos: 1_500_000_000 }), "");
    assert_ne!(fmt_dt(&UtcTime { secs: 0, nanos: 999_999_999 }), "");
}

#[test]
fn utc_ordering() {
    let a = UtcTime { secs: 5, nanos: 10 };
    let b = UtcTime { secs: 5, nanos: 20 };
    let c = UtcTime { secs: 6, nanos: 0 };
    assert!(a.is_le(&b) && b.is_le(&c) && a.is_le(&a));
    assert!(!c.is_le(&a));
}
