use mesai::format::{fmt_date_short_in, fmt_dur_human_in, fmt_local_dt_in};
use mesai::lang::Language;
use mesai::clock::{CalendarDate, LocalStamp};
use mesai::format::{
    export_file_name_at, fmt_csv_time, fmt_date_parts, fmt_date_short, fmt_dur_human, fmt_hms,
    fmt_local_dt,
};

#[test]
fn fmt_hms_pads_parts() {
    assert_eq!(fmt_hms(0), "00:00:00");
    assert_eq!(fmt_hms(-5), "00:00:00");
    assert_eq!(fmt_hms(59), "00:00:59");
    assert_eq!(fmt_hms(3661), "01:01:01");
    assert_eq!(fmt_hms(36000 + 600 + 6), "10:10:06");
    assert_eq!(fmt_hms(100 * 3600), "100:00:00");
}

#[test]
fn fmt_dur_human_picks_units() {
    assert_eq!(fmt_dur_human(0), "0 sn");
    assert_eq!(fmt_dur_human(-3), "0 sn");
    assert_eq!(fmt_dur_human(45), "45 sn");
    assert_eq!(fmt_dur_human(5 * 60 + 3), "5 dk 3 sn");
    assert_eq!(fmt_dur_human(2 * 3600 + 5 * 60 + 9), "2 sa 5 dk");
    assert_eq!(fmt_dur_human(3600), "1 sa 0 dk");
}

fn stamp(year: i32, month0: u32, day: u32, hour: u32, minute: u32, second: u32) -> LocalStamp {
    LocalStamp { days: 0, year, month0, day, hour, minute, second }
}

#[test]
fn fmt_local_dt_writes_turkish_date() {
    assert_eq!(fmt_local_dt(&stamp(2026, 6, 11, 14, 30, 0)), "11 Temmuz 2026, 14:30");
    assert_eq!(fmt_local_dt(&stamp(2024, 1, 3, 9, 5, 0)), "3 Şubat 2024, 09:05");
    assert_eq!(fmt_local_dt(&stamp(-44, 11, 31, 0, 0, 0)), "31 Aralık -44, 00:00");
}

#[test]
fn fmt_date_parts_uses_short_names() {
    let c = CalendarDate { year: 2026, month0: 6, day: 11, weekday0: 5 };
    assert_eq!(fmt_date_parts(&c), "Cts 11 Tem");
    let c = CalendarDate { year: 2026, month0: 1, day: 2, weekday0: 2 };
    assert_eq!(fmt_date_parts(&c), "Çar 2 Şu");
    let c = CalendarDate { year: 2026, month0: 7, day: 20, weekday0: 6 };
    assert_eq!(fmt_date_parts(&c), "Paz 20 Ağ");
}

#[test]
fn fmt_date_short_reads_calendar() {
    // 2026-07-11 is day 739808 and a Saturday.
    assert_eq!(fmt_date_short(739808), "Cts 11 Tem");
    // 1970-01-01 is day 719163 and a Thursday.
    assert_eq!(fmt_date_short(719163), "Per 1 Oca");
    // 0001-01-01 is day 1 and a Monday.
    assert_eq!(fmt_date_short(1), "Pzt 1 Oca");
    assert_eq!(fmt_date_short(i32::MAX), "");
}

#[test]
fn export_names_and_csv_times() {
    let s = stamp(2026, 6, 11, 14, 30, 5);
    assert_eq!(export_file_name_at(&s, "csv"), "mesai_20260711_143005.csv");
    assert_eq!(export_file_name_at(&stamp(987, 0, 2, 3, 4, 5), "json"), "mesai_09870102_030405.json");
    assert_eq!(fmt_csv_time(&s), "2026-07-11 14:30");
    assert_eq!(fmt_csv_time(&stamp(12345, 0, 1, 0, 0, 0)), "+12345-01-01 00:00");
    assert_eq!(fmt_csv_time(&stamp(-7, 0, 1, 0, 0, 0)), "-0007-01-01 00:00");
}

#[test]
fn durations_in_each_language() {
    assert_eq!(fmt_dur_human_in(Language::English, 45), "45 s");
    assert_eq!(fmt_dur_human_in(Language::English, 5 * 60 + 3), "5 min 3 s");
    assert_eq!(fmt_dur_human_in(Language::English, 2 * 3600 + 5 * 60 + 9), "2 h 5 min");
    assert_eq!(fmt_dur_human_in(Language::Turkish, 2 * 3600 + 5 * 60 + 9), "2 sa 5 dk");
    assert_eq!(fmt_dur_human_in(Language::Turkish, -4), "0 sn");
}

#[test]
fn dates_in_each_language() {
    let s = LocalStamp { days: 739808, year: 2026, month0: 6, day: 11, hour: 14, minute: 30, second: 5 };
    assert_eq!(fmt_local_dt_in(Language::English, &s), "11 July 2026, 14:30");
    assert_eq!(fmt_local_dt_in(Language::Turkish, &s), "11 Temmuz 2026, 14:30");
    // 2026-07-11 is a Saturday.
    assert_eq!(fmt_date_short_in(Language::English, 739808), "Sat 11 Jul");
    assert_eq!(fmt_date_short_in(Language::Turkish, 739808), "Cts 11 Tem");
}
