//! How durations, dates and times are written in the interface and in file
//! names.

use vstd::prelude::*;
use vstd::string::*;
use crate::text::{push_char, push_decimal, push_pad2, push_signed, decimal, pad2, signed_decimal};
use crate::lang::{Language, Msg, text, say};
use crate::clock::{stamp_read, local_now_read, lemma_stamp_read, lemma_local_now_read, UtcTime, LocalStamp, CalendarDate, stamp_in_range, reads, timestamp_valid, local_stamp, local_now, calendar_date, civil_date, day_in_range, weekday_of};

verus! {

/// A duration counted in seconds, never below zero.
pub open spec fn clamp0(total: int) -> nat {
    if total > 0 {
        total as nat
    } else {
        0
    }
}

/// "HH:MM:SS", each part at least two digits; the hours are not capped.
pub open spec fn hms_spec(total: int) -> Seq<char> {
    let t = clamp0(total);
    pad2(t / 3600) + seq![':'] + pad2((t % 3600) / 60) + seq![':'] + pad2(t % 60)
}

/// A readable duration: "2 sa 5 dk" with hours, "5 dk 3 sn" under an hour,
/// "3 sn" under a minute.
pub open spec fn dur_human_spec(total: int) -> Seq<char> {
    let t = clamp0(total);
    let h = t / 3600;
    let m = (t % 3600) / 60;
    let s = t % 60;
    if h > 0 {
        decimal(h) + " sa "@ + decimal(m) + " dk"@
    } else if m > 0 {
        decimal(m) + " dk "@ + decimal(s) + " sn"@
    } else {
        decimal(s) + " sn"@
    }
}

/// A clock-style duration; negative durations count as zero.
pub fn fmt_hms(total: i64) -> (r: String)
    ensures
        r@ == hms_spec(total as int),
{
    let t: u64 = if total > 0 {
        total as u64
    } else {
        0
    };
    let mut r = String::new();
    push_pad2(&mut r, t / 3600);
    push_char(&mut r, ':');
    push_pad2(&mut r, (t % 3600) / 60);
    push_char(&mut r, ':');
    push_pad2(&mut r, t % 60);
    proof {
        assert(r@ =~= hms_spec(total as int));
    }
    r
}

/// A readable duration; negative durations count as zero.
pub fn fmt_dur_human(total: i64) -> (r: String)
    ensures
        r@ == dur_human_spec(total as int),
{
    let t: u64 = if total > 0 {
        total as u64
    } else {
        0
    };
    let h = t / 3600;
    let m = (t % 3600) / 60;
    let s = t % 60;
    let mut r = String::new();
    if h > 0 {
        push_decimal(&mut r, h);
        r.append(" sa ");
        push_decimal(&mut r, m);
        r.append(" dk");
    } else if m > 0 {
        push_decimal(&mut r, m);
        r.append(" dk ");
        push_decimal(&mut r, s);
        r.append(" sn");
    } else {
        push_decimal(&mut r, s);
        r.append(" sn");
    }
    proof {
        assert(r@ =~= dur_human_spec(total as int));
    }
    r
}

/// A readable duration in the language of the interface: "2 h 5 min" with
/// hours, "5 min 3 s" under an hour, "3 s" under a minute ("2 sa 5 dk",
/// "5 dk 3 sn", "3 sn" in Turkish).
pub open spec fn dur_human_in_spec(lang: Language, total: int) -> Seq<char> {
    let t = clamp0(total);
    let h = t / 3600;
    let m = (t % 3600) / 60;
    let s = t % 60;
    if h > 0 {
        decimal(h) + " "@ + text(lang, Msg::HourUnit) + " "@ + decimal(m) + " "@ + text(
            lang,
            Msg::MinuteUnit,
        )
    } else if m > 0 {
        decimal(m) + " "@ + text(lang, Msg::MinuteUnit) + " "@ + decimal(s) + " "@ + text(
            lang,
            Msg::SecondUnit,
        )
    } else {
        decimal(s) + " "@ + text(lang, Msg::SecondUnit)
    }
}

/// A readable duration in the language of the interface; negative
/// durations count as zero.
pub fn fmt_dur_human_in(lang: Language, total: i64) -> (r: String)
    ensures
        r@ == dur_human_in_spec(lang, total as int),
{
    let t: u64 = if total > 0 {
        total as u64
    } else {
        0
    };
    let h = t / 3600;
    let m = (t % 3600) / 60;
    let s = t % 60;
    let mut r = String::new();
    if h > 0 {
        push_decimal(&mut r, h);
        r.append(" ");
        r.append(say(lang, Msg::HourUnit));
        r.append(" ");
        push_decimal(&mut r, m);
        r.append(" ");
        r.append(say(lang, Msg::MinuteUnit));
    } else if m > 0 {
        push_decimal(&mut r, m);
        r.append(" ");
        r.append(say(lang, Msg::MinuteUnit));
        r.append(" ");
        push_decimal(&mut r, s);
        r.append(" ");
        r.append(say(lang, Msg::SecondUnit));
    } else {
        push_decimal(&mut r, s);
        r.append(" ");
        r.append(say(lang, Msg::SecondUnit));
    }
    proof {
        assert(r@ =~= dur_human_in_spec(lang, total as int));
    }
    r
}

/// The name of a month, 0 for January.
pub open spec fn month_name(m: int) -> Seq<char> {
    if m == 0 {
        "Ocak"@
    } else if m == 1 {
        "Şubat"@
    } else if m == 2 {
        "Mart"@
    } else if m == 3 {
        "Nisan"@
    } else if m == 4 {
        "Mayıs"@
    } else if m == 5 {
        "Haziran"@
    } else if m == 6 {
        "Temmuz"@
    } else if m == 7 {
        "Ağustos"@
    } else if m == 8 {
        "Eylül"@
    } else if m == 9 {
        "Ekim"@
    } else if m == 10 {
        "Kasım"@
    } else {
        "Aralık"@
    }
}

/// The short name of a month: the first three bytes of its name in UTF-8.
pub open spec fn month_short(m: int) -> Seq<char> {
    if m == 0 {
        "Oca"@
    } else if m == 1 {
        "Şu"@
    } else if m == 2 {
        "Mar"@
    } else if m == 3 {
        "Nis"@
    } else if m == 4 {
        "May"@
    } else if m == 5 {
        "Haz"@
    } else if m == 6 {
        "Tem"@
    } else if m == 7 {
        "Ağ"@
    } else if m == 8 {
        "Eyl"@
    } else if m == 9 {
        "Eki"@
    } else if m == 10 {
        "Kas"@
    } else {
        "Ara"@
    }
}

/// The short name of a weekday, 0 for Monday.
pub open spec fn weekday_short(w: int) -> Seq<char> {
    if w == 0 {
        "Pzt"@
    } else if w == 1 {
        "Sal"@
    } else if w == 2 {
        "Çar"@
    } else if w == 3 {
        "Per"@
    } else if w == 4 {
        "Cum"@
    } else if w == 5 {
        "Cts"@
    } else {
        "Paz"@
    }
}

fn month_str(m: u32) -> (r: &'static str)
    ensures
        r@ == month_name(m as int),
{
    if m == 0 {
        "Ocak"
    } else if m == 1 {
        "Şubat"
    } else if m == 2 {
        "Mart"
    } else if m == 3 {
        "Nisan"
    } else if m == 4 {
        "Mayıs"
    } else if m == 5 {
        "Haziran"
    } else if m == 6 {
        "Temmuz"
    } else if m == 7 {
        "Ağustos"
    } else if m == 8 {
        "Eylül"
    } else if m == 9 {
        "Ekim"
    } else if m == 10 {
        "Kasım"
    } else {
        "Aralık"
    }
}

fn month_short_str(m: u32) -> (r: &'static str)
    ensures
        r@ == month_short(m as int),
{
    if m == 0 {
        "Oca"
    } else if m == 1 {
        "Şu"
    } else if m == 2 {
        "Mar"
    } else if m == 3 {
        "Nis"
    } else if m == 4 {
        "May"
    } else if m == 5 {
        "Haz"
    } else if m == 6 {
        "Tem"
    } else if m == 7 {
        "Ağ"
    } else if m == 8 {
        "Eyl"
    } else if m == 9 {
        "Eki"
    } else if m == 10 {
        "Kas"
    } else {
        "Ara"
    }
}

fn weekday_str(w: u32) -> (r: &'static str)
    ensures
        r@ == weekday_short(w as int),
{
    if w == 0 {
        "Pzt"
    } else if w == 1 {
        "Sal"
    } else if w == 2 {
        "Çar"
    } else if w == 3 {
        "Per"
    } else if w == 4 {
        "Cum"
    } else if w == 5 {
        "Cts"
    } else {
        "Paz"
    }
}

/// "11 Temmuz 2026, 14:30": day, month name, year, then hours and minutes
/// with two digits.
pub open spec fn local_dt_spec(s: LocalStamp) -> Seq<char> {
    decimal(s.day as nat) + " "@ + month_name(s.month0 as int) + " "@ + signed_decimal(
        s.year as int,
    ) + ", "@ + pad2(s.hour as nat) + ":"@ + pad2(s.minute as nat)
}

/// Writes a local reading as "11 Temmuz 2026, 14:30".
pub fn fmt_local_dt(s: &LocalStamp) -> (r: String)
    ensures
        r@ == local_dt_spec(*s),
{
    let mut r = String::new();
    push_decimal(&mut r, s.day as u64);
    r.append(" ");
    r.append(month_str(s.month0));
    r.append(" ");
    push_signed(&mut r, s.year as i64);
    r.append(", ");
    push_pad2(&mut r, s.hour as u64);
    r.append(":");
    push_pad2(&mut r, s.minute as u64);
    proof {
        assert(r@ =~= local_dt_spec(*s));
    }
    r
}

/// An instant written in local time, "11 Temmuz 2026, 14:30": a reading of
/// `t` in the machine's time zone; an instant that `chrono` does not accept
/// gives the empty string.
pub fn fmt_dt(t: &UtcTime) -> (r: String)
    ensures
        timestamp_valid(*t) ==> exists|s: LocalStamp|
            #[trigger] stamp_read(*t, Some(s)) && reads(*t, s) && r@ == local_dt_spec(s),
        !timestamp_valid(*t) ==> r@ == Seq::<char>::empty(),
{
    let o = local_stamp(*t);
    proof {
        lemma_stamp_read(*t, o);
    }
    match o {
        Some(s) => fmt_local_dt(&s),
        None => String::new(),
    }
}

/// "Cts 11 Tem": weekday, day of the month and short month name.
pub open spec fn date_short_spec(weekday0: int, day: int, month0: int) -> Seq<char> {
    weekday_short(weekday0) + " "@ + decimal(day as nat) + " "@ + month_short(month0)
}

/// Writes a date given by its parts as "Cts 11 Tem".
pub fn fmt_date_parts(c: &CalendarDate) -> (r: String)
    ensures
        r@ == date_short_spec(c.weekday0 as int, c.day as int, c.month0 as int),
{
    let mut r = String::new();
    r.append(weekday_str(c.weekday0));
    r.append(" ");
    push_decimal(&mut r, c.day as u64);
    r.append(" ");
    r.append(month_short_str(c.month0));
    proof {
        assert(r@ =~= date_short_spec(c.weekday0 as int, c.day as int, c.month0 as int));
    }
    r
}

/// A short label for a day number, such as "Cts 11 Tem"; a day number out of
/// `chrono`'s range gives the empty string.
pub fn fmt_date_short(days: i32) -> (r: String)
    ensures
        day_in_range(days as int) ==> r@ == date_short_spec(
            weekday_of(days as int),
            civil_date(days as int).2,
            civil_date(days as int).1,
        ),
        !day_in_range(days as int) ==> r@ == Seq::<char>::empty(),
{
    match calendar_date(days) {
        Some(c) => fmt_date_parts(&c),
        None => String::new(),
    }
}

/// The English name of a month, 0 for January.
pub open spec fn month_name_en(m: int) -> Seq<char> {
    if m == 0 {
        "January"@
    } else if m == 1 {
        "February"@
    } else if m == 2 {
        "March"@
    } else if m == 3 {
        "April"@
    } else if m == 4 {
        "May"@
    } else if m == 5 {
        "June"@
    } else if m == 6 {
        "July"@
    } else if m == 7 {
        "August"@
    } else if m == 8 {
        "September"@
    } else if m == 9 {
        "October"@
    } else if m == 10 {
        "November"@
    } else {
        "December"@
    }
}

/// The short English name of a month.
pub open spec fn month_short_en(m: int) -> Seq<char> {
    if m == 0 {
        "Jan"@
    } else if m == 1 {
        "Feb"@
    } else if m == 2 {
        "Mar"@
    } else if m == 3 {
        "Apr"@
    } else if m == 4 {
        "May"@
    } else if m == 5 {
        "Jun"@
    } else if m == 6 {
        "Jul"@
    } else if m == 7 {
        "Aug"@
    } else if m == 8 {
        "Sep"@
    } else if m == 9 {
        "Oct"@
    } else if m == 10 {
        "Nov"@
    } else {
        "Dec"@
    }
}

/// The short English name of a weekday, 0 for Monday.
pub open spec fn weekday_short_en(w: int) -> Seq<char> {
    if w == 0 {
        "Mon"@
    } else if w == 1 {
        "Tue"@
    } else if w == 2 {
        "Wed"@
    } else if w == 3 {
        "Thu"@
    } else if w == 4 {
        "Fri"@
    } else if w == 5 {
        "Sat"@
    } else {
        "Sun"@
    }
}

fn month_str_en(m: u32) -> (r: &'static str)
    ensures
        r@ == month_name_en(m as int),
{
    if m == 0 {
        "January"
    } else if m == 1 {
        "February"
    } else if m == 2 {
        "March"
    } else if m == 3 {
        "April"
    } else if m == 4 {
        "May"
    } else if m == 5 {
        "June"
    } else if m == 6 {
        "July"
    } else if m == 7 {
        "August"
    } else if m == 8 {
        "September"
    } else if m == 9 {
        "October"
    } else if m == 10 {
        "November"
    } else {
        "December"
    }
}

fn month_short_str_en(m: u32) -> (r: &'static str)
    ensures
        r@ == month_short_en(m as int),
{
    if m == 0 {
        "Jan"
    } else if m == 1 {
        "Feb"
    } else if m == 2 {
        "Mar"
    } else if m == 3 {
        "Apr"
    } else if m == 4 {
        "May"
    } else if m == 5 {
        "Jun"
    } else if m == 6 {
        "Jul"
    } else if m == 7 {
        "Aug"
    } else if m == 8 {
        "Sep"
    } else if m == 9 {
        "Oct"
    } else if m == 10 {
        "Nov"
    } else {
        "Dec"
    }
}

fn weekday_str_en(w: u32) -> (r: &'static str)
    ensures
        r@ == weekday_short_en(w as int),
{
    if w == 0 {
        "Mon"
    } else if w == 1 {
        "Tue"
    } else if w == 2 {
        "Wed"
    } else if w == 3 {
        "Thu"
    } else if w == 4 {
        "Fri"
    } else if w == 5 {
        "Sat"
    } else {
        "Sun"
    }
}

/// A local reading in the language of the interface: "11 July 2026, 14:30"
/// in English, "11 Temmuz 2026, 14:30" in Turkish.
pub open spec fn local_dt_in_spec(lang: Language, s: LocalStamp) -> Seq<char> {
    match lang {
        Language::English => decimal(s.day as nat) + " "@ + month_name_en(s.month0 as int) + " "@
            + signed_decimal(s.year as int) + ", "@ + pad2(s.hour as nat) + ":"@ + pad2(
            s.minute as nat,
        ),
        Language::Turkish => local_dt_spec(s),
    }
}

/// Writes a local reading in the language of the interface.
pub fn fmt_local_dt_in(lang: Language, s: &LocalStamp) -> (r: String)
    ensures
        r@ == local_dt_in_spec(lang, *s),
{
    match lang {
        Language::Turkish => fmt_local_dt(s),
        Language::English => {
            let mut r = String::new();
            push_decimal(&mut r, s.day as u64);
            r.append(" ");
            r.append(month_str_en(s.month0));
            r.append(" ");
            push_signed(&mut r, s.year as i64);
            r.append(", ");
            push_pad2(&mut r, s.hour as u64);
            r.append(":");
            push_pad2(&mut r, s.minute as u64);
            proof {
                assert(r@ =~= local_dt_in_spec(lang, *s));
            }
            r
        },
    }
}

/// An instant written in local time in the language of the interface: a
/// reading of `t` in the machine's time zone; an instant that `chrono` does
/// not accept gives the empty string.
pub fn fmt_dt_in(lang: Language, t: &UtcTime) -> (r: String)
    ensures
        timestamp_valid(*t) ==> exists|s: LocalStamp|
            #[trigger] stamp_read(*t, Some(s)) && reads(*t, s) && r@ == local_dt_in_spec(lang, s),
        !timestamp_valid(*t) ==> r@ == Seq::<char>::empty(),
{
    let o = local_stamp(*t);
    proof {
        lemma_stamp_read(*t, o);
    }
    match o {
        Some(s) => fmt_local_dt_in(lang, &s),
        None => String::new(),
    }
}

/// A short day label in the language of the interface: "Sat 11 Jul" in
/// English, "Cts 11 Tem" in Turkish.
pub open spec fn date_short_in_spec(lang: Language, weekday0: int, day: int, month0: int) -> Seq<char> {
    match lang {
        Language::English => weekday_short_en(weekday0) + " "@ + decimal(day as nat) + " "@
            + month_short_en(month0),
        Language::Turkish => date_short_spec(weekday0, day, month0),
    }
}

/// A short label for a day number in the language of the interface; a day
/// number out of `chrono`'s range gives the empty string.
pub fn fmt_date_short_in(lang: Language, days: i32) -> (r: String)
    ensures
        day_in_range(days as int) ==> r@ == date_short_in_spec(
            lang,
            weekday_of(days as int),
            civil_date(days as int).2,
            civil_date(days as int).1,
        ),
        !day_in_range(days as int) ==> r@ == Seq::<char>::empty(),
{
    match calendar_date(days) {
        Some(c) => match lang {
            Language::Turkish => fmt_date_parts(&c),
            Language::English => {
                let mut r = String::new();
                r.append(weekday_str_en(c.weekday0));
                r.append(" ");
                push_decimal(&mut r, c.day as u64);
                r.append(" ");
                r.append(month_short_str_en(c.month0));
                proof {
                    assert(r@ =~= date_short_in_spec(
                        lang,
                        c.weekday0 as int,
                        c.day as int,
                        c.month0 as int,
                    ));
                }
                r
            },
        },
        None => String::new(),
    }
}

/// `n` with at least four digits.
pub open spec fn pad4(n: nat) -> Seq<char> {
    if n < 10 {
        "000"@ + decimal(n)
    } else if n < 100 {
        "00"@ + decimal(n)
    } else if n < 1000 {
        "0"@ + decimal(n)
    } else {
        decimal(n)
    }
}

/// A year as `%Y` writes it: four digits from 0 to 9999, otherwise with a
/// sign and at least four digits.
pub open spec fn year_spec(y: int) -> Seq<char> {
    if 0 <= y < 10000 {
        pad4(y as nat)
    } else if y < 0 {
        "-"@ + pad4((-y) as nat)
    } else {
        "+"@ + pad4(y as nat)
    }
}

fn push_pad4(out: &mut String, n: u64)
    ensures
        final(out)@ == old(out)@ + pad4(n as nat),
{
    let ghost start = out@;
    if n < 10 {
        out.append("000");
    } else if n < 100 {
        out.append("00");
    } else if n < 1000 {
        out.append("0");
    }
    push_decimal(out, n);
    proof {
        assert(out@ =~= start + pad4(n as nat));
    }
}

fn push_year(out: &mut String, y: i32)
    ensures
        final(out)@ == old(out)@ + year_spec(y as int),
{
    let ghost start = out@;
    if 0 <= y && y < 10000 {
        push_pad4(out, y as u64);
    } else if y < 0 {
        out.append("-");
        push_pad4(out, (-(y as i64)) as u64);
    } else {
        out.append("+");
        push_pad4(out, y as u64);
    }
    proof {
        assert(out@ =~= start + year_spec(y as int));
    }
}

/// "%Y-%m-%d %H:%M": the local date and time as the CSV export writes them.
pub open spec fn csv_time_spec(s: LocalStamp) -> Seq<char> {
    year_spec(s.year as int) + "-"@ + pad2((s.month0 + 1) as nat) + "-"@ + pad2(s.day as nat)
        + " "@ + pad2(s.hour as nat) + ":"@ + pad2(s.minute as nat)
}

/// Writes a local reading as "2026-07-11 14:30".
pub fn fmt_csv_time(s: &LocalStamp) -> (r: String)
    requires
        stamp_in_range(*s),
    ensures
        r@ == csv_time_spec(*s),
{
    let mut r = String::new();
    push_year(&mut r, s.year);
    r.append("-");
    push_pad2(&mut r, (s.month0 + 1) as u64);
    r.append("-");
    push_pad2(&mut r, s.day as u64);
    r.append(" ");
    push_pad2(&mut r, s.hour as u64);
    r.append(":");
    push_pad2(&mut r, s.minute as u64);
    proof {
        assert(r@ =~= csv_time_spec(*s));
    }
    r
}

/// "mesai_20260711_143005.csv": the name of an export file made at a local
/// time (`%Y%m%d_%H%M%S`), with the given extension.
pub open spec fn export_name_spec(s: LocalStamp, ext: Seq<char>) -> Seq<char> {
    "mesai_"@ + year_spec(s.year as int) + pad2((s.month0 + 1) as nat) + pad2(s.day as nat)
        + "_"@ + pad2(s.hour as nat) + pad2(s.minute as nat) + pad2(s.second as nat) + "."@
        + ext
}

/// The name of an export file made at the local time `s`.
pub fn export_file_name_at(s: &LocalStamp, ext: &str) -> (r: String)
    requires
        stamp_in_range(*s),
    ensures
        r@ == export_name_spec(*s, ext@),
{
    let mut r = String::new();
    r.append("mesai_");
    push_year(&mut r, s.year);
    push_pad2(&mut r, (s.month0 + 1) as u64);
    push_pad2(&mut r, s.day as u64);
    r.append("_");
    push_pad2(&mut r, s.hour as u64);
    push_pad2(&mut r, s.minute as u64);
    push_pad2(&mut r, s.second as u64);
    r.append(".");
    r.append(ext);
    proof {
        assert(r@ =~= export_name_spec(*s, ext@));
    }
    r
}

/// The name of an export file made now.
pub fn export_file_name(ext: &str) -> (r: String)
    ensures
        exists|s: LocalStamp|
            #[trigger] local_now_read(s) && stamp_in_range(s) && (s.year as int, s.month0 as int, s.day as int) == civil_date(
                s.days as int,
            ) && r@ == export_name_spec(s, ext@),
{
    let s = local_now();
    proof {
        lemma_local_now_read(s);
    }
    export_file_name_at(&s, ext)
}

/// The month names are the twelve Turkish and English names in calendar
/// order, one for each month index from 0 (January) to 11 (December), and
/// the short name of a month begins its name.
pub proof fn month_names_in_calendar_order(m: int)
    requires
        0 <= m < 12,
    ensures
        month_name(m) == seq!["Ocak"@, "Şubat"@, "Mart"@, "Nisan"@, "Mayıs"@, "Haziran"@, "Temmuz"@, "Ağustos"@, "Eylül"@, "Ekim"@, "Kasım"@, "Aralık"@][m],
        month_name_en(m) == seq!["January"@, "February"@, "March"@, "April"@, "May"@, "June"@, "July"@, "August"@, "September"@, "October"@, "November"@, "December"@][m],
        month_short(m).len() > 0 && month_short(m).is_prefix_of(month_name(m)),
        month_short_en(m).len() == 3 && month_short_en(m).is_prefix_of(month_name_en(m)),
{
    reveal_strlit("Ocak");
    reveal_strlit("Şubat");
    reveal_strlit("Mart");
    reveal_strlit("Nisan");
    reveal_strlit("Mayıs");
    reveal_strlit("Haziran");
    reveal_strlit("Temmuz");
    reveal_strlit("Ağustos");
    reveal_strlit("Eylül");
    reveal_strlit("Ekim");
    reveal_strlit("Kasım");
    reveal_strlit("Aralık");
    reveal_strlit("Oca");
    reveal_strlit("Şu");
    reveal_strlit("Mar");
    reveal_strlit("Nis");
    reveal_strlit("May");
    reveal_strlit("Haz");
    reveal_strlit("Tem");
    reveal_strlit("Ağ");
    reveal_strlit("Eyl");
    reveal_strlit("Eki");
    reveal_strlit("Kas");
    reveal_strlit("Ara");
    reveal_strlit("January");
    reveal_strlit("February");
    reveal_strlit("March");
    reveal_strlit("April");
    reveal_strlit("May");
    reveal_strlit("June");
    reveal_strlit("July");
    reveal_strlit("August");
    reveal_strlit("September");
    reveal_strlit("October");
    reveal_strlit("November");
    reveal_strlit("December");
    reveal_strlit("Apr");
    reveal_strlit("Aug");
    reveal_strlit("Dec");
    reveal_strlit("Feb");
    reveal_strlit("Jan");
    reveal_strlit("Jul");
    reveal_strlit("Jun");
    reveal_strlit("Nov");
    reveal_strlit("Oct");
    reveal_strlit("Sep");
    if m == 0 {
    }
}

/// The weekday names are the seven Turkish and English short names in
/// order, from Monday (0) to Sunday (6).
pub proof fn weekday_names_from_monday(w: int)
    requires
        0 <= w < 7,
    ensures
        weekday_short(w) == seq!["Pzt"@, "Sal"@, "Çar"@, "Per"@, "Cum"@, "Cts"@, "Paz"@][w],
        weekday_short_en(w) == seq!["Mon"@, "Tue"@, "Wed"@, "Thu"@, "Fri"@, "Sat"@, "Sun"@][w],
{
}

/// A duration is shown split into whole hours, minutes below 60 and
/// seconds below 60 that add up to it (negative durations count as zero):
/// all three as "HH:MM:SS", and in words the two largest units that matter,
/// hours and minutes when there are hours, minutes and seconds when there
/// are minutes, else seconds.
pub proof fn durations_split_into_units(total: int)
    ensures
        exists|h: nat, m: nat, s: nat|
            {
                &&& m < 60 && s < 60
                &&& #[trigger] (h * 3600 + m * 60 + s) == (if total > 0 { total } else { 0 })
                &&& hms_spec(total) == pad2(h) + ":"@ + pad2(m) + ":"@ + pad2(s)
                &&& dur_human_spec(total) == if h > 0 {
                    decimal(h) + " sa "@ + decimal(m) + " dk"@
                } else if m > 0 {
                    decimal(m) + " dk "@ + decimal(s) + " sn"@
                } else {
                    decimal(s) + " sn"@
                }
                &&& forall|lang: Language|
                    #[trigger] dur_human_in_spec(lang, total) == if h > 0 {
                        decimal(h) + " "@ + text(lang, Msg::HourUnit) + " "@ + decimal(m) + " "@
                            + text(lang, Msg::MinuteUnit)
                    } else if m > 0 {
                        decimal(m) + " "@ + text(lang, Msg::MinuteUnit) + " "@ + decimal(s) + " "@
                            + text(lang, Msg::SecondUnit)
                    } else {
                        decimal(s) + " "@ + text(lang, Msg::SecondUnit)
                    }
            },
{
    let t = clamp0(total);
    let h = t / 3600;
    let m = (t % 3600) / 60;
    let s = t % 60;
    assert(h * 3600 + m * 60 + s == t);
    assert(hms_spec(total) =~= pad2(h) + seq![':'] + pad2(m) + seq![':'] + pad2(s));
    reveal_strlit(":");
    assert(":"@ =~= seq![':']);
}

} // verus!
