//! The CSV export: one header line, then one line per session.

use vstd::prelude::*;
use vstd::string::*;
use crate::text::{owned, csv_field, csv_field_spec, push_decimal, decimal, join, join_spec, views};
use crate::clock::{local_stamp, timestamp_valid, LocalStamp, stamp_in_range, reading_of, lemma_stamp_read};
use crate::format::{fmt_csv_time, csv_time_spec, fmt_dur_human, dur_human_spec};
use crate::model::{Session, Database};

verus! {

/// The header line. Column names are in English whatever the language of
/// the interface, so exported files stay the same.
pub open spec fn csv_header() -> Seq<char> {
    "id,started_at,ended_at,duration_secs,duration,topic,tags,notes,attachment_count\n"@
}

/// One line of the export: id, start, end, seconds, readable duration,
/// topic, tags, notes (the last four quoted where needed) and the number of
/// attachments.
pub open spec fn csv_row_spec(s: Session, start: Seq<char>, end: Seq<char>) -> Seq<char> {
    decimal(s.id as nat) + ","@ + start + ","@ + end + ","@ + decimal(s.duration_secs as nat) + ","@
        + csv_field_spec(dur_human_spec(s.duration_secs as i64 as int)) + ","@ + csv_field_spec(
        s.topic@,
    ) + ","@ + csv_field_spec(join_spec(views(s.tags@), ", "@)) + ","@ + csv_field_spec(s.notes@)
        + ","@ + decimal(s.attachments@.len()) + "\n"@
}

/// The lines of the sessions, given each session's start and end as written.
pub open spec fn csv_rows_spec(s: Seq<Session>, times: Seq<(Seq<char>, Seq<char>)>) -> Seq<char>
    decreases s.len(),
{
    if s.len() == 0 {
        Seq::empty()
    } else {
        csv_rows_spec(s.drop_last(), times) + csv_row_spec(
            s.last(),
            times[s.len() - 1].0,
            times[s.len() - 1].1,
        )
    }
}

/// The views of pairs of strings.
pub open spec fn time_views(t: Seq<(String, String)>) -> Seq<(Seq<char>, Seq<char>)> {
    t.map_values(|p: (String, String)| (p.0@, p.1@))
}

/// An instant as the export writes it: local "%Y-%m-%d %H:%M", or nothing
/// when `chrono` does not accept the instant.
pub open spec fn csv_time_of(r: Option<LocalStamp>) -> Seq<char> {
    match r {
        Some(s) => csv_time_spec(s),
        None => Seq::empty(),
    }
}

/// The starts and ends as the export writes them.
pub open spec fn csv_times(stamps: Seq<(Option<LocalStamp>, Option<LocalStamp>)>) -> Seq<(Seq<char>, Seq<char>)> {
    stamps.map_values(|p: (Option<LocalStamp>, Option<LocalStamp>)| (csv_time_of(p.0), csv_time_of(p.1)))
}

/// One line of the export.
pub fn csv_row(s: &Session, start: &str, end: &str) -> (r: String)
    ensures
        r@ == csv_row_spec(*s, start@, end@),
{
    let mut r = String::new();
    push_decimal(&mut r, s.id);
    r.append(",");
    r.append(start);
    r.append(",");
    r.append(end);
    r.append(",");
    push_decimal(&mut r, s.duration_secs);
    r.append(",");
    let d = fmt_dur_human(s.duration_secs as i64);
    r.append(csv_field(d.as_str()).as_str());
    r.append(",");
    r.append(csv_field(s.topic.as_str()).as_str());
    r.append(",");
    let tags = join(&s.tags, ", ");
    r.append(csv_field(tags.as_str()).as_str());
    r.append(",");
    r.append(csv_field(s.notes.as_str()).as_str());
    r.append(",");
    push_decimal(&mut r, s.attachments.len() as u64);
    r.append("\n");
    proof {
        assert(r@ =~= csv_row_spec(*s, start@, end@));
    }
    r
}

/// The whole export, given each session's start and end as written.
pub fn csv_text_with(db: &Database, times: &Vec<(String, String)>) -> (r: String)
    requires
        times@.len() == db.sessions@.len(),
    ensures
        r@ == csv_header() + csv_rows_spec(db.sessions@, time_views(times@)),
{
    let mut r = owned("id,started_at,ended_at,duration_secs,duration,topic,tags,notes,attachment_count\n");
    let ghost tv = time_views(times@);
    let mut i: usize = 0;
    while i < db.sessions.len()
        invariant
            0 <= i <= db.sessions.len(),
            times@.len() == db.sessions@.len(),
            tv == time_views(times@),
            r@ == csv_header() + csv_rows_spec(db.sessions@.take(i as int), tv),
        decreases db.sessions.len() - i,
    {
        let row = csv_row(&db.sessions[i], times[i].0.as_str(), times[i].1.as_str());
        let ghost before = r@;
        r.append(row.as_str());
        proof {
            assert(db.sessions@.take((i + 1) as int).drop_last() =~= db.sessions@.take(i as int));
            assert(tv[i as int] == (times@[i as int].0@, times@[i as int].1@));
            assert(r@ =~= csv_header() + csv_rows_spec(db.sessions@.take((i + 1) as int), tv));
        }
        i = i + 1;
    }
    proof {
        assert(db.sessions@.take(i as int) =~= db.sessions@);
    }
    r
}

fn csv_time_text(r: Option<LocalStamp>) -> (t: String)
    requires
        r matches Some(s) ==> stamp_in_range(s),
    ensures
        t@ == csv_time_of(r),
{
    match r {
        Some(s) => fmt_csv_time(&s),
        None => String::new(),
    }
}

/// The whole export, with starts and ends in local time: each is a reading
/// of the session's own start and end.
pub fn export_csv_text(db: &Database) -> (r: String)
    ensures
        exists|stamps: Seq<(Option<LocalStamp>, Option<LocalStamp>)> |
            {
                &&& stamps.len() == db.sessions@.len()
                &&& forall|i: int|
                    0 <= i < stamps.len() ==> reading_of(db.sessions@[i].started_at, (#[trigger] stamps[i]).0)
                        && reading_of(db.sessions@[i].ended_at, stamps[i].1)
                &&& r@ == csv_header() + csv_rows_spec(db.sessions@, #[trigger] csv_times(stamps))
            },
{
    let mut times: Vec<(String, String)> = Vec::new();
    let ghost mut stamps: Seq<(Option<LocalStamp>, Option<LocalStamp>)> = Seq::empty();
    let mut i: usize = 0;
    while i < db.sessions.len()
        invariant
            0 <= i <= db.sessions.len(),
            times@.len() == i,
            stamps.len() == i,
            forall|k: int|
                0 <= k < i ==> reading_of(db.sessions@[k].started_at, (#[trigger] stamps[k]).0)
                    && reading_of(db.sessions@[k].ended_at, stamps[k].1),
            time_views(times@) == csv_times(stamps),
        decreases db.sessions.len() - i,
    {
        let a = local_stamp(db.sessions[i].started_at);
        let b = local_stamp(db.sessions[i].ended_at);
        proof {
            lemma_stamp_read(db.sessions@[i as int].started_at, a);
            lemma_stamp_read(db.sessions@[i as int].ended_at, b);
        }
        let ta = csv_time_text(a);
        let tb = csv_time_text(b);
        let ghost old_times = times@;
        let ghost old_stamps = stamps;
        let ghost tav = ta@;
        let ghost tbv = tb@;
        times.push((ta, tb));
        proof {
            stamps = stamps.push((a, b));
            assert forall|k: int| 0 <= k < times@.len() implies time_views(times@)[k] == csv_times(
                stamps,
            )[k] by {
                if k < i {
                    assert(times@[k] == old_times[k]);
                    assert(stamps[k] == old_stamps[k]);
                    assert(time_views(old_times)[k] == csv_times(old_stamps)[k]);
                } else {
                    assert(times@[k].0@ == tav);
                }
            }
            assert(time_views(times@) =~= csv_times(stamps));
        }
        i = i + 1;
    }
    csv_text_with(db, &times)
}

/// Adding a session to the export adds its row after the rows of the
/// sessions before it, which stay as they were.
pub proof fn export_adds_one_row_per_session(
    s: Seq<Session>,
    x: Session,
    times: Seq<(Seq<char>, Seq<char>)>,
)
    requires
        times.len() > s.len(),
    ensures
        csv_rows_spec(s.push(x), times) == csv_rows_spec(s, times) + csv_row_spec(
            x,
            times[s.len() as int].0,
            times[s.len() as int].1,
        ),
{
    assert(s.push(x).drop_last() =~= s);
}

/// The export of two runs of sessions is the export of the first followed
/// by the export of the second: every session has its own row, in order,
/// and none is left out or repeated.
pub proof fn export_rows_concatenate(
    a: Seq<Session>,
    b: Seq<Session>,
    times: Seq<(Seq<char>, Seq<char>)>,
)
    requires
        times.len() >= a.len() + b.len(),
    ensures
        csv_rows_spec(a + b, times) == csv_rows_spec(a, times) + csv_rows_spec(
            b,
            times.skip(a.len() as int),
        ),
    decreases b.len(),
{
    if b.len() == 0 {
        assert(a + b =~= a);
        assert(csv_rows_spec(a, times) + Seq::<char>::empty() =~= csv_rows_spec(a, times));
    } else {
        let bd = b.drop_last();
        export_rows_concatenate(a, bd, times);
        assert((a + b).drop_last() =~= a + bd);
        assert((a + b).last() == b.last());
        let t = times.skip(a.len() as int);
        assert(t[b.len() - 1] == times[a.len() + b.len() - 1]);
        assert(csv_rows_spec(a + b, times) =~= csv_rows_spec(a, times) + csv_rows_spec(b, t));
    }
}

/// Each row ends its line, so the export of `n` sessions holds the header
/// and `n` rows, each closed by a line break.
pub proof fn every_row_ends_its_line(x: Session, start: Seq<char>, end: Seq<char>)
    ensures
        csv_row_spec(x, start, end).len() > 0,
        csv_row_spec(x, start, end).last() == '\n',
{
    reveal_strlit("\n");
}

} // verus!
