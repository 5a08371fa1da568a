use mesai::lang::Language;
use mesai::clock::UtcTime;
use mesai::model::{sort_sessions, Database, Session};
use mesai::paths::candidate_name;
use mesai::stats::stats_for_days;
use mesai::text::{join, parse_tags, trim};
use mesai::timer::RunningTimer;

fn session(id: u64, start: i64, dur: u64, topic: &str) -> Session {
    Session {
        id,
        started_at: UtcTime { secs: start, nanos: 0 },
        ended_at: UtcTime { secs: start + dur as i64, nanos: 0 },
        duration_secs: dur,
        topic: topic.to_string(),
        notes: String::new(),
        tags: Vec::new(),
        attachments: Vec::new(),
    }
}

#[test]
fn trimming_twice_is_trimming_once() {
    for s in ["  a b  ", "\t\n", "x", " \u{2003}y\u{2003} "] {
        assert_eq!(trim(trim(s)), trim(s));
    }
}

#[test]
fn tags_are_clean_pieces() {
    for t in parse_tags(" a ,b c,, \t d\t,") {
        assert!(!t.is_empty());
        assert_eq!(t.trim(), t);
        assert!(!t.contains(','));
    }
}

#[test]
fn candidate_names_are_all_different() {
    let names: Vec<String> = (0..50).map(|n| candidate_name("main.c", n)).collect();
    for i in 0..names.len() {
        for j in 0..names.len() {
            if i != j {
                assert_ne!(names[i], names[j]);
            }
        }
    }
}

#[test]
fn deleting_a_new_session_restores_the_list() {
    let mut db = Database::new();
    db.sessions = vec![session(1, 10, 5, "a"), session(2, 20, 5, "b")];
    db.next_id = 3;
    let before: Vec<u64> = db.sessions.iter().map(|s| s.id).collect();
    let id = db.allocate_id();
    db.insert_session(session(id, 15, 5, "new"));
    assert!(db.sessions.iter().any(|s| s.id == id));
    db.delete_session(id);
    let after: Vec<u64> = db.sessions.iter().map(|s| s.id).collect();
    assert_eq!(before, after);
}

#[test]
fn importing_twice_changes_nothing_more() {
    let mut db = Database::new();
    let backup = || vec![session(5, 10, 5, "a"), session(6, 30, 5, "b")];
    db.import_sessions(backup());
    let rep = db.import_sessions(backup());
    assert_eq!(rep.imported, 0);
    assert_eq!(rep.skipped, 2);
    assert_eq!(db.sessions.len(), 2);
}

#[test]
fn sorting_twice_changes_nothing() {
    let mut v = vec![session(1, 30, 1, "a"), session(2, 10, 1, "b"), session(3, 10, 1, "c")];
    sort_sessions(&mut v);
    let once: Vec<u64> = v.iter().map(|s| s.id).collect();
    sort_sessions(&mut v);
    let twice: Vec<u64> = v.iter().map(|s| s.id).collect();
    assert_eq!(once, twice);
    assert_eq!(once, vec![2, 3, 1]);
}

#[test]
fn topic_times_add_up_and_streak_fits() {
    let s = vec![session(1, 0, 40, "x"), session(2, 0, 2, "y"), session(3, 0, 9, " x")];
    let days = vec![Some(100), Some(99), Some(99)];
    let st = stats_for_days(Language::English, &s, &days, 100);
    let sum: i64 = st.topics.iter().map(|t| t.1).sum();
    assert_eq!(sum, st.total_secs);
    assert!(st.distinct_days <= st.count);
    assert!(st.streak as u64 <= st.distinct_days);
}

#[test]
fn a_timer_reading_never_goes_down() {
    let t = RunningTimer::new_at(UtcTime { secs: 0, nanos: 0 });
    let mut last = 0;
    for secs in [0i64, 1, 5, 5, 60, 3600] {
        let r = t.elapsed_at(UtcTime { secs, nanos: 0 });
        assert!(r >= last);
        last = r;
    }
}

#[test]
fn tags_read_back_from_their_list() {
    let tags = parse_tags(" c, shell ,, pointer,c ");
    assert_eq!(tags, vec!["c".to_string(), "shell".to_string(), "pointer".to_string(), "c".to_string()]);
    assert_eq!(parse_tags(&join(&tags, ", ")), tags);
    assert_eq!(parse_tags(&join(&Vec::new(), ", ")), Vec::<String>::new());
}

#[test]
fn readings_never_fall_over_a_run() {
    let at = |s: i64| UtcTime { secs: s, nanos: 0 };
    let mut t = RunningTimer::new_at(at(0));
    let mut last = t.elapsed_at(at(0));
    let steps: [(u8, i64); 8] = [(2, 5), (0, 7), (2, 9), (2, 100), (1, 200), (2, 200), (0, 230), (2, 500)];
    for (op, now) in steps {
        match op {
            0 => t.pause_at(at(now)),
            1 => t.resume_at(at(now)),
            _ => {}
        }
        let r = t.elapsed_at(at(now));
        assert!(r >= last && r >= 0);
        last = r;
    }
    assert_eq!(last, 37);
}

#[test]
fn saving_keeps_ids_distinct() {
    let mut db = Database::new();
    for k in 0..5 {
        let id = db.allocate_id();
        db.insert_session(session(id, 100 - k * 10, 1, "x"));
    }
    let mut ids: Vec<u64> = db.sessions.iter().map(|s| s.id).collect();
    assert!(ids.iter().all(|&i| i < db.next_id));
    ids.sort();
    ids.dedup();
    assert_eq!(ids.len(), 5);
    assert!(db.next_id >= 2);
}
