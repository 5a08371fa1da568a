use mesai::clock::UtcTime;
use mesai::model::{sort_sessions, Attachment, Database, ImportReport, Session};

fn session(id: u64, start: i64, end: i64, topic: &str) -> Session {
    Session {
        id,
        started_at: UtcTime { secs: start, nanos: 0 },
        ended_at: UtcTime { secs: end, nanos: 0 },
        duration_secs: (end - start) as u64,
        topic: topic.to_string(),
        notes: String::new(),
        tags: Vec::new(),
        attachments: Vec::new(),
    }
}

fn ids(v: &[Session]) -> Vec<u64> {
    v.iter().map(|s| s.id).collect()
}

#[test]
fn sort_is_by_start_and_stable() {
    let mut v = vec![
        session(1, 300, 400, "c"),
        session(2, 100, 200, "a"),
        session(3, 300, 350, "d"),
        session(4, 100, 150, "b"),
    ];
    sort_sessions(&mut v);
    assert_eq!(ids(&v), vec![2, 4, 1, 3]);
    let mut w = vec![session(9, 5, 6, "x"), session(8, 5, 6, "y")];
    sort_sessions(&mut w);
    assert_eq!(ids(&w), vec![9, 8]);
    let mut e: Vec<Session> = Vec::new();
    sort_sessions(&mut e);
    assert!(e.is_empty());
}

#[test]
fn nanoseconds_order_sessions_too() {
    let mut a = session(1, 10, 20, "a");
    a.started_at.nanos = 5;
    let b = session(2, 10, 20, "b");
    let mut v = vec![a, b];
    sort_sessions(&mut v);
    assert_eq!(ids(&v), vec![2, 1]);
}

#[test]
fn ids_start_at_one_and_grow() {
    let mut db = Database::new();
    assert_eq!(db.allocate_id(), 1);
    assert_eq!(db.next_id, 2);
    assert_eq!(db.allocate_id(), 2);
    db.next_id = 40;
    assert_eq!(db.allocate_id(), 40);
    assert_eq!(db.next_id, 41);
}

#[test]
fn insert_keeps_order() {
    let mut db = Database::new();
    db.insert_session(session(1, 500, 600, "late"));
    db.insert_session(session(2, 100, 200, "early"));
    db.insert_session(session(3, 300, 400, "middle"));
    assert_eq!(ids(&db.sessions), vec![2, 3, 1]);
}

#[test]
fn delete_removes_only_that_id() {
    let mut db = Database::new();
    db.sessions = vec![session(1, 1, 2, "a"), session(2, 3, 4, "b"), session(3, 5, 6, "c")];
    db.next_id = 4;
    db.delete_session(2);
    assert_eq!(ids(&db.sessions), vec![1, 3]);
    db.delete_session(99);
    assert_eq!(ids(&db.sessions), vec![1, 3]);
    assert_eq!(db.next_id, 4);
    assert_eq!(db.total_duration(), 2);
}

#[test]
fn import_merges_and_skips_duplicates() {
    let mut db = Database::new();
    db.sessions = vec![session(1, 100, 200, "kept"), session(2, 500, 600, "kept too")];
    db.next_id = 3;
    let mut backed = session(7, 100, 200, "duplicate");
    backed.attachments.push(Attachment { file_name: "a.c".to_string(), path: "/x/a.c".to_string() });
    let backup = vec![backed, session(8, 300, 400, "new"), session(9, 300, 400, "again"), session(1, 50, 60, "older")];
    let rep = db.import_sessions(backup);
    assert_eq!(rep, ImportReport { imported: 2, skipped: 2 });
    assert_eq!(db.sessions.len(), 4);
    let topics: Vec<&str> = db.sessions.iter().map(|s| s.topic.as_str()).collect();
    assert_eq!(topics, vec!["older", "kept", "new", "kept too"]);
    assert_eq!(ids(&db.sessions), vec![4, 1, 3, 2]);
    assert_eq!(db.next_id, 5);
}

#[test]
fn import_into_empty_restores_all() {
    let mut db = Database::new();
    let backup = vec![session(5, 10, 20, "a"), session(6, 30, 40, "b")];
    let rep = db.import_sessions(backup);
    assert_eq!(rep.imported, 2);
    assert_eq!(rep.skipped, 0);
    assert_eq!(ids(&db.sessions), vec![1, 2]);
}
