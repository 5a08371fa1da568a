use mesai::clock::UtcTime;
use mesai::csv::{csv_row, csv_text_with, export_csv_text};
use mesai::model::{Attachment, Database, Session};

fn session() -> Session {
    Session {
        id: 3,
        started_at: UtcTime { secs: 1_783_780_200, nanos: 0 },
        ended_at: UtcTime { secs: 1_783_787_400, nanos: 0 },
        duration_secs: 3725,
        topic: "C, pointers".to_string(),
        notes: "said \"hi\"".to_string(),
        tags: vec!["c".to_string(), "shell".to_string()],
        attachments: vec![Attachment { file_name: "a.c".to_string(), path: "/x/a.c".to_string() }],
    }
}

#[test]
fn one_row() {
    let r = csv_row(&session(), "2026-07-11 14:30", "2026-07-11 16:30");
    assert_eq!(
        r,
        "3,2026-07-11 14:30,2026-07-11 16:30,3725,1 sa 2 dk,\"C, pointers\",\"c, shell\",\"said \"\"hi\"\"\",1\n"
    );
}

#[test]
fn whole_document() {
    let mut db = Database::new();
    db.sessions.push(session());
    let times = vec![("s".to_string(), "e".to_string())];
    let t = csv_text_with(&db, &times);
    assert!(t.starts_with("id,started_at,ended_at,duration_secs,duration,topic,tags,notes,attachment_count\n3,s,e,3725,"));
    let local = export_csv_text(&db);
    assert_eq!(local.lines().count(), 2);
    assert!(local.lines().nth(1).unwrap().starts_with("3,2026-07-1"));
    let empty = csv_text_with(&Database::new(), &Vec::new());
    assert_eq!(empty, "id,started_at,ended_at,duration_secs,duration,topic,tags,notes,attachment_count\n");
}
