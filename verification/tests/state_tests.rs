use mesai::clock::UtcTime;
use mesai::lang::Language;
use mesai::model::{Attachment, Database, Session};
use mesai::state::{
    added_sessions, restored_attachments, session_title_with, sessions_summary, tags_line,
    timer_badge_at, ExportKind, MesaiState, Tab, TimerAction,
};
use mesai::timer::RunningTimer;

fn at(secs: i64) -> UtcTime {
    UtcTime { secs, nanos: 0 }
}

#[test]
fn fresh_state() {
    let st = MesaiState::new(Database::new());
    assert_eq!(st.tab, Tab::Timer);
    assert_eq!(st.db.language, Language::English);
    assert_eq!(st.status, "Ready.");
    assert!(st.timer.is_none() && st.draft.is_none());
}

#[test]
fn fresh_state_in_turkish() {
    let mut db = Database::new();
    db.language = Language::Turkish;
    let st = MesaiState::new(db);
    assert_eq!(st.status, "Hazır.");
}

#[test]
fn choosing_the_language() {
    let mut st = MesaiState::new(Database::new());
    st.set_language(Language::Turkish);
    assert_eq!(st.db.language, Language::Turkish);
    assert_eq!(st.status, "Ready.");
    st.timer_action_at(TimerAction::Start, at(0));
    assert_eq!(st.status, "Sayaç başladı. Kolay gelsin!");
    st.timer_action_at(TimerAction::Pause, at(5));
    assert_eq!(st.status, "Sayaç duraklatıldı.");
    st.set_language(Language::English);
    st.timer_action_at(TimerAction::Resume, at(6));
    assert_eq!(st.status, "Resumed.");
}

#[test]
fn timer_screen_flow() {
    let mut st = MesaiState::new(Database::new());
    st.timer_action_at(TimerAction::Start, at(1000));
    assert_eq!(st.status, "Timer started. Good luck!");
    assert!(st.needs_repaint());
    st.files_dropped(vec!["/tmp/a.c".to_string(), "/tmp/b.c".to_string()]);
    assert_eq!(st.status, "2 attachment(s) added.");
    assert_eq!(st.pending_attachments.len(), 2);
    st.remove_pending(0);
    assert_eq!(st.pending_attachments, vec!["/tmp/b.c".to_string()]);
    st.timer_action_at(TimerAction::Pause, at(1100));
    assert_eq!(st.status, "Timer paused.");
    assert!(!st.needs_repaint());
    st.timer_action_at(TimerAction::Resume, at(2000));
    assert_eq!(st.status, "Resumed.");
    st.timer_action_at(TimerAction::CancelArm, at(2001));
    assert!(st.cancel_armed);
    st.timer_action_at(TimerAction::CancelUnarm, at(2002));
    assert!(!st.cancel_armed);
    st.timer_action_at(TimerAction::Finish, at(2050));
    assert!(st.timer.is_none());
    let d = st.draft.as_ref().unwrap();
    assert_eq!(d.duration_secs, 150);
    assert_eq!(d.started_at, at(1000));
    assert_eq!(d.ended_at, at(2050));
    assert_eq!(d.attachments, vec!["/tmp/b.c".to_string()]);
    assert!(st.pending_attachments.is_empty());
    assert_eq!(st.status, "Session finished; fill in the details and save.");
}

#[test]
fn cancel_drops_the_session() {
    let mut st = MesaiState::new(Database::new());
    st.timer_action_at(TimerAction::Start, at(0));
    st.timer_action_at(TimerAction::CancelArm, at(4));
    st.timer_action_at(TimerAction::CancelDo, at(5));
    assert!(st.timer.is_none());
    assert_eq!(st.status, "Session cancelled without saving.");
    st.files_dropped(vec!["/x".to_string()]);
    assert_eq!(st.status, "Start the timer first to attach files (attachments belong to a session).");
    assert!(st.pending_attachments.is_empty());
}

#[test]
fn cancel_takes_two_clicks() {
    let mut st = MesaiState::new(Database::new());
    st.timer_action_at(TimerAction::Start, at(0));
    st.files_dropped(vec!["/x".to_string()]);
    st.timer_action_at(TimerAction::CancelDo, at(5));
    assert!(st.timer.is_some());
    assert_eq!(st.pending_attachments, vec!["/x".to_string()]);
}

#[test]
fn saving_a_draft() {
    let mut st = MesaiState::new(Database::new());
    st.timer_action_at(TimerAction::Start, at(100));
    st.timer_action_at(TimerAction::Finish, at(160));
    {
        let d = st.draft.as_mut().unwrap();
        d.topic = "  C — Milestone 2 ".to_string();
        d.notes = " strtok \n".to_string();
        d.tags = "c, , shell".to_string();
    }
    st.set_discard_armed(true);
    assert!(st.draft.as_ref().unwrap().discard_armed);
    st.set_discard_armed(false);
    let d = st.take_draft().unwrap();
    assert!(st.draft.is_none());
    let id = st.db.allocate_id();
    let copies = vec![
        Some(Attachment { file_name: "a.c".to_string(), path: "/d/1/a.c".to_string() }),
        None,
    ];
    st.persist_draft(d, id, copies);
    assert!(st.draft.is_none() && st.timer.is_none());
    assert_eq!(st.tab, Tab::Timer);
    assert_eq!(st.status, "Session saved (1 attachment(s) could not be copied).");
    let s = &st.db.sessions[0];
    assert_eq!(s.id, 1);
    assert_eq!(s.topic, "C — Milestone 2");
    assert_eq!(s.notes, "strtok");
    assert_eq!(s.tags, vec!["c".to_string(), "shell".to_string()]);
    assert_eq!(s.attachments.len(), 1);
    assert_eq!(s.duration_secs, 60);
    assert_eq!(tags_line(s), "c, shell");
    assert_eq!(sessions_summary(&st.db), "Total 1 sessions • 1 min 0 s");
    assert_eq!(
        session_title_with(Language::English, "11 Temmuz 2026, 14:30", s),
        "11 Temmuz 2026, 14:30  •  1 min 0 s  •  C — Milestone 2"
    );
    st.set_language(Language::Turkish);
    assert_eq!(sessions_summary(&st.db), "Toplam 1 oturum • 1 dk 0 sn");
    assert_eq!(
        session_title_with(Language::Turkish, "x", &st.db.sessions[0]),
        "x  •  1 dk 0 sn  •  C — Milestone 2"
    );
}

#[test]
fn saving_without_failures_and_discarding() {
    let mut st = MesaiState::new(Database::new());
    st.timer_action_at(TimerAction::Start, at(0));
    st.timer_action_at(TimerAction::Finish, at(10));
    let d = st.take_draft().unwrap();
    let id = st.db.allocate_id();
    st.persist_draft(d, id, Vec::new());
    assert_eq!(st.status, "Session saved.");
    assert_eq!(session_title_with(Language::English, "x", &st.db.sessions[0]), "x  •  10 s  •  (no topic)");
    assert_eq!(session_title_with(Language::Turkish, "x", &st.db.sessions[0]), "x  •  10 sn  •  (konu yok)");
    st.timer_action_at(TimerAction::Start, at(20));
    st.timer_action_at(TimerAction::Finish, at(30));
    st.files_dropped(vec!["/y".to_string()]);
    assert_eq!(st.draft.as_ref().unwrap().attachments, vec!["/y".to_string()]);
    st.discard_draft();
    assert!(st.draft.is_some());
    st.set_discard_armed(true);
    st.discard_draft();
    assert!(st.draft.is_none());
    assert_eq!(st.status, "Session not saved.");
}

#[test]
fn deleting_and_exports() {
    let mut st = MesaiState::new(Database::new());
    st.timer_action_at(TimerAction::Start, at(0));
    st.timer_action_at(TimerAction::Finish, at(10));
    let d = st.take_draft().unwrap();
    let id = st.db.allocate_id();
    st.persist_draft(d, id, Vec::new());
    st.delete_session(id);
    assert_eq!(st.db.sessions.len(), 1);
    st.arm_delete(id);
    assert_eq!(st.confirm_delete, Some(id));
    st.disarm_delete();
    assert_eq!(st.confirm_delete, None);
    st.arm_delete(id);
    st.delete_session(id);
    assert!(st.db.sessions.is_empty());
    assert_eq!(st.confirm_delete, None);
    assert_eq!(st.status, "Entry deleted.");
    st.record_export(ExportKind::Csv, Ok("/d/mesai_1.csv".to_string()));
    assert_eq!(st.status, "CSV written: /d/mesai_1.csv");
    assert_eq!(st.last_export, Some("/d/mesai_1.csv".to_string()));
    st.record_export(ExportKind::Json, Err("disk full".to_string()));
    assert_eq!(st.status, "JSON error: disk full");
    assert_eq!(st.last_export, Some("/d/mesai_1.csv".to_string()));
    st.record_save_error("denied");
    assert_eq!(st.status, "Save error: denied");
    st.set_language(Language::Turkish);
    st.record_export(ExportKind::Csv, Ok("/d/a.csv".to_string()));
    assert_eq!(st.status, "CSV yazıldı: /d/a.csv");
    st.record_export(ExportKind::Json, Err("disk full".to_string()));
    assert_eq!(st.status, "JSON hatası: disk full");
    st.record_save_error("denied");
    assert_eq!(st.status, "Kaydetme hatası: denied");
}

#[test]
fn top_bar_badge() {
    let t = RunningTimer::new_at(at(0));
    assert_eq!(timer_badge_at(Language::English, &t, at(3725)), "Running · 01:02:05");
    assert_eq!(timer_badge_at(Language::Turkish, &t, at(3725)), "Çalışıyor · 01:02:05");
    let mut p = t;
    p.pause_at(at(10));
    assert_eq!(timer_badge_at(Language::English, &p, at(99999)), "Paused · 00:00:10");
    assert_eq!(timer_badge_at(Language::Turkish, &p, at(99999)), "Duraklatıldı · 00:00:10");
}

fn session(id: u64) -> Session {
    Session {
        id,
        started_at: at(0),
        ended_at: at(1),
        duration_secs: 1,
        topic: String::new(),
        notes: String::new(),
        tags: Vec::new(),
        attachments: Vec::new(),
    }
}

#[test]
fn import_helpers() {
    let sessions = vec![session(4), session(1), session(7), session(2)];
    assert_eq!(added_sessions(&sessions, &vec![1, 2]), vec![0, 2]);
    let olds = vec![
        Attachment { file_name: "a".to_string(), path: "/old/a".to_string() },
        Attachment { file_name: "b".to_string(), path: "/old/b".to_string() },
    ];
    let copies = vec![None, Some(Attachment { file_name: "b".to_string(), path: "/new/b".to_string() })];
    let r = restored_attachments(olds, copies);
    assert_eq!(r[0].path, "/old/a");
    assert_eq!(r[1].path, "/new/b");
    let mut st = MesaiState::new(Database::new());
    st.record_import(3, 1);
    assert_eq!(st.status, "3 session(s) imported, 1 skipped.");
    st.record_import_error("bad json");
    assert_eq!(st.status, "Import error: bad json");
    st.set_language(Language::Turkish);
    st.record_import(3, 1);
    assert_eq!(st.status, "3 oturum içe aktarıldı, 1 atlandı.");
}
