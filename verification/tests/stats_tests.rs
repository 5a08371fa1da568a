use mesai::lang::Language;
use mesai::clock::{UtcTime, DATE_MIN_DAYS};
use mesai::model::{Database, Session};
use mesai::stats::{
    compute_stats, last_fourteen, max_day, rank_topics, stats_for_days, streak, sum_by_day,
    sum_by_topic, text_lt, topic_key_of, newest_first, shown_topics,
};

fn session(id: u64, dur: u64, topic: &str) -> Session {
    Session {
        id,
        started_at: UtcTime { secs: 1_783_780_200, nanos: 0 },
        ended_at: UtcTime { secs: 1_783_780_200 + dur as i64, nanos: 0 },
        duration_secs: dur,
        topic: topic.to_string(),
        notes: String::new(),
        tags: Vec::new(),
        attachments: Vec::new(),
    }
}

#[test]
fn topic_keys() {
    assert_eq!(topic_key_of(Language::English, &"  C pointers ".to_string()), "C pointers");
    assert_eq!(topic_key_of(Language::Turkish, &"   ".to_string()), "(konu yok)");
    assert_eq!(topic_key_of(Language::English, &String::new()), "(no topic)");
}

#[test]
fn text_order_is_by_code_point() {
    assert!(text_lt(&"a".to_string(), &"b".to_string()));
    assert!(text_lt(&"ab".to_string(), &"abc".to_string()));
    assert!(!text_lt(&"abc".to_string(), &"ab".to_string()));
    assert!(!text_lt(&"x".to_string(), &"x".to_string()));
    assert!(text_lt(&"Z".to_string(), &"a".to_string()));
    assert!(text_lt(&"z".to_string(), &"ç".to_string()));
}

#[test]
fn sums_by_day_and_topic() {
    let s = vec![session(1, 100, "C"), session(2, 50, " C "), session(3, 30, ""), session(4, 7, "Go")];
    let days = vec![Some(10), Some(12), Some(10), None];
    let mut by_day = sum_by_day(&s, &days);
    by_day.sort();
    assert_eq!(by_day, vec![(10, 130), (12, 50)]);
    let by_topic = sum_by_topic(Language::Turkish, &s);
    let ranked = rank_topics(by_topic);
    assert_eq!(
        ranked,
        vec![("C".to_string(), 150), ("(konu yok)".to_string(), 30), ("Go".to_string(), 7)]
    );
}

#[test]
fn ties_rank_in_text_order() {
    let v = vec![("b".to_string(), 5), ("c".to_string(), 9), ("a".to_string(), 5)];
    assert_eq!(
        rank_topics(v),
        vec![("c".to_string(), 9), ("a".to_string(), 5), ("b".to_string(), 5)]
    );
}

#[test]
fn streak_counts_back_from_today_or_yesterday() {
    let v = vec![(100, 5), (99, 5), (98, 5), (96, 5)];
    assert_eq!(streak(&v, 100), 3);
    assert_eq!(streak(&v, 101), 3);
    assert_eq!(streak(&v, 102), 0);
    assert_eq!(streak(&v, 97), 1);
    assert_eq!(streak(&Vec::new(), 100), 0);
    let edge = vec![(DATE_MIN_DAYS, 1), (DATE_MIN_DAYS + 1, 1)];
    assert_eq!(streak(&edge, DATE_MIN_DAYS + 1), 2);
}

#[test]
fn last_fourteen_days() {
    let v = vec![(739808, 60), (739800, 30), (739700, 99)];
    let r = last_fourteen(&v, 739808);
    assert_eq!(r.len(), 14);
    assert_eq!(r[0], (739795, 0));
    assert_eq!(r[5], (739800, 30));
    assert_eq!(r[13], (739808, 60));
    assert_eq!(max_day(&r), 60);
    assert_eq!(max_day(&last_fourteen(&Vec::new(), 739808)), 1);
    let early = last_fourteen(&Vec::new(), DATE_MIN_DAYS + 2);
    assert_eq!(early[0].0, DATE_MIN_DAYS + 2);
    assert_eq!(early[11].0, DATE_MIN_DAYS);
}

#[test]
fn whole_statistics() {
    let s = vec![session(1, 100, "C"), session(2, 50, "Go"), session(3, 31, "C")];
    let days = vec![Some(739808), Some(739807), Some(739805)];
    let st = stats_for_days(Language::Turkish, &s, &days, 739808);
    assert_eq!(st.total_secs, 181);
    assert_eq!(st.count, 3);
    assert_eq!(st.average_secs, 60);
    assert_eq!(st.streak, 2);
    assert_eq!(st.distinct_days, 3);
    assert_eq!(st.max_day, 100);
    assert_eq!(st.last14[13], (739808, 100));
    assert_eq!(st.topics, vec![("C".to_string(), 131), ("Go".to_string(), 50)]);
    let empty = stats_for_days(Language::English, &Vec::new(), &Vec::new(), 739808);
    assert_eq!(empty.average_secs, 0);
    assert_eq!(empty.streak, 0);
}

#[test]
fn statistics_of_a_database() {
    let mut db = Database::new();
    db.sessions = vec![session(1, 10, "a"), session(2, 20, "b")];
    let st = compute_stats(&db);
    assert_eq!(st.total_secs, 30);
    assert_eq!(st.count, 2);
    assert_eq!(st.distinct_days, 1);
    assert_eq!(st.topics[0], ("b".to_string(), 20));
}

#[test]
fn list_orders_and_cuts() {
    assert_eq!(newest_first(4), vec![3, 2, 1, 0]);
    assert_eq!(newest_first(0), Vec::<usize>::new());
    let mut db = Database::new();
    db.sessions = (0..20).map(|k| session(k + 1, 100 - k, &format!("t{k:02}"))).collect();
    let st = compute_stats(&db);
    let shown = shown_topics(&st);
    assert_eq!(shown.len(), 15);
    assert_eq!(shown[0], ("t00".to_string(), 100));
    assert_eq!(shown[14], ("t14".to_string(), 86));
}
