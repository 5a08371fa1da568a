use mesai::backup::{base64_decode, base64_encode, embed_plan, EMBED_LIMIT};
use mesai::lang::Language;
use mesai::model::Database;
use mesai::state::MesaiState;

#[test]
fn base64_known_values() {
    assert_eq!(base64_encode(&b"".to_vec()), "");
    assert_eq!(base64_encode(&b"f".to_vec()), "Zg==");
    assert_eq!(base64_encode(&b"fo".to_vec()), "Zm8=");
    assert_eq!(base64_encode(&b"foo".to_vec()), "Zm9v");
    assert_eq!(base64_encode(&b"foobar".to_vec()), "Zm9vYmFy");
    assert_eq!(base64_encode(&vec![0xfb, 0xff, 0x3e]), "+/8+");
}

#[test]
fn base64_reads_back() {
    let bytes: Vec<u8> = (0..=255u8).chain(0..=10u8).collect();
    let text = base64_encode(&bytes);
    assert_eq!(base64_decode(&text), Some(bytes));
    assert_eq!(base64_decode("Zm9vYg=="), Some(b"foob".to_vec()));
    assert_eq!(base64_decode(""), Some(Vec::new()));
}

#[test]
fn base64_refuses_what_is_not_base64() {
    assert_eq!(base64_decode("Zm9"), None);
    assert_eq!(base64_decode("Zm9v!A=="), None);
    assert_eq!(base64_decode("Zg==Zg=="), None);
}

#[test]
fn attachments_over_five_megabytes_stay_out() {
    let sizes = vec![Some(10), Some(EMBED_LIMIT), Some(EMBED_LIMIT + 1), None];
    let (plan, skipped) = embed_plan(&sizes);
    assert_eq!(plan, vec![true, true, false, false]);
    assert_eq!(skipped, 2);
    assert_eq!(EMBED_LIMIT, 5 * 1024 * 1024);
}

#[test]
fn backup_status() {
    let mut st = MesaiState::new(Database::new());
    st.record_backup(Ok("/d/m.json".to_string()), 0);
    assert_eq!(st.status, "JSON written: /d/m.json");
    st.record_backup(Ok("/d/m.json".to_string()), 2);
    assert_eq!(st.status, "JSON written: /d/m.json (2 attachment(s) over 5 MB kept by path only).");
    assert_eq!(st.last_export, Some("/d/m.json".to_string()));
    st.set_language(Language::Turkish);
    st.record_backup(Err("disk full".to_string()), 3);
    assert_eq!(st.status, "JSON hatası: disk full");
}
