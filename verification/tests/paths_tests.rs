use mesai::lang::Language;
use mesai::paths::{
    add_manual_path, add_manual_path_in, first_free_target, paths_for, attachment_dir, attachment_target, candidate_name, choose_export_dir,
    expand_tilde_with, join_path, paths_from_base, record_manual_path, target_step, TargetStep,
};

#[test]
fn join_follows_unix_rules() {
    assert_eq!(join_path("/home/u", "a.c"), "/home/u/a.c");
    assert_eq!(join_path("/home/u/", "a.c"), "/home/u/a.c");
    assert_eq!(join_path("/home/u", "/etc/x"), "/etc/x");
    assert_eq!(join_path("", "a"), "a");
    assert_eq!(join_path("a", ""), "a/");
    let std_join = std::path::Path::new("/home/u").join("p/q");
    assert_eq!(join_path("/home/u", "p/q"), std_join.to_string_lossy());
}

#[test]
fn data_paths() {
    let p = paths_from_base("/home/u/.local/share");
    assert_eq!(p.data_dir, "/home/u/.local/share/mesai");
    assert_eq!(p.db_file, "/home/u/.local/share/mesai/data.json");
    assert_eq!(p.attach_dir, "/home/u/.local/share/mesai/attachments");
    assert_eq!(attachment_dir(&p.attach_dir, 42), "/home/u/.local/share/mesai/attachments/42");
}

#[test]
fn tilde_expansion() {
    assert_eq!(expand_tilde_with("~/proje/main.c", Some("/home/u".to_string())), "/home/u/proje/main.c");
    assert_eq!(expand_tilde_with("~/proje/main.c", None), "~/proje/main.c");
    assert_eq!(expand_tilde_with("/abs/x", Some("/home/u".to_string())), "/abs/x");
    assert_eq!(expand_tilde_with("~x", Some("/home/u".to_string())), "~x");
}

#[test]
fn export_folder_choice() {
    assert_eq!(choose_export_dir(Some("/d".to_string()), true, Some("/h".to_string())), "/d");
    assert_eq!(choose_export_dir(Some("/d".to_string()), false, Some("/h".to_string())), "/h");
    assert_eq!(choose_export_dir(None, false, None), ".");
}

#[test]
fn candidate_names() {
    assert_eq!(candidate_name("main.c", 0), "main.c");
    assert_eq!(candidate_name("main.c", 1), "main_1.c");
    assert_eq!(candidate_name("arch.tar.gz", 2), "arch.tar_2.gz");
    assert_eq!(candidate_name(".bashrc", 3), ".bashrc_3");
    assert_eq!(candidate_name("Makefile", 12), "Makefile_12");
    assert_eq!(candidate_name("foo.", 1), "foo_1.");
    assert_eq!(candidate_name("", 1), "ek_1");
}

#[test]
fn attachment_goes_to_first_free_name() {
    let a = attachment_target("/nonexistent-mesai-dir/7", "/home/u/src/main.c").0.unwrap();
    assert_eq!(a.file_name, "main.c");
    assert_eq!(a.path, "/nonexistent-mesai-dir/7/main.c");
    let b = attachment_target("/nonexistent-mesai-dir/7", "/").0.unwrap();
    assert_eq!(b.file_name, "ek");
}

#[test]
fn manual_path_messages() {
    let mut list: Vec<String> = Vec::new();
    let mut input = "   ".to_string();
    assert_eq!(add_manual_path(&mut list, &mut input), "Type a file path first.");
    assert_eq!(input, "   ");
    let mut input = " /definitely/not/here.c ".to_string();
    assert_eq!(add_manual_path(&mut list, &mut input), "File not found: /definitely/not/here.c");
    assert_eq!(
        add_manual_path_in(Language::Turkish, &mut list, &mut input),
        "Dosya bulunamadı: /definitely/not/here.c"
    );
    let mut blank = String::new();
    assert_eq!(add_manual_path_in(Language::Turkish, &mut list, &mut blank), "Önce bir dosya yolu yaz.");
    assert!(list.is_empty());
    assert_eq!(input, " /definitely/not/here.c ");
    let mut input = "x".to_string();
    let msg = record_manual_path(Language::Turkish, &mut list, &mut input, "/tmp/a.c".to_string(), true);
    assert_eq!(msg, "Eklendi: /tmp/a.c");
    assert_eq!(list, vec!["/tmp/a.c".to_string()]);
    assert_eq!(input, "");
}

#[test]
fn target_step_uses_a_free_candidate() {
    match target_step("a_2.c".to_string(), "/d/a_2.c".to_string(), 2, false) {
        TargetStep::Use(a) => {
            assert_eq!(a.file_name, "a_2.c");
            assert_eq!(a.path, "/d/a_2.c");
        }
        _ => panic!("a free candidate is used"),
    }
}

#[test]
fn target_step_moves_past_a_taken_candidate() {
    assert!(matches!(
        target_step("a.c".to_string(), "/d/a.c".to_string(), 0, true),
        TargetStep::Try(1)
    ));
    assert!(matches!(
        target_step("a_9.c".to_string(), "/d/a_9.c".to_string(), 2147483647, true),
        TargetStep::GiveUp
    ));
}

#[test]
fn paths_under_the_data_folder_or_here() {
    let p = paths_for(Some("/home/u/.local/share".to_string()));
    assert_eq!(p.data_dir, "/home/u/.local/share/mesai");
    assert_eq!(p.db_file, "/home/u/.local/share/mesai/data.json");
    assert_eq!(p.attach_dir, "/home/u/.local/share/mesai/attachments");
    let q = paths_for(None);
    assert_eq!(q.data_dir, "./mesai");
    assert_eq!(q.db_file, "./mesai/data.json");
}

#[test]
fn attachment_skips_a_taken_name() {
    // "/tmp" exists, so the copy of a file named "tmp" goes to "/tmp_1".
    let (a, _) = attachment_target("/", "/somewhere/tmp");
    let a = a.unwrap();
    assert_eq!(a.file_name, "tmp_1");
    assert_eq!(a.path, "/tmp_1");
}

#[test]
fn first_free_name_after_taken_ones() {
    let taken = |p: &str| p == "/d/a.c" || p == "/d/a_1.c";
    let (a, _) = first_free_target("/d", "a.c", taken);
    let a = a.unwrap();
    assert_eq!(a.file_name, "a_2.c");
    assert_eq!(a.path, "/d/a_2.c");
    let (b, _) = first_free_target("/d", "b.c", taken);
    assert_eq!(b.unwrap().file_name, "b.c");
}

#[test]
fn file_names_as_path_file_name_reads_them() {
    let name = |src: &str| attachment_target("/nonexistent-mesai-dir/1", src).0.unwrap().file_name;
    assert_eq!(name("/a/b/"), "b");
    assert_eq!(name("/a/b/."), "b");
    assert_eq!(name("./x.c"), "x.c");
    assert_eq!(name("a//b.txt"), "b.txt");
    assert_eq!(name("/a/.."), "ek");
    assert_eq!(name("."), "ek");
    assert_eq!(name(""), "ek");
}
