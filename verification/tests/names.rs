use logroll::names::{get_log_names, names_file, next_backup_path, timed_file_name};

#[test]
fn log_names_of_path_with_directory_and_extension() {
    let n = get_log_names("/tmp/app.log");
    assert_eq!(n.parent, "/tmp/");
    assert_eq!(n.name, "app");
    assert_eq!(n.ext, "log");
}

#[test]
fn log_names_without_extension() {
    let n = get_log_names("app");
    assert_eq!(n.parent, "");
    assert_eq!(n.name, "app");
    assert_eq!(n.ext, "");
}

#[test]
fn log_names_of_hidden_file_and_trailing_dot() {
    let n = get_log_names("dir/.profile");
    assert_eq!(n.parent, "dir/");
    assert_eq!(n.name, ".profile");
    assert_eq!(n.ext, "");
    let n = get_log_names("foo.");
    assert_eq!(n.name, "foo.");
    assert_eq!(n.ext, "");
}

#[test]
fn names_file_rejects_empty_file_name() {
    assert!(names_file("a.log"));
    assert!(names_file("/a"));
    assert!(!names_file(""));
    assert!(!names_file("/tmp/"));
}

#[test]
fn next_backup_counts_up_to_the_limit() {
    assert_eq!(next_backup_path("app.log", 3), Some("app.log.1".to_string()));
    assert_eq!(next_backup_path("app.log", 0), Some("app.log.1".to_string()));
    assert_eq!(next_backup_path("app.log.1", 3), Some("app.log.2".to_string()));
    assert_eq!(next_backup_path("app.log.2", 3), Some("app.log.3".to_string()));
    assert_eq!(next_backup_path("app.log.3", 3), None);
    assert_eq!(next_backup_path("/var/log/app.9", 12), Some("/var/log/app.10".to_string()));
    assert_eq!(next_backup_path("app", 2), Some("app.1".to_string()));
    assert_eq!(next_backup_path("app.1", 2), Some("app.2".to_string()));
    assert_eq!(next_backup_path("app.4294967295", 4294967295), None);
}

#[test]
fn timed_file_name_appends_the_stamp() {
    assert_eq!(timed_file_name("/tmp/app.log", "20240131"), "/tmp/app.log.20240131");
    assert_eq!(timed_file_name("app", "2024013112"), "app..2024013112");
}
