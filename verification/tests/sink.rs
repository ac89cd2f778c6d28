use logroll::clock::Timestamp;
use logroll::config::{parse_descriptor, ConfigError, Descriptor};
use logroll::plan::{Move, Probe};
use logroll::sink::{LogFile, Policy};
use logroll::size::SizeRotatePolicy;

// 2024-01-31 14:30:00 UTC
const SEED: i64 = 1_706_711_400;

fn at(secs: i64) -> Timestamp {
    Timestamp { secs, nanos: 0 }
}

fn probe(now: i64, file_len: u64, existing: &[&str]) -> Probe {
    Probe { now: at(now), file_len, existing: existing.iter().map(|s| s.to_string()).collect() }
}

fn shown(moves: &[Move]) -> Vec<String> {
    moves
        .iter()
        .map(|m| match m {
            Move::Remove { path } => format!("rm {}", path),
            Move::Rename { from, to } => format!("mv {} {}", from, to),
        })
        .collect()
}

#[test]
fn new_sink_is_closed() {
    let log = LogFile::new("app.log".to_string(), SizeRotatePolicy::new(10, 1));
    assert!(!log.opened);
    assert!(!log.flush());
    assert_eq!(log.log_file, "app.log");
    assert_eq!(log.policy.max_file_size, 10);
}

#[test]
fn open_marks_the_handle() {
    let mut log = LogFile::new("app.log".to_string(), SizeRotatePolicy::new(10, 1));
    log.open();
    assert!(log.opened);
    assert!(log.flush());
    assert_eq!(log.log_file, "app.log");
}

#[test]
fn write_without_a_handle_writes_nothing() {
    let mut log = LogFile::new("app.log".to_string(), SizeRotatePolicy::new(10, 1));
    let plan = log.write(100, &probe(SEED, 100, &["app.log"]));
    assert!(!plan.write);
    assert!(!plan.reopen);
    assert!(plan.rotation.moves.is_empty());
    assert_eq!(plan.rotation.prune, None);
}

#[test]
fn write_below_the_limit_only_writes() {
    let mut log = LogFile::new("app.log".to_string(), SizeRotatePolicy::new(10, 1));
    log.open();
    let plan = log.write(3, &probe(SEED, 6, &["app.log"]));
    assert!(plan.write);
    assert!(!plan.reopen);
    assert!(plan.rotation.moves.is_empty());
}

#[test]
fn write_at_the_limit_rotates_reopens_and_writes() {
    let mut log = LogFile::new("app.log".to_string(), SizeRotatePolicy::new(10, 1));
    log.open();
    let plan = log.write(4, &probe(SEED, 6, &["app.log", "app.log.1"]));
    assert_eq!(shown(&plan.rotation.moves), vec!["mv app.log app.log.1"]);
    assert!(plan.reopen);
    assert!(plan.write);
    assert!(log.opened);
}

#[test]
fn try_rotate_asks_the_policy_only_with_a_handle() {
    let mut log = LogFile::new("app.log".to_string(), SizeRotatePolicy::new(10, 2));
    assert!(!log.try_rotate(50, &probe(SEED, 0, &["app.log"])).is_rotated());
    log.open();
    let r = log.try_rotate(50, &probe(SEED, 0, &["app.log", "app.log.1"]));
    assert_eq!(shown(&r.moves), vec!["mv app.log.1 app.log.2", "mv app.log app.log.1"]);
}

#[test]
fn size_descriptor_round_trip() {
    let log = LogFile::from_str("size:1024:2:/tmp/a.log", at(SEED), at(SEED)).ok().unwrap();
    assert_eq!(log.log_file, "/tmp/a.log");
    assert!(!log.opened);
    match log.policy {
        Policy::Size(p) => {
            assert_eq!(p.max_file_size, 1024);
            assert_eq!(p.max_backup, 2);
        }
        Policy::Timed(_) => panic!("a size policy was asked for"),
    }
}

#[test]
fn unknown_policy_fails() {
    let r = LogFile::from_str("foo:1:2:3", at(SEED), at(SEED));
    assert_eq!(r.err(), Some(ConfigError::UnknownType));
    assert_eq!(ConfigError::UnknownType.message(), "unknown log type");
    assert_eq!(LogFile::from_str("", at(SEED), at(SEED)).err(), Some(ConfigError::UnknownType));
    assert_eq!(LogFile::from_str("SIZE:1:2:a", at(SEED), at(SEED)).err(), Some(ConfigError::UnknownType));
}

#[test]
fn time_descriptor_builds_a_timed_policy() {
    let log = LogFile::from_str("time:7:d:u:5:/tmp.log", at(SEED), at(SEED + 9)).ok().unwrap();
    assert_eq!(log.log_file, "/tmp.log");
    match log.policy {
        Policy::Timed(p) => {
            assert_eq!(p.duration, 7 * 86_400);
            assert_eq!(p.format, "%Y%m%d");
            assert_eq!(p.max_backup, 5);
            assert!(p.utc);
            assert!(!p.midnight);
            assert_eq!(p.rollover_at, at(SEED + 7 * 86_400));
            assert_eq!(p.check_time, at(SEED + 9));
        }
        Policy::Size(_) => panic!("a timed policy was asked for"),
    }
}

#[test]
fn time_descriptor_with_midnight_and_local_zone() {
    let log = LogFile::from_str("time:0:Midnight:local:1:app.log", at(SEED), at(SEED)).ok().unwrap();
    match log.policy {
        Policy::Timed(p) => {
            assert!(p.midnight);
            assert!(!p.utc);
            assert_eq!(p.duration, 86_400);
            assert!(p.rollover_at.secs > SEED && p.rollover_at.secs <= SEED + 86_400);
        }
        Policy::Size(_) => panic!("a timed policy was asked for"),
    }
}

#[test]
fn timed_sink_rotates_through_write() {
    let mut log = LogFile::from_str("time:1:H:UTC:2:app.log", at(SEED), at(SEED)).ok().unwrap();
    log.open();
    let plan = log.write(5, &probe(SEED + 1800, 0, &["app.log"]));
    assert!(plan.rotation.moves.is_empty());
    assert!(plan.write && !plan.reopen);
    let plan = log.write(5, &probe(SEED + 3600, 0, &["app.log"]));
    assert_eq!(shown(&plan.rotation.moves), vec!["mv app.log app.log.2024013114"]);
    assert_eq!(plan.rotation.prune, Some(2));
    assert!(plan.reopen && plan.write);
}

#[test]
fn parse_descriptor_reads_both_forms() {
    match parse_descriptor("size:100000:5:/tmp.log") {
        Ok(Descriptor::Size { max_file_size, max_backup, path }) => {
            assert_eq!((max_file_size, max_backup, path.as_str()), (100_000, 5, "/tmp.log"));
        }
        _ => panic!("no size descriptor"),
    }
    match parse_descriptor("time:7:midnight:Utc:5:/tmp.log:ignored") {
        Ok(Descriptor::Time { interval, when, utc, max_backup, path }) => {
            assert_eq!(interval, 7);
            assert_eq!(when, "MIDNIGHT");
            assert_eq!(utc, "UTC");
            assert_eq!(max_backup, 5);
            assert_eq!(path, "/tmp.log");
        }
        _ => panic!("no time descriptor"),
    }
    let d = parse_descriptor("size:1:2:a.log").ok().unwrap();
    assert_eq!(d.path(), "a.log");
}

#[test]
fn parse_descriptor_names_each_error() {
    let err = |s: &str| parse_descriptor(s).err();
    assert_eq!(err("foo:1:2:3"), Some(ConfigError::UnknownType));
    assert_eq!(err("size:1:2"), Some(ConfigError::MissingField));
    assert_eq!(err("size"), Some(ConfigError::MissingField));
    assert_eq!(err("time:1:D:U:5"), Some(ConfigError::MissingField));
    assert_eq!(err("size:x:2:a.log"), Some(ConfigError::BadNumber));
    assert_eq!(err("size:1:-2:a.log"), Some(ConfigError::BadNumber));
    assert_eq!(err("size:18446744073709551616:2:a.log"), Some(ConfigError::BadNumber));
    assert_eq!(err("size:1:4294967296:a.log"), Some(ConfigError::BadNumber));
    assert_eq!(err("time:x:D:U:5:a.log"), Some(ConfigError::BadNumber));
    assert_eq!(err("time:1:D:U:x:a.log"), Some(ConfigError::BadNumber));
    assert_eq!(err("time:1:W:U:5:a.log"), Some(ConfigError::UnknownUnit));
    assert_eq!(err("time:0:D:U:5:a.log"), Some(ConfigError::ZeroInterval));
    assert_eq!(err("size:1:2:"), Some(ConfigError::BadPath));
    assert_eq!(err("size:1:2:/tmp/"), Some(ConfigError::BadPath));
    assert_eq!(err("time:1:D:U:5:"), Some(ConfigError::BadPath));
}

#[test]
fn error_messages() {
    assert_eq!(ConfigError::MissingField.message(), "missing field");
    assert_eq!(ConfigError::BadNumber.message(), "invalid number");
    assert_eq!(ConfigError::UnknownUnit.message(), "rotate unknown type");
    assert_eq!(ConfigError::ZeroInterval.message(), "interval is zero");
    assert_eq!(ConfigError::BadPath.message(), "path names no file");
}

#[test]
fn policies_built_by_the_library_are_well_formed() {
    let log = LogFile::from_str("time:1:S:L:0:a", at(SEED), at(SEED)).ok().unwrap();
    assert!(log.policy.is_well_formed());
    assert!(Policy::Size(SizeRotatePolicy::new(0, 0)).is_well_formed());
}
