use logroll::clock::Timestamp;
use logroll::plan::{Move, Probe, RotatePolicy};
use logroll::timed::{timed_moves_for, unit_known, TimedRotatePolicy};

// 2024-01-31 14:30:00 UTC
const SEED: i64 = 1_706_711_400;
// 2024-02-01 00:00:00 UTC
const MIDNIGHT: i64 = 1_706_745_600;

fn at(secs: i64) -> Timestamp {
    Timestamp { secs, nanos: 0 }
}

fn strings(items: &[&str]) -> Vec<String> {
    items.iter().map(|s| s.to_string()).collect()
}

fn probe(now: Timestamp, existing: &[&str]) -> Probe {
    Probe { now, file_len: 0, existing: strings(existing) }
}

fn shown(moves: &[Move]) -> Vec<String> {
    moves
        .iter()
        .map(|m| match m {
            Move::Remove { path } => format!("rm {}", path),
            Move::Rename { from, to } => format!("mv {} {}", from, to),
        })
        .collect()
}

#[test]
fn unit_known_knows_the_five_units() {
    for u in ["S", "M", "H", "D", "MIDNIGHT"] {
        assert!(unit_known(u));
    }
    for u in ["", "s", "W", "DAY", "midnight"] {
        assert!(!unit_known(u));
    }
}

#[test]
fn new_sets_period_and_format_by_unit() {
    let cases = [
        ("S", 1u64, "%Y%m%d%H%M%S"),
        ("M", 60, "%Y%m%d%H%M"),
        ("H", 3600, "%Y%m%d%H"),
        ("D", 86_400, "%Y%m%d"),
    ];
    for (unit, secs, format) in cases {
        let p = TimedRotatePolicy::new(7, unit, "UTC", 5, at(SEED), at(SEED + 3));
        assert_eq!(p.duration, 7 * secs);
        assert_eq!(p.format, format);
        assert!(!p.midnight);
        assert!(p.utc);
        assert_eq!(p.max_backup, 5);
        assert_eq!(p.check_time, at(SEED + 3));
        assert_eq!(p.rollover_at, at(SEED + 7 * secs as i64));
    }
}

#[test]
fn new_reads_the_zone_token() {
    assert!(TimedRotatePolicy::new(1, "D", "U", 1, at(SEED), at(SEED)).utc);
    assert!(TimedRotatePolicy::new(1, "D", "UTC", 1, at(SEED), at(SEED)).utc);
    assert!(!TimedRotatePolicy::new(1, "D", "L", 1, at(SEED), at(SEED)).utc);
    assert!(!TimedRotatePolicy::new(1, "D", "LOCAL", 1, at(SEED), at(SEED)).utc);
    assert!(!TimedRotatePolicy::new(1, "D", "utc", 1, at(SEED), at(SEED)).utc);
}

#[test]
fn new_with_the_longest_period() {
    let p = TimedRotatePolicy::new(u32::MAX, "D", "U", 1, at(253_402_300_799), at(SEED));
    assert_eq!(p.duration, 371_085_174_288_000);
    assert_eq!(p.rollover_at.secs, 253_402_300_799 + 371_085_174_288_000);
}

#[test]
fn midnight_in_utc_rolls_over_at_the_next_midnight() {
    for interval in [0u32, 1, 7, u32::MAX] {
        let p = TimedRotatePolicy::new(interval, "MIDNIGHT", "U", 3, at(SEED), at(SEED));
        assert!(p.midnight);
        assert_eq!(p.duration, 86_400);
        assert_eq!(p.format, "%Y%m%d");
        assert_eq!(p.rollover_at, at(MIDNIGHT));
        assert_eq!(p.rollover_at.secs - SEED, 9 * 3600 + 30 * 60);
    }
}

#[test]
fn midnight_rollover_from_a_clock_reading() {
    let seed = Timestamp { secs: SEED, nanos: 250 };
    let r = TimedRotatePolicy::midnight_rollover(seed, 14, 30, 0);
    assert_eq!(r, Timestamp { secs: SEED + 34_200, nanos: 250 });
    assert_eq!(TimedRotatePolicy::midnight_rollover(at(0), 0, 0, 0), at(86_400));
    assert_eq!(TimedRotatePolicy::midnight_rollover(at(0), 23, 59, 59), at(1));
}

#[test]
fn compute_rollover_in_utc() {
    assert_eq!(TimedRotatePolicy::compute_rollover(at(SEED), true, false, 60), at(SEED + 60));
    assert_eq!(TimedRotatePolicy::compute_rollover(at(SEED), true, true, 60), at(MIDNIGHT));
    assert_eq!(TimedRotatePolicy::compute_rollover(at(MIDNIGHT), true, true, 86_400), at(MIDNIGHT + 86_400));
    assert_eq!(TimedRotatePolicy::compute_rollover(at(MIDNIGHT - 1), true, true, 86_400), at(MIDNIGHT));
    // Before the epoch the day is counted the same way.
    assert_eq!(TimedRotatePolicy::compute_rollover(at(-1), true, true, 86_400), at(0));
    assert_eq!(TimedRotatePolicy::compute_rollover(at(-86_400), true, true, 86_400), at(0));
}

#[test]
fn compute_rollover_in_the_local_zone_comes_within_a_day() {
    for secs in [0, SEED, MIDNIGHT, -62_135_596_800, 253_402_300_799] {
        let r = TimedRotatePolicy::compute_rollover(at(secs), false, true, 86_400);
        assert!(r.secs > secs && r.secs <= secs + 86_400, "{}", secs);
        assert_eq!(r.nanos, 0);
        assert_eq!(TimedRotatePolicy::compute_rollover(at(secs), false, false, 5), at(secs + 5));
    }
}

#[test]
fn timed_filename_is_named_for_the_running_period() {
    let p = TimedRotatePolicy::new(1, "D", "U", 3, at(SEED), at(SEED));
    assert_eq!(p.get_timed_filename("/var/log/app.log"), "/var/log/app.log.20240131");
    let p = TimedRotatePolicy::new(1, "H", "U", 3, at(SEED), at(SEED));
    assert_eq!(p.get_timed_filename("app.log"), "app.log.2024013114");
    let p = TimedRotatePolicy::new(1, "M", "U", 3, at(SEED), at(SEED));
    assert_eq!(p.get_timed_filename("app.log"), "app.log.202401311430");
    let p = TimedRotatePolicy::new(1, "S", "U", 3, at(SEED), at(SEED));
    assert_eq!(p.get_timed_filename("app.log"), "app.log.20240131143000");
    let p = TimedRotatePolicy::new(1, "MIDNIGHT", "U", 3, at(SEED), at(SEED));
    assert_eq!(p.get_timed_filename("app.log"), "app.log.20240131");
    assert_eq!(p.period_stamp(), "20240131");
}

#[test]
fn timed_filename_in_the_local_zone_has_the_prefix_and_a_date() {
    let p = TimedRotatePolicy::new(1, "D", "L", 3, at(SEED), at(SEED));
    let name = p.get_timed_filename("app.log");
    let stamp = name.strip_prefix("app.log.").unwrap();
    assert_eq!(stamp.len(), 8);
    assert!(stamp.chars().all(|c| c.is_ascii_digit()));
    assert!(stamp == "20240131" || stamp == "20240201" || stamp == "20240130");
}

#[test]
fn timed_filename_at_the_edges_of_the_calendar() {
    let p = TimedRotatePolicy::new(1, "MIDNIGHT", "U", 3, at(-62_135_596_800), at(SEED));
    assert_eq!(p.get_timed_filename("a"), "a..00010101");
    let p = TimedRotatePolicy::new(1, "S", "U", 3, at(253_402_300_799), at(SEED));
    assert_eq!(p.get_timed_filename("a.b"), "a.b.99991231235959");
}

#[test]
fn timed_moves_clear_the_backup_path_first() {
    let existing = strings(&["app.log", "app.log.20240131"]);
    assert_eq!(
        shown(&timed_moves_for("app.log", "app.log.20240131".to_string(), &existing)),
        vec!["rm app.log.20240131", "mv app.log app.log.20240131"]
    );
    assert_eq!(
        shown(&timed_moves_for("app.log", "app.log.20240130".to_string(), &existing)),
        vec!["mv app.log app.log.20240130"]
    );
}

#[test]
fn timed_rotate_waits_for_the_boundary() {
    let mut p = TimedRotatePolicy::new(1, "D", "U", 3, at(SEED), at(SEED));
    let r = p.timed_rotate(at(SEED + 86_399), "app.log", &strings(&["app.log"]));
    assert!(r.moves.is_empty());
    assert_eq!(r.prune, None);
    assert_eq!(p.rollover_at, at(SEED + 86_400));
}

#[test]
fn timed_rotate_needs_the_file() {
    let mut p = TimedRotatePolicy::new(1, "D", "U", 3, at(SEED), at(SEED));
    let r = p.timed_rotate(at(SEED + 90_000), "app.log", &strings(&["other.log"]));
    assert!(r.moves.is_empty());
    assert_eq!(p.rollover_at, at(SEED + 86_400));
}

#[test]
fn timed_rotate_at_the_boundary() {
    let mut p = TimedRotatePolicy::new(1, "D", "U", 3, at(SEED), at(SEED));
    let now = at(SEED + 86_400);
    let r = p.timed_rotate(now, "app.log", &strings(&["app.log"]));
    assert_eq!(shown(&r.moves), vec!["mv app.log app.log.20240131"]);
    assert_eq!(r.prune, Some(3));
    assert!(r.is_rotated());
    assert_eq!(p.rollover_at, at(SEED + 2 * 86_400));
}

#[test]
fn timed_rotate_after_a_long_pause_names_the_period_that_ran() {
    let mut p = TimedRotatePolicy::new(1, "H", "U", 2, at(SEED), at(SEED));
    let now = Timestamp { secs: SEED + 10 * 86_400, nanos: 5 };
    let r = p.timed_rotate(now, "app.log", &strings(&["app.log", "app.log.2024013114"]));
    assert_eq!(shown(&r.moves), vec!["rm app.log.2024013114", "mv app.log app.log.2024013114"]);
    assert_eq!(r.prune, Some(2));
    assert_eq!(p.rollover_at, Timestamp { secs: SEED + 10 * 86_400 + 3600, nanos: 5 });
    assert_eq!(p.get_timed_filename("app.log"), "app.log.2024021014");
}

#[test]
fn timed_rotate_at_midnight() {
    let mut p = TimedRotatePolicy::new(1, "MIDNIGHT", "U", 3, at(SEED), at(SEED));
    let now = at(MIDNIGHT + 5);
    let r = p.timed_rotate(now, "app.log", &strings(&["app.log"]));
    assert_eq!(shown(&r.moves), vec!["mv app.log app.log.20240131"]);
    assert_eq!(p.rollover_at, at(MIDNIGHT + 86_400));
    assert_eq!(p.get_timed_filename("app.log"), "app.log.20240201");
}

#[test]
fn remove_old_backup_deletes_the_oldest() {
    let found = strings(&[
        "app.log.20240103",
        "app.log.20240101",
        "app.log.20240105",
        "app.log.20240102",
        "app.log.20240104",
    ]);
    assert_eq!(
        TimedRotatePolicy::remove_old_backup(&found, 3),
        strings(&["app.log.20240101", "app.log.20240102"])
    );
}

#[test]
fn remove_old_backup_at_the_edges() {
    let found = strings(&["b", "a", "c"]);
    assert_eq!(TimedRotatePolicy::remove_old_backup(&found, 3), Vec::<String>::new());
    assert_eq!(TimedRotatePolicy::remove_old_backup(&found, 4), Vec::<String>::new());
    assert_eq!(TimedRotatePolicy::remove_old_backup(&found, 0), strings(&["a", "b", "c"]));
    assert_eq!(TimedRotatePolicy::remove_old_backup(&found, 2), strings(&["a"]));
    assert_eq!(TimedRotatePolicy::remove_old_backup(&Vec::new(), 0), Vec::<String>::new());
}

#[test]
fn five_rotations_keep_three_backups() {
    let mut p = TimedRotatePolicy::new(1, "D", "U", 3, at(SEED), at(SEED));
    let mut existing: Vec<String> = Vec::new();
    let mut now = at(SEED);
    for _ in 0..5 {
        now = at(now.secs + 86_400);
        existing.push("app.log".to_string());
        let r = p.rotate(1, "app.log", &Probe { now, file_len: 0, existing: existing.clone() });
        assert!(r.is_rotated());
        for m in &r.moves {
            match m {
                Move::Remove { path } => existing.retain(|e| e != path),
                Move::Rename { from, to } => {
                    existing.retain(|e| e != from && e != to);
                    existing.push(to.clone());
                }
            }
        }
        let found: Vec<String> =
            existing.iter().filter(|e| e.starts_with("app.log.")).cloned().collect();
        let keep = r.prune.unwrap() as usize;
        for gone in TimedRotatePolicy::remove_old_backup(&found, keep) {
            existing.retain(|e| *e != gone);
        }
    }
    existing.sort();
    assert_eq!(existing, strings(&["app.log.20240202", "app.log.20240203", "app.log.20240204"]));
}

#[test]
fn rotate_looks_at_most_once_a_second() {
    let mut p = TimedRotatePolicy::new(1, "D", "U", 3, at(SEED), at(SEED));
    let due = SEED + 86_400;
    // Less than a second after the last look: not even a look.
    p.check_time = Timestamp { secs: due, nanos: 500_000_000 };
    let now = Timestamp { secs: due + 1, nanos: 499_999_999 };
    let r = p.rotate(1, "app.log", &probe(now, &["app.log"]));
    assert!(!r.is_rotated());
    assert_eq!(p.check_time, Timestamp { secs: due, nanos: 500_000_000 });
    assert_eq!(p.rollover_at, at(due));
    // A full second after it: the look is noted and the file is rotated.
    let now = Timestamp { secs: due + 1, nanos: 500_000_000 };
    let r = p.rotate(1, "app.log", &probe(now, &["app.log"]));
    assert!(r.is_rotated());
    assert_eq!(shown(&r.moves), vec!["mv app.log app.log.20240131"]);
    assert_eq!(p.check_time, now);
    // Right after it nothing happens.
    let soon = Timestamp { secs: due + 2, nanos: 499_999_999 };
    let r = p.rotate(1, "app.log", &probe(soon, &["app.log"]));
    assert!(!r.is_rotated());
    assert_eq!(p.check_time, now);
}

#[test]
fn rotate_notes_the_look_even_before_the_boundary() {
    let mut p = TimedRotatePolicy::new(1, "D", "U", 3, at(SEED), at(SEED));
    let r = p.rotate(1, "app.log", &probe(at(SEED + 10), &["app.log"]));
    assert!(r.moves.is_empty());
    assert_eq!(p.check_time, at(SEED + 10));
    assert_eq!(p.rollover_at, at(SEED + 86_400));
}

#[test]
fn rotate_with_a_clock_that_went_back_does_nothing() {
    let mut p = TimedRotatePolicy::new(1, "S", "U", 3, at(SEED), at(SEED + 100));
    let r = p.rotate(1, "app.log", &probe(at(SEED + 50), &["app.log"]));
    assert!(r.moves.is_empty());
    assert_eq!(p.check_time, at(SEED + 100));
}

#[test]
fn calls_a_second_apart_rotate_once_each_at_most() {
    let mut p = TimedRotatePolicy::new(1, "S", "U", 3, at(SEED), at(SEED));
    let mut now = SEED;
    for _ in 0..4 {
        now += 1;
        let r = p.rotate(1, "app.log", &probe(at(now), &["app.log"]));
        let renames = r.moves.iter().filter(|m| matches!(m, Move::Rename { .. })).count();
        assert_eq!(renames, 1);
        assert_eq!(p.rollover_at, at(now + 1));
    }
}

#[test]
fn well_formed_policies_and_broken_ones() {
    let p = TimedRotatePolicy::new(1, "D", "U", 3, at(SEED), at(SEED));
    assert!(p.is_well_formed());
    let mut q = TimedRotatePolicy::new(1, "D", "U", 3, at(SEED), at(SEED));
    q.duration = 0;
    assert!(!q.is_well_formed());
    let mut q = TimedRotatePolicy::new(1, "D", "U", 3, at(SEED), at(SEED));
    q.format = "%s".to_string();
    assert!(!q.is_well_formed());
    let mut q = TimedRotatePolicy::new(1, "MIDNIGHT", "U", 3, at(SEED), at(SEED));
    q.duration = 60;
    assert!(!q.is_well_formed());
    let mut q = TimedRotatePolicy::new(1, "D", "U", 3, at(SEED), at(SEED));
    q.rollover_at = Timestamp { secs: i64::MIN, nanos: 0 };
    assert!(!q.is_well_formed());
    let mut q = TimedRotatePolicy::new(1, "D", "U", 3, at(SEED), at(SEED));
    q.check_time = Timestamp { secs: 0, nanos: 1_000_000_000 };
    assert!(!q.is_well_formed());
}

#[test]
fn the_boundary_never_moves_back() {
    let mut p = TimedRotatePolicy::new(2, "H", "U", 3, at(SEED), at(SEED));
    let mut last = p.rollover_at;
    for step in [1i64, 1, 7200, 1, 100_000, 3, 7199, 1] {
        let now = at(p.check_time.secs + step);
        let r = p.rotate(1, "app.log", &probe(now, &["app.log"]));
        assert!(!last.is_after(&p.rollover_at));
        if r.is_rotated() {
            assert!(p.rollover_at.is_after(&now));
        } else {
            assert_eq!(p.rollover_at, last);
        }
        last = p.rollover_at;
    }
}
