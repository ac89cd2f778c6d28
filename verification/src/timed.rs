//! Rotation by time: at each boundary the file is renamed for the period it
//! covers, and old backups are pruned.

use crate::clock::{
    local_format, local_time_of_day, second_of_day, utc_format, utc_stamp, utc_time_of_day,
    Timestamp, is_stamp_format, FIRST_STAMP_SECOND, LAST_SECOND, NANOS_PER_SECOND,
    SECONDS_PER_DAY,
};
use crate::names::{is_log_path, timed_file_name, timed_name};
use crate::plan::{moves_view, Move, MoveView, Probe, RotatePolicy, Rotation};
use crate::text::{contains_text, same_text, sort_texts, sorted_texts, texts};
use vstd::prelude::*;

verus! {

/// The longest period: as many days as a `u32` counts.
pub const MAX_DURATION: u64 = 371_085_174_288_000;

/// The seconds of one unit of time, for the units `S`, `M`, `H`, `D` and
/// `MIDNIGHT`.
pub open spec fn unit_seconds(when: Seq<char>) -> Option<nat> {
    if when == "S"@ {
        Some(1)
    } else if when == "M"@ {
        Some(60)
    } else if when == "H"@ {
        Some(3600)
    } else if when == "D"@ || when == "MIDNIGHT"@ {
        Some(86_400)
    } else {
        None
    }
}

/// The format in which a unit's periods are written: down to the second, the
/// minute, the hour or the day.
pub open spec fn unit_format(when: Seq<char>) -> Seq<char> {
    if when == "S"@ {
        "%Y%m%d%H%M%S"@
    } else if when == "M"@ {
        "%Y%m%d%H%M"@
    } else if when == "H"@ {
        "%Y%m%d%H"@
    } else {
        "%Y%m%d"@
    }
}

/// The unit that rotates at midnight.
pub open spec fn is_midnight(when: Seq<char>) -> bool {
    when == "MIDNIGHT"@
}

/// The length of a period in seconds. At midnight the count of units is not
/// looked at: the period is the day.
pub open spec fn period_seconds(interval: nat, when: Seq<char>) -> nat {
    if is_midnight(when) {
        86_400
    } else {
        unit_seconds(when).unwrap() * interval
    }
}

/// The time zone tokens that select UTC. Every other token selects the
/// machine's time zone.
pub open spec fn is_utc_token(zone: Seq<char>) -> bool {
    zone == "U"@ || zone == "UTC"@
}

/// The seconds from a clock reading to the next midnight.
pub open spec fn midnight_delta(hour: int, minute: int, second: int) -> int {
    86_400 - ((hour * 60 + minute) * 60 + second)
}

/// `r` is the first rollover after `seed`. Off midnight it lies one period
/// after `seed`. At midnight in UTC it is the next midnight. At midnight in
/// the machine's time zone it is what that zone's clock gives: at least one
/// second and at most a day after `seed`.
pub open spec fn is_rollover(
    seed: Timestamp,
    utc: bool,
    midnight: bool,
    duration: nat,
    r: Timestamp,
) -> bool {
    if !midnight {
        r == seed.plus(duration as int)
    } else if utc {
        r == seed.plus(86_400 - second_of_day(seed.secs as int))
    } else {
        r.nanos == seed.nanos && 1 <= r.secs - seed.secs <= 86_400
    }
}

/// The moves of a timed rotation: what lies at the backup's path is deleted,
/// then the file is renamed to it.
pub open spec fn timed_moves(path: Seq<char>, backup: Seq<char>, existing: Set<Seq<char>>) -> Seq<
    MoveView,
> {
    let clear = if existing.contains(backup) {
        seq![MoveView::Remove { path: backup }]
    } else {
        Seq::empty()
    };
    clear.push(MoveView::Rename { from: path, to: backup })
}

/// The backups to delete so that `keep` are left: the first of the sorted
/// list, which are the oldest.
pub open spec fn excess(paths: Seq<Seq<char>>, keep: nat) -> Seq<Seq<char>> {
    if paths.len() > keep {
        sorted_texts(paths).take(paths.len() - keep)
    } else {
        Seq::empty()
    }
}

/// Rotates a file when a boundary in time has passed.
pub struct TimedRotatePolicy {
    /// The next boundary.
    pub rollover_at: Timestamp,
    /// The length of a period, in seconds.
    pub duration: u64,
    /// The format in which a period is written into a backup's name.
    pub format: String,
    /// How many backups are kept.
    pub max_backup: u32,
    /// When the boundary was last looked at.
    pub check_time: Timestamp,
    /// Whether the boundary is midnight.
    pub midnight: bool,
    /// Whether the calendar is that of UTC; else that of the machine.
    pub utc: bool,
}

/// Whether `when` is one of the units.
pub fn unit_known(when: &str) -> (r: bool)
    ensures
        r == unit_seconds(when@).is_some(),
{
    same_text(when, "S") || same_text(when, "M") || same_text(when, "H") || same_text(when, "D")
        || same_text(when, "MIDNIGHT")
}

/// The moves of a timed rotation to `backup`.
pub fn timed_moves_for(path: &str, backup: String, existing: &Vec<String>) -> (moves: Vec<Move>)
    ensures
        moves_view(moves@) == timed_moves(path@, backup@, texts(existing@).to_set()),
{
    let mut moves: Vec<Move> = Vec::new();
    if contains_text(existing, &backup) {
        moves.push(Move::Remove { path: backup.clone() });
    }
    moves.push(Move::Rename { from: String::from_str(path), to: backup });
    assert(moves_view(moves@) =~= timed_moves(path@, backup@, texts(existing@).to_set()));
    moves
}

impl TimedRotatePolicy {
    /// The second at which the running period began.
    pub open spec fn period_start(&self) -> int {
        self.rollover_at.secs - self.duration
    }

    /// What one call of `timed_rotate` may do. Before the boundary, or
    /// without the file, nothing. Else the file moves to the backup named
    /// for the running period, old backups are pruned down to `max_backup`,
    /// and the boundary moves on to the first rollover after `now`. In UTC
    /// the period's text is the one that `chrono` writes.
    pub open spec fn timed_step(
        &self,
        now: Timestamp,
        path: Seq<char>,
        existing: Set<Seq<char>>,
        post: Self,
        r: Rotation,
    ) -> bool {
        if self.rollover_at.nanos_since_epoch() > now.nanos_since_epoch() || !existing.contains(
            path,
        ) {
            post == *self && r.moves@.len() == 0 && r.prune is None
        } else {
            &&& exists|stamp: Seq<char>|
                {
                    &&& self.utc ==> stamp == utc_stamp(self.period_start(), self.format@)
                    &&& moves_view(r.moves@) == timed_moves(
                        path,
                        #[trigger] timed_name(path, stamp),
                        existing,
                    )
                }
            &&& r.prune == Some(self.max_backup)
            &&& post == (TimedRotatePolicy { rollover_at: post.rollover_at, ..*self })
            &&& is_rollover(now, self.utc, self.midnight, self.duration as nat, post.rollover_at)
        }
    }

    /// Whether the policy is in order.
    pub fn is_well_formed(&self) -> (r: bool)
        ensures
            r == self.wf(),
    {
        let format = self.format.as_str();
        let known = same_text(format, "%Y%m%d%H%M%S") || same_text(format, "%Y%m%d%H%M")
            || same_text(format, "%Y%m%d%H") || same_text(format, "%Y%m%d");
        let start: i128 = self.rollover_at.secs as i128 - self.duration as i128;
        self.rollover_at.nanos < NANOS_PER_SECOND && self.check_time.is_in_calendar() && 1
            <= self.duration && self.duration <= MAX_DURATION && (!self.midnight || self.duration
            == SECONDS_PER_DAY) && known && FIRST_STAMP_SECOND as i128 <= start && start
            <= LAST_SECOND as i128
    }

    /// A policy that rotates every `interval` units of `when`, or at every
    /// midnight; `utc` selects the calendar. The first rollover is counted
    /// from `seed`, and `now` is noted as the time of the last look.
    pub fn new(
        interval: u32,
        when: &str,
        utc: &str,
        max_backup: u32,
        seed: Timestamp,
        now: Timestamp,
    ) -> (r: Self)
        requires
            unit_seconds(when@).is_some(),
            is_midnight(when@) || interval >= 1,
            seed.in_calendar(),
            now.in_calendar(),
        ensures
            r.wf(),
            r.utc == is_utc_token(utc@),
            r.midnight == is_midnight(when@),
            r.duration == period_seconds(interval as nat, when@),
            r.format@ == unit_format(when@),
            r.max_backup == max_backup,
            r.check_time == now,
            is_rollover(seed, r.utc, r.midnight, r.duration as nat, r.rollover_at),
    {
        let utc = same_text(utc, "U") || same_text(utc, "UTC");
        let midnight = same_text(when, "MIDNIGHT");
        let unit: u64;
        let format: &str;
        if same_text(when, "S") {
            unit = 1;
            format = "%Y%m%d%H%M%S";
        } else if same_text(when, "M") {
            unit = 60;
            format = "%Y%m%d%H%M";
        } else if same_text(when, "H") {
            unit = 3600;
            format = "%Y%m%d%H";
        } else {
            unit = SECONDS_PER_DAY;
            format = "%Y%m%d";
        }
        let duration: u64 = if midnight {
            SECONDS_PER_DAY
        } else {
            assert(unit * interval <= MAX_DURATION) by (nonlinear_arith)
                requires
                    unit <= 86_400,
                    interval <= 0xffff_ffff,
            ;
            assert(unit * interval >= 1) by (nonlinear_arith)
                requires
                    unit >= 1,
                    interval >= 1,
            ;
            unit * (interval as u64)
        };
        let rollover_at = Self::compute_rollover(seed, utc, midnight, duration);
        TimedRotatePolicy {
            rollover_at,
            duration,
            format: String::from_str(format),
            max_backup,
            check_time: now,
            midnight,
            utc,
        }
    }

    /// The rollover that follows a clock reading of `hour`, `minute` and
    /// `second` at `now`: the midnight after it.
    pub fn midnight_rollover(now: Timestamp, hour: u32, minute: u32, second: u32) -> (r: Timestamp)
        requires
            now.in_calendar(),
            hour < 24,
            minute < 60,
            second < 60,
        ensures
            r == now.plus(midnight_delta(hour as int, minute as int, second as int)),
            r.nanos == now.nanos,
            1 <= r.secs - now.secs <= 86_400,
    {
        let passed: u64 = ((hour * 60 + minute) * 60 + second) as u64;
        now.plus_secs(SECONDS_PER_DAY - passed)
    }

    /// The first rollover after `now`.
    pub fn compute_rollover(now: Timestamp, utc: bool, midnight: bool, duration: u64) -> (r:
        Timestamp)
        requires
            now.in_calendar(),
            duration <= MAX_DURATION,
        ensures
            is_rollover(now, utc, midnight, duration as nat, r),
            r.nanos == now.nanos,
            !midnight ==> r.secs == now.secs + duration,
            midnight ==> 1 <= r.secs - now.secs <= 86_400,
    {
        if midnight {
            let clock = if utc {
                utc_time_of_day(now.secs)
            } else {
                local_time_of_day(now.secs)
            };
            Self::midnight_rollover(now, clock.0, clock.1, clock.2)
        } else {
            now.plus_secs(duration)
        }
    }

    /// The text of the running period, in the policy's format and calendar.
    pub fn period_stamp(&self) -> (r: String)
        requires
            self.wf(),
        ensures
            self.utc ==> r@ == utc_stamp(self.period_start(), self.format@),
    {
        let start: i64 = (self.rollover_at.secs as i128 - self.duration as i128) as i64;
        if self.utc {
            utc_format(start, self.format.as_str())
        } else {
            local_format(start, self.format.as_str())
        }
    }

    /// The path of the backup for the running period: the one that began a
    /// period before the rollover.
    pub fn get_timed_filename(&self, path: &str) -> (r: String)
        requires
            self.wf(),
            is_log_path(path@),
        ensures
            exists|stamp: Seq<char>|
                {
                    &&& self.utc ==> stamp == utc_stamp(self.period_start(), self.format@)
                    &&& r@ == #[trigger] timed_name(path@, stamp)
                },
    {
        let stamp = self.period_stamp();
        let r = timed_file_name(path, stamp.as_str());
        assert(r@ == timed_name(path@, stamp@));
        r
    }

    /// Rotates the file at `path` if the boundary has passed at `now` and
    /// the file exists; `existing` lists the paths that are on disk.
    pub fn timed_rotate(&mut self, now: Timestamp, path: &str, existing: &Vec<String>) -> (r:
        Rotation)
        requires
            old(self).wf(),
            now.in_calendar(),
            is_log_path(path@),
        ensures
            final(self).wf(),
            old(self).timed_step(now, path@, texts(existing@).to_set(), *final(self), r),
    {
        if self.rollover_at.is_after(&now) {
            return Rotation::none();
        }
        let target = String::from_str(path);
        if !contains_text(existing, &target) {
            return Rotation::none();
        }
        let stamp = self.period_stamp();
        let backup = timed_file_name(path, stamp.as_str());
        let moves = timed_moves_for(path, backup, existing);
        let mut next = Self::compute_rollover(now, self.utc, self.midnight, self.duration);
        while !next.is_after(&now)
            invariant
                *self == *old(self),
                self.wf(),
                now.in_calendar(),
                next.nanos_since_epoch() > now.nanos_since_epoch(),
                is_rollover(now, self.utc, self.midnight, self.duration as nat, next),
                next.nanos == now.nanos,
                !self.midnight ==> next.secs == now.secs + self.duration,
                self.midnight ==> 1 <= next.secs - now.secs <= 86_400,
            decreases now.nanos_since_epoch() - next.nanos_since_epoch(),
        {
            next = next.plus_secs(self.duration);
        }
        self.rollover_at = next;
        let r = Rotation { moves, prune: Some(self.max_backup) };
        assert(moves_view(r.moves@) == timed_moves(
            path@,
            timed_name(path@, stamp@),
            texts(existing@).to_set(),
        ));
        r
    }

    /// Picks, from the backups found on disk, those to delete so that
    /// `max_backup` are left: the oldest, which the lexicographic order puts
    /// first.
    pub fn remove_old_backup(paths: &Vec<String>, max_backup: usize) -> (doomed: Vec<String>)
        ensures
            texts(doomed@) == excess(texts(paths@), max_backup as nat),
    {
        let n = paths.len();
        if n <= max_backup {
            let none: Vec<String> = Vec::new();
            assert(texts(none@) =~= Seq::<Seq<char>>::empty());
            return none;
        }
        let mut sorted = sort_texts(paths);
        let ghost all = texts(sorted@);
        proof {
            crate::text::lemma_sorted_texts(texts(paths@));
        }
        sorted.truncate(n - max_backup);
        assert(texts(sorted@) =~= all.take(n - max_backup));
        sorted
    }
}

impl RotatePolicy for TimedRotatePolicy {
    /// Instants are well formed, the period is at least a second, the
    /// format is one of the four, and the running period began within the
    /// calendar.
    open spec fn wf(&self) -> bool {
        &&& self.rollover_at.wf()
        &&& self.check_time.in_calendar()
        &&& 1 <= self.duration <= MAX_DURATION
        &&& self.midnight ==> self.duration == SECONDS_PER_DAY
        &&& is_stamp_format(self.format@)
        &&& FIRST_STAMP_SECOND <= self.period_start() <= LAST_SECOND
    }

    /// The time of the report lies within the calendar.
    open spec fn accepts(&self, probe: Probe) -> bool {
        probe.now.in_calendar()
    }

    /// Less than a second after the last look nothing happens, not even a
    /// look. Else the look is noted, and `timed_step` says the rest.
    open spec fn step(
        &self,
        buf_len: nat,
        path: Seq<char>,
        probe: Probe,
        post: Self,
        r: Rotation,
    ) -> bool {
        if probe.now.nanos_since_epoch() - self.check_time.nanos_since_epoch() >= 1_000_000_000 {
            (TimedRotatePolicy { check_time: probe.now, ..*self }).timed_step(
                probe.now,
                path,
                probe.on_disk(),
                post,
                r,
            )
        } else {
            post == *self && r.moves@.len() == 0 && r.prune is None
        }
    }

    /// Looks at the boundary, at most once a second, and rotates the file at
    /// `path` if the boundary has passed. The pending bytes and the length
    /// of the file play no part.
    fn rotate(&mut self, buf_len: usize, path: &str, probe: &Probe) -> (r: Rotation) {
        if probe.now.second_passed_since(&self.check_time) {
            self.check_time = probe.now;
            return self.timed_rotate(probe.now, path, &probe.existing);
        }
        Rotation::none()
    }
}

} // verus!
