//! What holds of the policies: of rotation by size, stated over the model of
//! the files, and of rotation by time.

use crate::clock::{second_of_day, Timestamp};
use crate::names::{
    backup_number, is_log_path, lemma_next_backup_numbered, lemma_numbered, next_backup, numbered,
    timed_name,
};
use crate::plan::{moves_view, run_move, run_moves, Disk, MoveView, Probe, RotatePolicy, Rotation};
use crate::sink::{LogFile, WritePlan};
use crate::size::{shift_plan, size_plan, SizeRotatePolicy};
use crate::text::{decimal_digits, lemma_decimal_digits, lemma_sorted_texts, lex_le, sorted_texts, text_order};
use crate::timed::{excess, is_rollover, midnight_delta, timed_moves, TimedRotatePolicy};
use vstd::prelude::*;

verus! {

/// Generation `i` of the log file at `path`: the file itself for 0, and for
/// `i` from 1 on the backup with number `i`.
pub open spec fn slot(path: Seq<char>, i: nat) -> Seq<char> {
    if i == 0 {
        path
    } else {
        numbered(path, i)
    }
}

/// Whether `q` is a generation of `path` from `lo` on.
pub open spec fn is_slot_from(path: Seq<char>, q: Seq<char>, lo: nat) -> bool {
    exists|s: nat| s >= lo && q == #[trigger] slot(path, s)
}

/// The files after one write through a sink with a size policy whose handle
/// is open: the moves that the policy plans are made, the path is created
/// anew if the file was moved away, and the bytes go to the end of the file.
pub open spec fn size_write(
    policy: SizeRotatePolicy,
    path: Seq<char>,
    disk: Disk,
    bytes: Seq<u8>,
) -> Disk {
    let moves = size_plan(
        policy.max_file_size as nat,
        policy.max_backup as nat,
        bytes.len(),
        path,
        disk[path].len(),
        disk.dom(),
    );
    let moved = run_moves(disk, moves);
    let fresh = if moves.len() > 0 && !moved.dom().contains(path) {
        moved.insert(path, Seq::empty())
    } else {
        moved
    };
    fresh.insert(path, fresh[path] + bytes)
}

/// The files after the caller has carried out a plan that asks for no
/// pruning: the moves are made, the path is opened anew, which creates the
/// file where there is none, and the bytes go to the end of the file.
pub open spec fn carried_out(disk: Disk, path: Seq<char>, plan: WritePlan, bytes: Seq<u8>) -> Disk {
    let moved = run_moves(disk, moves_view(plan.rotation.moves@));
    let fresh = if plan.reopen && !moved.dom().contains(path) {
        moved.insert(path, Seq::empty())
    } else {
        moved
    };
    if plan.write {
        fresh.insert(path, fresh[path] + bytes)
    } else {
        fresh
    }
}

/// The model of a write says what the sink's plan does: where an open sink
/// with a size policy is told of the files as they are, carrying out its
/// plan leaves the files that `size_write` gives, and the policy is as it
/// was.
pub proof fn law_plan_does_size_write(
    sink: LogFile<SizeRotatePolicy>,
    probe: Probe,
    post: LogFile<SizeRotatePolicy>,
    plan: WritePlan,
    disk: Disk,
    bytes: Seq<u8>,
)
    requires
        sink.opened,
        sink.write_step(bytes.len(), probe, post, plan),
        probe.on_disk() == disk.dom(),
        probe.file_len == disk[sink.log_file@].len(),
    ensures
        carried_out(disk, sink.log_file@, plan, bytes) == size_write(
            sink.policy,
            sink.log_file@,
            disk,
            bytes,
        ),
        plan.rotation.prune is None,
        post.policy == sink.policy,
        post.opened,
{
    assert(moves_view(plan.rotation.moves@).len() == plan.rotation.moves@.len());
}

/// The files after a run of writes, first to last.
pub open spec fn size_writes(
    policy: SizeRotatePolicy,
    path: Seq<char>,
    disk: Disk,
    writes: Seq<Seq<u8>>,
) -> Disk
    decreases writes.len(),
{
    if writes.len() == 0 {
        disk
    } else {
        size_write(policy, path, size_writes(policy, path, disk, writes.drop_last()), writes.last())
    }
}

/// The bytes of a run of writes, in order.
pub open spec fn joined(writes: Seq<Seq<u8>>) -> Seq<u8>
    decreases writes.len(),
{
    if writes.len() == 0 {
        Seq::empty()
    } else {
        joined(writes.drop_last()) + writes.last()
    }
}

/// Two generations with the same path are the same generation.
pub proof fn lemma_slots_differ(path: Seq<char>, a: nat, b: nat)
    requires
        slot(path, a) == slot(path, b),
    ensures
        a == b,
{
    lemma_decimal_digits(a);
    lemma_decimal_digits(b);
    if a != 0 && b != 0 {
        let x = numbered(path, a);
        let y = numbered(path, b);
        assert(x.skip(path.len() as int + 1) =~= decimal_digits(a));
        assert(y.skip(path.len() as int + 1) =~= decimal_digits(b));
    }
}

/// A generation is the path of a log file, and shifting it leads to the
/// next generation: from the file itself always, from a backup as long as
/// the next number is within `max_backup`.
pub proof fn lemma_slot_shift(path: Seq<char>, max_backup: nat, i: nat)
    requires
        is_log_path(path),
        backup_number(path) is None,
        i <= u32::MAX,
    ensures
        is_log_path(slot(path, i)),
        next_backup(slot(path, i), max_backup) == (if i == 0 || i + 1 <= max_backup {
            Some(slot(path, i + 1))
        } else {
            None
        }),
{
    if i > 0 {
        lemma_numbered(path, i);
        lemma_next_backup_numbered(path, i, max_backup);
    }
}

/// What the shift of generation `i` does to the files: generation `i` is
/// gone, generation `i + 1` holds what generation `i` held, and every file
/// that is no generation from `i` on is as it was.
pub proof fn lemma_shift_moves_one_on(disk: Disk, path: Seq<char>, max_backup: nat, i: nat)
    requires
        is_log_path(path),
        backup_number(path) is None,
        max_backup <= u32::MAX,
        i == 0 || i < max_backup,
        disk.dom().contains(slot(path, i)),
    ensures
        ({
            let moves = shift_plan(slot(path, i), max_backup, disk.dom());
            let r = run_moves(disk, moves);
            &&& moves.len() > 0
            &&& moves.last() == MoveView::Rename { from: slot(path, i), to: slot(path, i + 1) }
            &&& !r.dom().contains(slot(path, i))
            &&& r.dom().contains(slot(path, i + 1))
            &&& r[slot(path, i + 1)] == disk[slot(path, i)]
            &&& forall|q: Seq<char>|
                !#[trigger] is_slot_from(path, q, i) ==> (r.dom().contains(q)
                    == disk.dom().contains(q) && r[q] == disk[q])
        }),
    decreases max_backup - i,
{
    let from = slot(path, i);
    let to = slot(path, i + 1);
    lemma_slot_shift(path, max_backup, i);
    lemma_slot_shift(path, max_backup, i + 1);
    let step = MoveView::Rename { from, to };
    let above = if disk.dom().contains(to) {
        shift_plan(to, max_backup, disk.dom())
    } else {
        Seq::<MoveView>::empty()
    };
    let moves = shift_plan(from, max_backup, disk.dom());
    assert(moves == above.push(step));
    assert(moves.drop_last() =~= above);
    let mid = run_moves(disk, above);
    assert(run_moves(disk, moves) == run_move(mid, step));
    assert(from != to) by {
        if from == to {
            lemma_slots_differ(path, i, i + 1);
        }
    }
    if disk.dom().contains(to) && i + 1 < max_backup {
        lemma_shift_moves_one_on(disk, path, max_backup, i + 1);
        assert(!is_slot_from(path, from, i + 1)) by {
            if is_slot_from(path, from, i + 1) {
                let s = choose|s: nat| s >= i + 1 && from == #[trigger] slot(path, s);
                lemma_slots_differ(path, i, s);
            }
        }
        assert forall|q: Seq<char>| !#[trigger] is_slot_from(path, q, i) implies !is_slot_from(
            path,
            q,
            (i + 1) as nat,
        ) by {
            if is_slot_from(path, q, i + 1) {
                let s = choose|s: nat| s >= i + 1 && q == #[trigger] slot(path, s);
                assert(s >= i && q == slot(path, s));
            }
        }
    } else {
        assert(above =~= Seq::<MoveView>::empty());
        assert(mid == disk);
    }
    let r = run_move(mid, step);
    assert(mid.dom().contains(from) && mid[from] == disk[from]);
    assert forall|q: Seq<char>| !#[trigger] is_slot_from(path, q, i) implies (r.dom().contains(q)
        == disk.dom().contains(q) && r[q] == disk[q]) by {
        assert(q != slot(path, i));
        assert(q != slot(path, i + 1));
    }
}

/// Writes that leave the file below the size limit never rotate it: after a
/// run of writes whose bytes, with those already in the file, stay under
/// `max_file_size`, the file holds the old bytes and the new, and every
/// other file is as it was. No backup has appeared.
pub proof fn law_writes_below_limit_never_rotate(
    policy: SizeRotatePolicy,
    path: Seq<char>,
    disk: Disk,
    writes: Seq<Seq<u8>>,
)
    requires
        disk.dom().contains(path),
        disk[path].len() + joined(writes).len() < policy.max_file_size,
    ensures
        size_writes(policy, path, disk, writes) == disk.insert(path, disk[path] + joined(writes)),
        forall|k: int|
            0 <= k < writes.len() ==> size_plan(
                policy.max_file_size as nat,
                policy.max_backup as nat,
                writes[k].len(),
                path,
                #[trigger] size_writes(policy, path, disk, writes.take(k))[path].len(),
                size_writes(policy, path, disk, writes.take(k)).dom(),
            ).len() == 0,
    decreases writes.len(),
{
    if writes.len() == 0 {
        assert(disk.insert(path, disk[path] + Seq::<u8>::empty()) =~= disk) by {
            assert(disk[path] + Seq::<u8>::empty() =~= disk[path]);
        }
    } else {
        let head = writes.drop_last();
        law_writes_below_limit_never_rotate(policy, path, disk, head);
        let before = size_writes(policy, path, disk, head);
        assert(before[path] == disk[path] + joined(head));
        let moves = size_plan(
            policy.max_file_size as nat,
            policy.max_backup as nat,
            writes.last().len(),
            path,
            before[path].len(),
            before.dom(),
        );
        assert(moves.len() == 0);
        assert(run_moves(before, moves) == before);
        assert(disk[path] + joined(head) + writes.last() =~= disk[path] + joined(writes));
        assert(size_writes(policy, path, disk, writes) =~= disk.insert(
            path,
            disk[path] + joined(writes),
        ));
        assert forall|k: int| 0 <= k < writes.len() implies size_plan(
            policy.max_file_size as nat,
            policy.max_backup as nat,
            writes[k].len(),
            path,
            #[trigger] size_writes(policy, path, disk, writes.take(k))[path].len(),
            size_writes(policy, path, disk, writes.take(k)).dom(),
        ).len() == 0 by {
            if k < head.len() {
                assert(head.take(k) =~= writes.take(k));
                assert(head[k] == writes[k]);
            } else {
                assert(writes.take(k) =~= head);
            }
        }
    }
}

/// A write that brings the file to the size limit or beyond rotates it
/// once, before the bytes are written: the plan ends with the rename of the
/// file to its first backup, which then holds what the file held, and the
/// file at the path is new and holds the written bytes alone. Files that
/// are no generation of the log file are as they were.
pub proof fn law_write_at_limit_rotates_first(
    policy: SizeRotatePolicy,
    path: Seq<char>,
    disk: Disk,
    bytes: Seq<u8>,
)
    requires
        is_log_path(path),
        backup_number(path) is None,
        disk.dom().contains(path),
        disk[path].len() + bytes.len() >= policy.max_file_size,
    ensures
        ({
            let moves = size_plan(
                policy.max_file_size as nat,
                policy.max_backup as nat,
                bytes.len(),
                path,
                disk[path].len(),
                disk.dom(),
            );
            let after = size_write(policy, path, disk, bytes);
            &&& moves.len() > 0
            &&& moves.last() == MoveView::Rename { from: path, to: numbered(path, 1) }
            &&& after.dom().contains(path)
            &&& after[path] == bytes
            &&& after.dom().contains(numbered(path, 1))
            &&& after[numbered(path, 1)] == disk[path]
            &&& forall|q: Seq<char>|
                !#[trigger] is_slot_from(path, q, 0) ==> (after.dom().contains(q)
                    == disk.dom().contains(q) && after[q] == disk[q])
        }),
{
    lemma_shift_moves_one_on(disk, path, policy.max_backup as nat, 0);
    let moves = shift_plan(path, policy.max_backup as nat, disk.dom());
    let moved = run_moves(disk, moves);
    assert(path != numbered(path, 1)) by {
        lemma_numbered(path, 1);
    }
    assert(Seq::<u8>::empty() + bytes =~= bytes);
    let after = size_write(policy, path, disk, bytes);
    assert forall|q: Seq<char>| !#[trigger] is_slot_from(path, q, 0) implies (after.dom().contains(
        q,
    ) == disk.dom().contains(q) && after[q] == disk[q]) by {
        assert(q != slot(path, 0));
    }
}

/// Whether `q` is one of the generations `lo` to `hi` of `path`.
pub open spec fn is_slot_between(path: Seq<char>, q: Seq<char>, lo: nat, hi: nat) -> bool {
    exists|s: nat| lo <= s <= hi && q == #[trigger] slot(path, s)
}

/// The files after one rotation: the log file is shifted away, and a new
/// file at its path holds `bytes`.
pub open spec fn rotate_once(path: Seq<char>, max_backup: nat, disk: Disk, bytes: Seq<u8>) -> Disk {
    run_moves(disk, shift_plan(path, max_backup, disk.dom())).insert(path, bytes)
}

/// The files after one rotation for each of `files`, first to last: each
/// time the new file is filled with the next of `files`.
pub open spec fn rotate_times(
    path: Seq<char>,
    max_backup: nat,
    disk: Disk,
    files: Seq<Seq<u8>>,
) -> Disk
    decreases files.len(),
{
    if files.len() == 0 {
        disk
    } else {
        rotate_once(
            path,
            max_backup,
            rotate_times(path, max_backup, disk, files.drop_last()),
            files.last(),
        )
    }
}

/// What generation `n` holds after the rotations of `files`: the file that
/// was filled `n` rotations before the last, or, where there were only `n`
/// rotations, what the log file held at the start.
pub open spec fn generation(first: Seq<u8>, files: Seq<Seq<u8>>, n: nat) -> Seq<u8> {
    if n < files.len() {
        files[files.len() - 1 - n]
    } else {
        first
    }
}

/// The number of backups after `k` rotations with room for `max_backup`.
pub open spec fn backups_after(k: nat, max_backup: nat) -> nat {
    if k < max_backup {
        k
    } else {
        max_backup
    }
}

/// A write that rotates is a rotation that fills the new file with the
/// written bytes.
pub proof fn lemma_write_at_limit_is_rotation(
    policy: SizeRotatePolicy,
    path: Seq<char>,
    disk: Disk,
    bytes: Seq<u8>,
)
    requires
        is_log_path(path),
        backup_number(path) is None,
        disk.dom().contains(path),
        disk[path].len() + bytes.len() >= policy.max_file_size,
    ensures
        size_write(policy, path, disk, bytes) == rotate_once(
            path,
            policy.max_backup as nat,
            disk,
            bytes,
        ),
{
    lemma_shift_moves_one_on(disk, path, policy.max_backup as nat, 0);
    assert(Seq::<u8>::empty() + bytes =~= bytes);
    assert(size_write(policy, path, disk, bytes) =~= rotate_once(
        path,
        policy.max_backup as nat,
        disk,
        bytes,
    ));
}

/// What a shift does to a chain of generations without a gap. Where the
/// generations `i` to `t - 1` are on disk, and generation `t` is free or is
/// the last that is kept, the shift of generation `i` moves each of them one
/// on: generation `i` is gone, each generation from `i + 1` to `t` holds
/// what the one before it held, and every file that is none of the
/// generations `i` to `t` is as it was.
pub proof fn lemma_shift_chain(disk: Disk, path: Seq<char>, max_backup: nat, i: nat, t: nat)
    requires
        is_log_path(path),
        backup_number(path) is None,
        max_backup <= u32::MAX,
        i < t,
        t <= max_backup || t == 1,
        forall|s: nat| i <= s < t ==> disk.dom().contains(#[trigger] slot(path, s)),
        t < max_backup ==> !disk.dom().contains(slot(path, t)),
    ensures
        ({
            let r = run_moves(disk, shift_plan(slot(path, i), max_backup, disk.dom()));
            &&& !r.dom().contains(slot(path, i))
            &&& forall|s: nat|
                i < s <= t ==> r.dom().contains(#[trigger] slot(path, s)) && r[slot(path, s)]
                    == disk[slot(path, (s - 1) as nat)]
            &&& forall|q: Seq<char>|
                !#[trigger] is_slot_between(path, q, i, t) ==> (r.dom().contains(q)
                    == disk.dom().contains(q) && r[q] == disk[q])
        }),
    decreases t - i,
{
    let from = slot(path, i);
    let to = slot(path, i + 1);
    lemma_slot_shift(path, max_backup, i);
    lemma_slot_shift(path, max_backup, i + 1);
    let step = MoveView::Rename { from, to };
    let above = if disk.dom().contains(to) {
        shift_plan(to, max_backup, disk.dom())
    } else {
        Seq::<MoveView>::empty()
    };
    let moves = shift_plan(from, max_backup, disk.dom());
    assert(moves == above.push(step));
    assert(moves.drop_last() =~= above);
    let mid = run_moves(disk, above);
    let r = run_move(mid, step);
    assert(run_moves(disk, moves) == r);
    assert(from != to) by {
        if from == to {
            lemma_slots_differ(path, i, i + 1);
        }
    }
    assert(disk.dom().contains(slot(path, i)));
    if i + 1 < t {
        assert(disk.dom().contains(slot(path, i + 1)));
        lemma_shift_chain(disk, path, max_backup, i + 1, t);
        assert(!is_slot_between(path, from, i + 1, t)) by {
            if is_slot_between(path, from, i + 1, t) {
                let s = choose|s: nat| i + 1 <= s <= t && from == #[trigger] slot(path, s);
                lemma_slots_differ(path, i, s);
            }
        }
        assert(mid.dom().contains(from) && mid[from] == disk[from]);
        assert forall|s: nat| i < s <= t implies r.dom().contains(#[trigger] slot(path, s))
            && r[slot(path, s)] == disk[slot(path, (s - 1) as nat)] by {
            if s > i + 1 {
                if slot(path, s) == from {
                    lemma_slots_differ(path, s, i);
                }
                if slot(path, s) == to {
                    lemma_slots_differ(path, s, i + 1);
                }
                assert(mid.dom().contains(slot(path, s)));
            }
        }
        assert forall|q: Seq<char>| !#[trigger] is_slot_between(path, q, i, t) implies (
        r.dom().contains(q) == disk.dom().contains(q) && r[q] == disk[q]) by {
            assert(q != slot(path, i));
            assert(q != slot(path, i + 1));
            if is_slot_between(path, q, i + 1, t) {
                let s = choose|s: nat| i + 1 <= s <= t && q == #[trigger] slot(path, s);
                assert(i <= s <= t && q == slot(path, s));
            }
        }
    } else {
        assert(above =~= Seq::<MoveView>::empty());
        assert(mid == disk);
        assert forall|s: nat| i < s <= t implies r.dom().contains(#[trigger] slot(path, s))
            && r[slot(path, s)] == disk[slot(path, (s - 1) as nat)] by {
            assert(s == i + 1);
        }
        assert forall|q: Seq<char>| !#[trigger] is_slot_between(path, q, i, t) implies (
        r.dom().contains(q) == disk.dom().contains(q) && r[q] == disk[q]) by {
            assert(q != slot(path, i));
            assert(q != slot(path, i + 1));
        }
    }
}

/// The backups of a log file after any number of rotations. Start with the
/// log file and none of its numbered backups on disk, and rotate once for
/// each of `files`, with room for `max_backup` backups, at least one. Then
/// the numbered backups on disk are exactly those from 1 to the number of
/// rotations, or to `max_backup` once there were that many; backup `n` holds
/// the file that was rotated away `n` rotations ago, so that number 1 is the
/// newest; the log file holds the last of `files`; and every file that is no
/// generation of the log file is as it was.
pub proof fn law_rotations_keep_newest_backups(
    path: Seq<char>,
    max_backup: nat,
    disk: Disk,
    files: Seq<Seq<u8>>,
)
    requires
        is_log_path(path),
        backup_number(path) is None,
        1 <= max_backup <= u32::MAX,
        disk.dom().contains(path),
        forall|n: nat| n >= 1 ==> !disk.dom().contains(#[trigger] numbered(path, n)),
    ensures
        ({
            let after = rotate_times(path, max_backup, disk, files);
            let kept = backups_after(files.len(), max_backup);
            &&& after.dom().contains(path)
            &&& after[path] == generation(disk[path], files, 0)
            &&& forall|n: nat|
                n >= 1 ==> (after.dom().contains(#[trigger] numbered(path, n)) <==> n <= kept)
            &&& forall|n: nat|
                1 <= n <= kept ==> after[#[trigger] numbered(path, n)] == generation(
                    disk[path],
                    files,
                    n,
                )
            &&& forall|q: Seq<char>|
                !#[trigger] is_slot_from(path, q, 0) ==> (after.dom().contains(q)
                    == disk.dom().contains(q) && after[q] == disk[q])
        }),
    decreases files.len(),
{
    if files.len() > 0 {
        let head = files.drop_last();
        law_rotations_keep_newest_backups(path, max_backup, disk, head);
        let before = rotate_times(path, max_backup, disk, head);
        let had = backups_after(head.len(), max_backup);
        let kept = backups_after(files.len(), max_backup);
        let t: nat = if had < max_backup {
            had + 1
        } else {
            max_backup
        };
        assert(t == kept);
        assert forall|s: nat| 0 <= s < t implies before.dom().contains(#[trigger] slot(path, s)) by {
            if s > 0 {
                assert(before.dom().contains(numbered(path, s)));
            }
        }
        if t < max_backup {
            assert(!before.dom().contains(numbered(path, t)));
        }
        lemma_shift_chain(before, path, max_backup, 0, t);
        let moved = run_moves(before, shift_plan(path, max_backup, before.dom()));
        let after = moved.insert(path, files.last());
        assert(after == rotate_times(path, max_backup, disk, files));
        assert forall|n: nat| n >= 1 implies (after.dom().contains(#[trigger] numbered(path, n))
            <==> n <= kept) by {
            assert(numbered(path, n) == slot(path, n));
            if path == slot(path, n) {
                lemma_slots_differ(path, 0, n);
            }
            if n <= t {
                assert(moved.dom().contains(slot(path, n)));
            } else {
                assert(!is_slot_between(path, numbered(path, n), 0, t)) by {
                    if is_slot_between(path, numbered(path, n), 0, t) {
                        let s = choose|s: nat|
                            0 <= s <= t && numbered(path, n) == #[trigger] slot(path, s);
                        lemma_slots_differ(path, n, s);
                    }
                }
                assert(!before.dom().contains(numbered(path, n)));
            }
        }
        assert forall|n: nat| 1 <= n <= kept implies after[#[trigger] numbered(path, n)]
            == generation(disk[path], files, n) by {
            assert(numbered(path, n) == slot(path, n));
            if path == slot(path, n) {
                lemma_slots_differ(path, 0, n);
            }
            assert(moved[slot(path, n)] == before[slot(path, (n - 1) as nat)]);
            if n == 1 {
                assert(before[path] == generation(disk[path], head, 0));
            } else {
                assert(slot(path, (n - 1) as nat) == numbered(path, (n - 1) as nat));
                assert(before[numbered(path, (n - 1) as nat)] == generation(
                    disk[path],
                    head,
                    (n - 1) as nat,
                ));
            }
        }
        assert forall|q: Seq<char>| !#[trigger] is_slot_from(path, q, 0) implies (
        after.dom().contains(q) == disk.dom().contains(q) && after[q] == disk[q]) by {
            assert(q != slot(path, 0));
            if is_slot_between(path, q, 0, t) {
                let s = choose|s: nat| 0 <= s <= t && q == #[trigger] slot(path, s);
                assert(s >= 0 && q == slot(path, s));
            }
        }
    } else {
        assert forall|q: Seq<char>| !#[trigger] is_slot_from(path, q, 0) implies (
        disk.dom().contains(q) == disk.dom().contains(q)) by {}
    }
}

/// Whether a timed policy looks at its boundary when it is asked at `now`:
/// it does once a second has passed since it last looked.
pub open spec fn looks(policy: TimedRotatePolicy, now: Timestamp) -> bool {
    now.nanos_since_epoch() - policy.check_time.nanos_since_epoch() >= 1_000_000_000
}

/// The throttle: of two calls that follow each other within less than a
/// second, at most one looks at the boundary. Once the first has looked, the
/// second leaves the policy as it is and rotates nothing.
pub proof fn law_throttle(
    policy: TimedRotatePolicy,
    path: Seq<char>,
    first: Probe,
    after_first: TimedRotatePolicy,
    r1: Rotation,
    second: Probe,
    after_second: TimedRotatePolicy,
    r2: Rotation,
    len1: nat,
    len2: nat,
)
    requires
        policy.step(len1, path, first, after_first, r1),
        after_first.step(len2, path, second, after_second, r2),
        second.now.nanos_since_epoch() - first.now.nanos_since_epoch() < 1_000_000_000,
    ensures
        !(looks(policy, first.now) && looks(after_first, second.now)),
        looks(policy, first.now) ==> after_second == after_first && !r2.rotated() && r2.prune is None,
{
}

/// One call rotates at most once: its moves hold at most one rename, that
/// of the log file, and it is their last.
pub proof fn law_one_rotation_a_call(
    policy: TimedRotatePolicy,
    path: Seq<char>,
    probe: Probe,
    post: TimedRotatePolicy,
    r: Rotation,
    len: nat,
)
    requires
        policy.step(len, path, probe, post, r),
    ensures
        r.moves@.len() <= 2,
        forall|i: int|
            0 <= i < r.moves@.len() && (#[trigger] moves_view(r.moves@)[i]) is Rename ==> i
                == r.moves@.len() - 1 && moves_view(r.moves@)[i]->from == path,
        r.rotated() ==> looks(policy, probe.now) && policy.rollover_at.nanos_since_epoch()
            <= probe.now.nanos_since_epoch(),
{
    let moves = moves_view(r.moves@);
    assert(moves.len() == r.moves@.len());
    if r.moves@.len() > 0 {
        let looked = TimedRotatePolicy { check_time: probe.now, ..policy };
        let stamp = choose|stamp: Seq<char>|
            moves == timed_moves(path, #[trigger] timed_name(path, stamp), probe.on_disk());
        assert(moves == timed_moves(path, timed_name(path, stamp), probe.on_disk()));
    }
}

/// The boundary never moves back: a call leaves it where it was or moves it
/// on, and after a rotation it lies later than the time of the call.
pub proof fn law_rollover_never_moves_back(
    policy: TimedRotatePolicy,
    path: Seq<char>,
    probe: Probe,
    post: TimedRotatePolicy,
    r: Rotation,
    len: nat,
)
    requires
        policy.wf(),
        policy.accepts(probe),
        policy.step(len, path, probe, post, r),
    ensures
        post.rollover_at.nanos_since_epoch() >= policy.rollover_at.nanos_since_epoch(),
        r.rotated() ==> post.rollover_at.nanos_since_epoch() > probe.now.nanos_since_epoch(),
        !r.rotated() ==> post.rollover_at == policy.rollover_at,
{
    let moves = moves_view(r.moves@);
    assert(moves.len() == r.moves@.len());
}

/// After a rotation the boundary lies in the future: given a period of at
/// least a second, the first rollover after `now` is later than `now`.
pub proof fn law_rollover_is_ahead(
    now: Timestamp,
    utc: bool,
    midnight: bool,
    duration: nat,
    r: Timestamp,
)
    requires
        now.in_calendar(),
        1 <= duration <= crate::timed::MAX_DURATION,
        is_rollover(now, utc, midnight, duration, r),
    ensures
        r.nanos_since_epoch() > now.nanos_since_epoch(),
{
}

/// At midnight in UTC the first rollover is the next midnight, whatever the
/// length of the period: it begins a day, and it comes after the seed by no
/// more than a day.
pub proof fn law_midnight_rollover(seed: Timestamp, duration: nat, r: Timestamp)
    requires
        seed.in_calendar(),
        is_rollover(seed, true, true, duration, r),
    ensures
        second_of_day(r.secs as int) == 0,
        0 < r.secs - seed.secs <= 86_400,
        r.nanos == seed.nanos,
{
}

/// A clock reading and the seconds to midnight make up the day.
pub proof fn law_midnight_delta(hour: int, minute: int, second: int)
    requires
        0 <= hour < 24,
        0 <= minute < 60,
        0 <= second < 60,
    ensures
        midnight_delta(hour, minute, second) + hour * 3600 + minute * 60 + second == 86_400,
        1 <= midnight_delta(hour, minute, second) <= 86_400,
{
}

/// Pruning deletes the oldest. Of more backups than are kept, those deleted
/// and those left make up the backups found; `keep` are left; and in the
/// lexicographic order none that is deleted comes after one that is left.
pub proof fn law_pruning_keeps_newest(paths: Seq<Seq<char>>, keep: nat)
    requires
        paths.len() > keep,
    ensures
        ({
            let doomed = excess(paths, keep);
            let left = sorted_texts(paths).skip(paths.len() - keep);
            &&& doomed.len() == paths.len() - keep
            &&& left.len() == keep
            &&& (doomed + left).to_multiset() == paths.to_multiset()
            &&& forall|i: int, j: int|
                0 <= i < doomed.len() && 0 <= j < left.len() ==> lex_le(
                    #[trigger] doomed[i],
                    #[trigger] left[j],
                )
        }),
{
    lemma_sorted_texts(paths);
    let sorted = sorted_texts(paths);
    let cut = paths.len() - keep;
    let doomed = excess(paths, keep);
    let left = sorted.skip(cut);
    assert(doomed + left =~= sorted);
    assert forall|i: int, j: int| 0 <= i < doomed.len() && 0 <= j < left.len() implies lex_le(
        #[trigger] doomed[i],
        #[trigger] left[j],
    ) by {
        assert(text_order()(sorted[i], sorted[cut + j]));
    }
}

} // verus!
