//! Rotation by size: a file that would reach its size limit is shifted into
//! a chain of numbered backups.

use crate::names::{
    backup_number, file_name_of, is_log_path, lemma_names_rebuild, lemma_numbered, next_backup,
    next_backup_path, numbered, parent_of, stem_of,
};
use crate::plan::{moves_view, Move, MoveView, Probe, RotatePolicy, Rotation};
use crate::text::{contains_text, last_index, lemma_last_index, lemma_last_index_at, texts};
use vstd::prelude::*;

verus! {

/// Rotates a file before the write that would bring it to `max_file_size`
/// bytes, and keeps backups numbered up to `max_backup`.
pub struct SizeRotatePolicy {
    pub max_file_size: u64,
    pub max_backup: u32,
}

/// How many shifts a path still has before it: the measure by which the
/// cascade ends.
pub open spec fn shifts_left(path: Seq<char>, max_backup: nat) -> nat {
    match backup_number(path) {
        None => max_backup + 2,
        Some(n) => if n <= max_backup {
            (max_backup + 1 - n) as nat
        } else {
            0
        },
    }
}

/// The renames that shift `path` one generation on. The file at the next
/// name, if there is one, is shifted first, and so on up the chain; the
/// rename of `path` itself comes last. A path that holds the last generation
/// cannot be shifted: its plan is empty, and the rename below it replaces
/// the file.
pub open spec fn shift_plan(path: Seq<char>, max_backup: nat, existing: Set<Seq<char>>) -> Seq<
    MoveView,
>
    decreases shifts_left(path, max_backup),
    when is_log_path(path) && max_backup <= u32::MAX
    via shift_plan_decreases
{
    match next_backup(path, max_backup) {
        None => Seq::empty(),
        Some(to) => {
            let above = if existing.contains(to) {
                shift_plan(to, max_backup, existing)
            } else {
                Seq::empty()
            };
            above.push(MoveView::Rename { from: path, to })
        },
    }
}

#[via_fn]
proof fn shift_plan_decreases(path: Seq<char>, max_backup: nat, existing: Set<Seq<char>>) {
    lemma_shift_goes_up(path, max_backup);
}

/// Directory and stem of a log file's path are themselves the path of a log
/// file, whose file name is the stem.
pub proof fn lemma_stem_path(path: Seq<char>)
    requires
        is_log_path(path),
    ensures
        is_log_path(parent_of(path) + stem_of(path)),
        file_name_of(parent_of(path) + stem_of(path)) == stem_of(path),
{
    let base = parent_of(path) + stem_of(path);
    lemma_names_rebuild(path);
    lemma_last_index(path, '/');
    let k = last_index(path, '/');
    assert forall|j: int| k < j < base.len() implies base[j] != '/' by {
        assert(base[j] == path[j]);
    }
    if k >= 0 {
        assert(base[k] == path[k]);
    }
    lemma_last_index_at(base, '/', k);
    assert(file_name_of(base) =~= stem_of(path));
}

/// A shift leads to a log file's path with fewer shifts before it.
pub proof fn lemma_shift_goes_up(path: Seq<char>, max_backup: nat)
    requires
        is_log_path(path),
        max_backup <= u32::MAX,
    ensures
        match next_backup(path, max_backup) {
            Some(to) => is_log_path(to) && shifts_left(to, max_backup) < shifts_left(
                path,
                max_backup,
            ),
            None => true,
        },
{
    match backup_number(path) {
        Some(n) => {
            if n + 1 <= max_backup {
                lemma_stem_path(path);
                lemma_numbered(parent_of(path) + stem_of(path), n + 1);
            }
        },
        None => {
            lemma_numbered(path, 1);
        },
    }
}

/// What the size policy answers for one pending write: nothing while the
/// file with the pending bytes stays under the limit, nothing where the file
/// is not on disk, and else the shift of `path`.
pub open spec fn size_plan(
    max_file_size: nat,
    max_backup: nat,
    buf_len: nat,
    path: Seq<char>,
    file_len: nat,
    existing: Set<Seq<char>>,
) -> Seq<MoveView> {
    if max_file_size > buf_len + file_len || !existing.contains(path) {
        Seq::empty()
    } else {
        shift_plan(path, max_backup, existing)
    }
}

/// The renames that shift `path` one generation on, those of the files in
/// its way first.
pub fn shift(path: &str, max_backup: u32, existing: &Vec<String>) -> (moves: Vec<Move>)
    requires
        is_log_path(path@),
    ensures
        moves_view(moves@) == shift_plan(path@, max_backup as nat, texts(existing@).to_set()),
{
    let ghost on_disk = texts(existing@).to_set();
    let ghost limit = max_backup as nat;
    let mut moves: Vec<Move> = Vec::new();
    let mut current = String::from_str(path);
    let mut done = false;
    assert(moves_view(moves@) =~= Seq::<MoveView>::empty());
    assert(shift_plan(path@, limit, on_disk) =~= shift_plan(current@, limit, on_disk) + moves_view(
        moves@,
    ));
    while !done
        invariant
            is_log_path(current@),
            on_disk == texts(existing@).to_set(),
            limit == max_backup as nat,
            !done ==> shift_plan(path@, limit, on_disk) == shift_plan(current@, limit, on_disk)
                + moves_view(moves@),
            done ==> shift_plan(path@, limit, on_disk) == moves_view(moves@),
        decreases shifts_left(current@, limit), (if done { 0nat } else { 1nat }),
    {
        proof {
            lemma_shift_goes_up(current@, limit);
        }
        match next_backup_path(current.as_str(), max_backup) {
            None => {
                assert(shift_plan(current@, limit, on_disk) + moves_view(moves@) =~= moves_view(
                    moves@,
                ));
                done = true;
            },
            Some(to) => {
                let taken = contains_text(existing, &to);
                let ghost before = moves_view(moves@);
                let ghost step = MoveView::Rename { from: current@, to: to@ };
                let ghost above = if taken {
                    shift_plan(to@, limit, on_disk)
                } else {
                    Seq::<MoveView>::empty()
                };
                let next = to.clone();
                moves.insert(0, Move::Rename { from: current, to });
                proof {
                    assert(moves_view(moves@) =~= seq![step] + before);
                    assert(above.push(step) + before =~= above + moves_view(moves@));
                }
                current = next;
                if !taken {
                    assert(Seq::<MoveView>::empty() + moves_view(moves@) =~= moves_view(moves@));
                    done = true;
                }
            },
        }
    }
    moves
}

impl SizeRotatePolicy {
    /// A policy that rotates at `max_file_size` bytes and keeps backups
    /// numbered up to `max_backup`.
    pub fn new(max_file_size: u64, max_backup: u32) -> (r: Self)
        ensures
            r.max_file_size == max_file_size,
            r.max_backup == max_backup,
    {
        SizeRotatePolicy { max_file_size, max_backup }
    }
}

impl RotatePolicy for SizeRotatePolicy {
    open spec fn wf(&self) -> bool {
        true
    }

    /// Any report will do.
    open spec fn accepts(&self, probe: Probe) -> bool {
        true
    }

    /// The policy stays as it is, and the answer is the `size_plan` for what
    /// was reported, without pruning.
    open spec fn step(
        &self,
        buf_len: nat,
        path: Seq<char>,
        probe: Probe,
        post: Self,
        r: Rotation,
    ) -> bool {
        &&& post == *self
        &&& r.prune is None
        &&& moves_view(r.moves@) == size_plan(
            self.max_file_size as nat,
            self.max_backup as nat,
            buf_len,
            path,
            probe.file_len as nat,
            probe.on_disk(),
        )
    }

    /// Shifts the file at `path` away if the pending bytes would bring it to
    /// the limit and the file is on disk.
    fn rotate(&mut self, buf_len: usize, path: &str, probe: &Probe) -> (r: Rotation) {
        let total: u128 = buf_len as u128 + probe.file_len as u128;
        if self.max_file_size as u128 > total {
            let r = Rotation::none();
            assert(moves_view(r.moves@) =~= Seq::<MoveView>::empty());
            return r;
        }
        let target = String::from_str(path);
        if !contains_text(&probe.existing, &target) {
            let r = Rotation::none();
            assert(moves_view(r.moves@) =~= Seq::<MoveView>::empty());
            return r;
        }
        Rotation { moves: shift(path, self.max_backup, &probe.existing), prune: None }
    }
}

} // verus!
