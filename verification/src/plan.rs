//! What a rotation asks of the file system, and what that does to the files.
//!
//! The policies touch no file. They look at what is on disk as their caller
//! reports it and answer with the moves to make, in order. The model in this
//! file says what those moves do to a set of files.

use crate::clock::Timestamp;
use crate::names::is_log_path;
use crate::text::texts;
use vstd::prelude::*;

verus! {

/// One step on the file system.
pub enum Move {
    /// Delete the file at `path`.
    Remove { path: String },
    /// Move the file at `from` to `to`, replacing what was at `to`.
    Rename { from: String, to: String },
}

/// A `Move` over texts.
pub enum MoveView {
    Remove { path: Seq<char> },
    Rename { from: Seq<char>, to: Seq<char> },
}

impl View for Move {
    type V = MoveView;

    open spec fn view(&self) -> MoveView {
        match *self {
            Move::Remove { path } => MoveView::Remove { path: path@ },
            Move::Rename { from, to } => MoveView::Rename { from: from@, to: to@ },
        }
    }
}

/// The moves of a list, over texts.
pub open spec fn moves_view(moves: Seq<Move>) -> Seq<MoveView> {
    Seq::new(moves.len(), |i: int| moves[i]@)
}

/// What a policy answers: the moves that make up the rotation, in the order
/// in which they are to be made, and whether old backups are to be pruned
/// afterwards. No move means no rotation.
pub struct Rotation {
    pub moves: Vec<Move>,
    /// `Some(keep)`: once the moves are made, list the backups and delete all
    /// but the `keep` newest.
    pub prune: Option<u32>,
}

impl Rotation {
    /// Whether the file was rotated away.
    pub open spec fn rotated(&self) -> bool {
        self.moves@.len() > 0
    }

    /// Whether the file was rotated away, so that its path is free again.
    pub fn is_rotated(&self) -> (r: bool)
        ensures
            r == self.rotated(),
    {
        self.moves.len() > 0
    }

    /// The answer that leaves everything as it is.
    pub fn none() -> (r: Rotation)
        ensures
            r.moves@.len() == 0,
            r.prune is None,
    {
        Rotation { moves: Vec::new(), prune: None }
    }
}

/// What the caller reports of the world before a write.
pub struct Probe {
    /// The time.
    pub now: Timestamp,
    /// The length of the log file, once all that was written to it has been
    /// flushed.
    pub file_len: u64,
    /// The paths that exist, among them every file in the log file's
    /// directory.
    pub existing: Vec<String>,
}

impl Probe {
    /// The paths that exist, as a set of texts.
    pub open spec fn on_disk(&self) -> Set<Seq<char>> {
        texts(self.existing@).to_set()
    }
}

/// A rule that says when a log file is rotated away, and how.
pub trait RotatePolicy: Sized {
    /// The policy's own invariant.
    spec fn wf(&self) -> bool;

    /// What the policy asks of a report before it looks at it.
    spec fn accepts(&self, probe: Probe) -> bool;

    /// What one call of `rotate` may do: `post` is the policy after the call
    /// and `r` its answer.
    spec fn step(&self, buf_len: nat, path: Seq<char>, probe: Probe, post: Self, r: Rotation) -> bool;

    /// Decides, before `buf_len` bytes are written to the log file at `path`,
    /// whether the file is rotated away first.
    fn rotate(&mut self, buf_len: usize, path: &str, probe: &Probe) -> (r: Rotation)
        requires
            old(self).wf(),
            is_log_path(path@),
            old(self).accepts(*probe),
        ensures
            final(self).wf(),
            old(self).step(buf_len as nat, path@, *probe, *final(self), r),
    ;
}

/// The files of a directory tree: each path that exists, with its content.
pub type Disk = Map<Seq<char>, Seq<u8>>;

/// The files after one move. A rename of a file that is not there changes
/// nothing.
pub open spec fn run_move(disk: Disk, m: MoveView) -> Disk {
    match m {
        MoveView::Remove { path } => disk.remove(path),
        MoveView::Rename { from, to } => if disk.dom().contains(from) {
            disk.remove(from).insert(to, disk[from])
        } else {
            disk
        },
    }
}

/// The files after a list of moves, made first to last.
pub open spec fn run_moves(disk: Disk, moves: Seq<MoveView>) -> Disk
    decreases moves.len(),
{
    if moves.len() == 0 {
        disk
    } else {
        run_move(run_moves(disk, moves.drop_last()), moves.last())
    }
}

} // verus!
