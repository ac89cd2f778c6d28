//! The sink: a log file with a policy that rotates it.
//!
//! The sink holds no file handle. It keeps track of whether its caller holds
//! one, and tells the caller, before each write, what to do on disk.

use crate::clock::Timestamp;
use crate::config::{parse_descriptor, ConfigError, Descriptor, DescriptorView, descriptor_of};
use crate::names::is_log_path;
use crate::plan::{Probe, RotatePolicy, Rotation};
use crate::size::SizeRotatePolicy;
use crate::timed::{
    is_midnight, is_rollover, is_utc_token, period_seconds, unit_format, TimedRotatePolicy,
};
use vstd::prelude::*;

verus! {

/// One of the two policies.
pub enum Policy {
    Size(SizeRotatePolicy),
    Timed(TimedRotatePolicy),
}

impl RotatePolicy for Policy {
    open spec fn wf(&self) -> bool {
        match *self {
            Policy::Size(p) => p.wf(),
            Policy::Timed(p) => p.wf(),
        }
    }

    open spec fn accepts(&self, probe: Probe) -> bool {
        match *self {
            Policy::Size(p) => p.accepts(probe),
            Policy::Timed(p) => p.accepts(probe),
        }
    }

    /// The step of the policy that this one is.
    open spec fn step(
        &self,
        buf_len: nat,
        path: Seq<char>,
        probe: Probe,
        post: Self,
        r: Rotation,
    ) -> bool {
        match (*self, post) {
            (Policy::Size(a), Policy::Size(b)) => a.step(buf_len, path, probe, b, r),
            (Policy::Timed(a), Policy::Timed(b)) => a.step(buf_len, path, probe, b, r),
            _ => false,
        }
    }

    /// Asks the policy that this one is.
    fn rotate(&mut self, buf_len: usize, path: &str, probe: &Probe) -> (r: Rotation) {
        match self {
            Policy::Size(p) => p.rotate(buf_len, path, probe),
            Policy::Timed(p) => p.rotate(buf_len, path, probe),
        }
    }
}

impl Policy {
    /// Whether the policy is in order.
    pub fn is_well_formed(&self) -> (r: bool)
        ensures
            r == self.wf(),
    {
        match self {
            Policy::Size(_) => true,
            Policy::Timed(p) => p.is_well_formed(),
        }
    }
}

/// What the caller is to do for one write, in this order: make the moves of
/// the rotation, prune if the rotation says so, open the path anew in place
/// of the handle it holds, and write the bytes to the handle.
pub struct WritePlan {
    pub rotation: Rotation,
    /// Open the log file's path for appending, creating the file, and let
    /// the new handle take the place of the old.
    pub reopen: bool,
    /// Write the bytes. Where this is `false` there is no handle, and the
    /// write is over with no byte written.
    pub write: bool,
}

/// A log file and the policy that rotates it.
pub struct LogFile<P: RotatePolicy> {
    /// Whether the caller holds an open handle for the file.
    pub opened: bool,
    pub log_file: String,
    pub policy: P,
}

impl<P: RotatePolicy> LogFile<P> {
    /// The path names a file, and the policy is in order.
    pub open spec fn wf(&self) -> bool {
        is_log_path(self.log_file@) && self.policy.wf()
    }

    /// What one call of `try_rotate` may do: without a handle nothing, and
    /// with one what the policy's step says.
    pub open spec fn rotate_step(&self, buf_len: nat, probe: Probe, post: Self, r: Rotation) -> bool {
        &&& post.opened == self.opened
        &&& post.log_file == self.log_file
        &&& if self.opened {
            self.policy.step(buf_len, self.log_file@, probe, post.policy, r)
        } else {
            post.policy == self.policy && r.moves@.len() == 0 && r.prune is None
        }
    }

    /// What one call of `write` may do: the rotation is that of
    /// `rotate_step`, the file is opened anew exactly if it was rotated away,
    /// and the bytes are written exactly if there is a handle.
    pub open spec fn write_step(&self, buf_len: nat, probe: Probe, post: Self, plan: WritePlan) -> bool {
        &&& self.rotate_step(buf_len, probe, post, plan.rotation)
        &&& plan.reopen == plan.rotation.rotated()
        &&& plan.write == self.opened
    }

    /// A sink for the file at `log_file`, not yet open.
    pub fn new(log_file: String, policy: P) -> (r: Self)
        requires
            is_log_path(log_file@),
            policy.wf(),
        ensures
            r.wf(),
            !r.opened,
            r.log_file == log_file,
            r.policy == policy,
    {
        LogFile { opened: false, log_file, policy }
    }

    /// Notes that the caller has opened the file and holds its handle.
    pub fn open(&mut self)
        ensures
            final(self).opened,
            final(self).log_file == old(self).log_file,
            final(self).policy == old(self).policy,
    {
        self.opened = true;
    }

    /// Asks the policy, if there is a handle, whether the file is rotated
    /// away before `buf_len` bytes are written. `probe` reports the world as
    /// it is once the handle has been flushed.
    pub fn try_rotate(&mut self, buf_len: usize, probe: &Probe) -> (r: Rotation)
        requires
            old(self).wf(),
            old(self).policy.accepts(*probe),
        ensures
            final(self).wf(),
            old(self).rotate_step(buf_len as nat, *probe, *final(self), r),
    {
        if self.opened {
            self.policy.rotate(buf_len, self.log_file.as_str(), probe)
        } else {
            Rotation::none()
        }
    }

    /// Plans the write of `buf_len` bytes.
    pub fn write(&mut self, buf_len: usize, probe: &Probe) -> (plan: WritePlan)
        requires
            old(self).wf(),
            old(self).policy.accepts(*probe),
        ensures
            final(self).wf(),
            old(self).write_step(buf_len as nat, *probe, *final(self), plan),
    {
        let rotation = self.try_rotate(buf_len, probe);
        let reopen = rotation.is_rotated();
        WritePlan { rotation, reopen, write: self.opened }
    }

    /// Whether there is a handle to flush.
    pub fn flush(&self) -> (r: bool)
        ensures
            r == self.opened,
    {
        self.opened
    }
}

/// Whether `log` is the sink that the descriptor `d` asks for, with `seed`
/// as the instant from which the first rollover is counted and `now` as the
/// time of the last look.
pub open spec fn built_from(d: DescriptorView, seed: Timestamp, now: Timestamp, log: LogFile<Policy>) -> bool {
    &&& log.wf()
    &&& !log.opened
    &&& log.log_file@ == d.path()
    &&& match d {
        DescriptorView::Size { max_file_size, max_backup, .. } => log.policy == Policy::Size(
            SizeRotatePolicy { max_file_size, max_backup },
        ),
        DescriptorView::Time { interval, when, utc, max_backup, .. } => {
            &&& log.policy is Timed
            &&& log.policy->Timed_0.utc == is_utc_token(utc)
            &&& log.policy->Timed_0.midnight == is_midnight(when)
            &&& log.policy->Timed_0.duration == period_seconds(interval as nat, when)
            &&& log.policy->Timed_0.format@ == unit_format(when)
            &&& log.policy->Timed_0.max_backup == max_backup
            &&& log.policy->Timed_0.check_time == now
            &&& is_rollover(
                seed,
                log.policy->Timed_0.utc,
                log.policy->Timed_0.midnight,
                log.policy->Timed_0.duration as nat,
                log.policy->Timed_0.rollover_at,
            )
        },
    }
}

impl LogFile<Policy> {
    /// The sink that a descriptor asks for. A timed policy counts its first
    /// rollover from `seed`: the time at which the log file was last
    /// modified, or `now` where there is no such file.
    pub fn from_descriptor(d: Descriptor, seed: Timestamp, now: Timestamp) -> (r: Self)
        requires
            d@.wf(),
            seed.in_calendar(),
            now.in_calendar(),
        ensures
            built_from(d@, seed, now, r),
    {
        match d {
            Descriptor::Size { max_file_size, max_backup, path } => {
                let policy = SizeRotatePolicy::new(max_file_size, max_backup);
                LogFile::new(path, Policy::Size(policy))
            },
            Descriptor::Time { interval, when, utc, max_backup, path } => {
                let policy = TimedRotatePolicy::new(
                    interval,
                    when.as_str(),
                    utc.as_str(),
                    max_backup,
                    seed,
                    now,
                );
                LogFile::new(path, Policy::Timed(policy))
            },
        }
    }

    /// The sink that the descriptor `s` asks for, or why there is none.
    pub fn from_str(s: &str, seed: Timestamp, now: Timestamp) -> (r: Result<Self, ConfigError>)
        requires
            seed.in_calendar(),
            now.in_calendar(),
        ensures
            match descriptor_of(s@) {
                Ok(d) => r is Ok && built_from(d, seed, now, r->Ok_0),
                Err(e) => r == Err::<Self, ConfigError>(e),
            },
    {
        match parse_descriptor(s) {
            Ok(d) => Ok(Self::from_descriptor(d, seed, now)),
            Err(e) => Err(e),
        }
    }
}

} // verus!
