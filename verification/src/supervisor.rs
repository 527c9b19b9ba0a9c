//! One language's plugin, and what is done about it: whether it is awake, what
//! waits for it, when it is put to sleep, and when it is no longer trusted
//! with semantic passes.
//!
//! A supervisor is plain state. Whoever owns the process does what a method
//! asks for and reports back; the process itself is known here by its pid.

use vstd::prelude::*;
use vstd::string::*;

use crate::lifecycle::{elapsed, queued, since, DirtyQueue};
use crate::manifest::PluginManifest;
use crate::number::{decimal, decimal_text};
use crate::path::{join, join_path, parent, parent_of, PathStyle};
use crate::state_files::{
    plugin_suspended_marker_file_name, plugin_suspended_name, write_pid_file, write_state_file_atomic,
    StateFileWrite,
};
use crate::text::views;
use crate::time::Duration;

verus! {

/// How handing a change to the plugin ended.
#[derive(Clone, Copy, Debug, PartialEq, Eq, Structural)]
pub enum Applied {
    /// The change is in the index.
    Committed,
    /// The plugin did not answer in time, and has been relaunched.
    TimedOut,
    /// The change could not be applied.
    Failed,
}

/// What is to be done about a change.
#[derive(Clone, Debug)]
pub enum OnChange {
    /// Nothing: it waits until the plugin is woken.
    Queued,
    /// Hand it to the plugin, with a semantic pass over it or without.
    Apply { file_path: String, semantic: bool },
}

/// What is to be done to replay the changes that wait.
#[derive(Clone, Debug)]
pub enum Replay {
    /// Nothing waits.
    Nothing,
    /// The plugin has to be started first.
    Wake,
    /// Hand these to the plugin, in this order.
    Send { files: Vec<String>, semantic: bool },
}

/// What is to be done before a file is answered about.
#[derive(Clone, Copy, Debug, PartialEq, Eq, Structural)]
pub enum Freshen {
    /// Nothing: what the index says is current.
    AlreadyFresh,
    /// The plugin has to be started first.
    Wake,
    /// Have the plugin reindex the file.
    Reindex { semantic: bool },
}

/// What a memory sample calls for.
#[derive(Clone, Debug)]
pub enum OnSample {
    /// Nothing: the plugin keeps running.
    KeepRunning,
    /// There was no sample; to be logged where that has not been done.
    Unavailable { log: bool },
    /// The sample is over the limit: take a second one before acting on it.
    Confirm,
    /// Both samples are over the limit: leave this marker and end this process.
    Suspend { pid: u32, marker: StateFileWrite, reason: String },
}

/// One language's plugin.
#[derive(Debug)]
pub struct PluginSupervisor {
    pub manifest: PluginManifest,
    pub pid_file: String,
    /// How the pid file's path is spelt.
    pub style: PathStyle,
    pub idle_timeout: Option<Duration>,
    pub memory_limit_mb: Option<u64>,
    /// The running process; none while the plugin sleeps.
    pub process: Option<u32>,
    pub dirty: DirtyQueue,
    pub last_activity: Duration,
    /// Whether anything waits; kept beside the queue so that it can be asked
    /// for without it.
    pub pending: bool,
    pub semantic_suspended: bool,
    pub sampling_unavailable_logged: bool,
}

/// What changes about a plugin.
pub struct Plugin {
    pub process: Option<u32>,
    pub dirty: Seq<Seq<char>>,
    pub last_activity: Duration,
    pub suspended: bool,
    pub logged: bool,
}

impl View for PluginSupervisor {
    type V = Plugin;

    open spec fn view(&self) -> Plugin {
        Plugin {
            process: self.process,
            dirty: self.dirty@,
            last_activity: self.last_activity,
            suspended: self.semantic_suspended,
            logged: self.sampling_unavailable_logged,
        }
    }
}

/// What every operation on a plugin keeps: a language once suspended stays
/// suspended, and one is suspended only by putting its plugin to sleep; no
/// change that waits is forgotten, and all of them leave the queue at once, to
/// a plugin that is awake.
pub open spec fn moves(before: Plugin, after: Plugin) -> bool {
    &&& before.suspended ==> after.suspended
    &&& after.suspended && !before.suspended ==> after.process is None
    &&& before.dirty.is_prefix_of(after.dirty) || (before.process is Some && after.process is Some
        && after.dirty.len() == 0)
    &&& before.logged ==> after.logged
}

/// The reason a language is suspended for.
pub open spec fn suspension_reason(limit: u64, measured: u64, confirmed: u64) -> Seq<char> {
    "memoryLimitMb "@ + decimal(limit as nat) + "MB exceeded - measured "@ + decimal(measured as nat)
        + "MB across its process tree and confirmed at "@ + decimal(confirmed as nat)
        + "MB by a second sample"@
}

impl PluginSupervisor {
    /// Whether the state is consistent: no change waits twice, the flag says
    /// whether any waits, and the pid file lies in a directory.
    pub open spec fn wf(self) -> bool {
        &&& self.dirty.wf()
        &&& self.pending == (self.dirty@.len() > 0)
        &&& parent(self.pid_file@, self.style) is Some
    }

    /// Whether this is the same plugin, under the same rules.
    pub open spec fn is_same(self, other: PluginSupervisor) -> bool {
        &&& self.manifest == other.manifest
        &&& self.pid_file == other.pid_file
        &&& self.style == other.style
        &&& self.idle_timeout == other.idle_timeout
        &&& self.memory_limit_mb == other.memory_limit_mb
    }

    /// Whether a change to a file gets a semantic pass: the plugin must be able
    /// to and the language must not be suspended.
    pub open spec fn upgrades(self) -> bool {
        self.manifest.capabilities.semantic_pass && !self.semantic_suspended
    }

    /// Where the marker of a suspension is kept.
    pub open spec fn marker_path(self) -> Seq<char> {
        join(parent(self.pid_file@, self.style)->0, plugin_suspended_name(self.manifest.language@), self.style)
    }

    /// A plugin that has just been started as `pid`, and how that is recorded.
    pub fn start(
        manifest: PluginManifest,
        pid_file: String,
        style: PathStyle,
        idle_timeout: Option<Duration>,
        memory_limit_mb: Option<u64>,
        pid: u32,
        own_pid: u32,
        now: Duration,
    ) -> (r: (Self, StateFileWrite))
        requires
            parent(pid_file@, style) is Some,
        ensures
            r.0.wf(),
            r.0.manifest == manifest,
            r.0.pid_file == pid_file,
            r.0.style == style,
            r.0.idle_timeout == idle_timeout,
            r.0.memory_limit_mb == memory_limit_mb,
            r.0@ == (Plugin {
                process: Some(pid),
                dirty: seq![],
                last_activity: now,
                suspended: false,
                logged: false,
            }),
            r.1.replaces(pid_file@, crate::state_files::pid_text(pid), own_pid, style),
    {
        let record = write_pid_file(pid_file.as_str(), pid, own_pid, style);
        let supervisor = PluginSupervisor {
            manifest,
            pid_file,
            style,
            idle_timeout,
            memory_limit_mb,
            process: Some(pid),
            dirty: DirtyQueue::default(),
            last_activity: now,
            pending: false,
            semantic_suspended: false,
            sampling_unavailable_logged: false,
        };
        (supervisor, record)
    }

    pub fn language(&self) -> (r: &str)
        ensures
            r@ == self.manifest.language@,
    {
        self.manifest.language.as_str()
    }

    pub fn manifest(&self) -> (r: &PluginManifest)
        ensures
            *r == self.manifest,
    {
        &self.manifest
    }

    /// The running process; none while the plugin sleeps.
    pub fn pid(&self) -> (r: Option<u32>)
        ensures
            r == self@.process,
    {
        self.process
    }

    /// Whether any change waits.
    pub fn has_pending(&self) -> (r: bool)
        requires
            self.wf(),
        ensures
            r == (self@.dirty.len() > 0),
    {
        self.pending
    }

    /// How many changes wait.
    pub fn pending_len(&self) -> (r: usize)
        ensures
            r == self@.dirty.len(),
    {
        self.dirty.len()
    }

    pub fn is_semantic_suspended(&self) -> (r: bool)
        ensures
            r == self@.suspended,
    {
        self.semantic_suspended
    }

    fn touch(&mut self, now: Duration)
        ensures
            final(self).is_same(*old(self)),
            moves(old(self)@, final(self)@),
            final(self).pending == old(self).pending,
            final(self).dirty == old(self).dirty,
            final(self)@ == (Plugin { last_activity: now, ..old(self)@ }),
    {
        self.last_activity = now;
    }

    /// How long ago the plugin was last asked for something.
    pub fn idle_for(&self, now: Duration) -> (r: Duration)
        ensures
            r == since(self@.last_activity, now),
    {
        elapsed(self.last_activity, now)
    }

    /// A file changed. It is handed to a plugin that is awake, and waits for
    /// one that sleeps.
    pub fn file_changed(&mut self, file_path: String, now: Duration) -> (r: OnChange)
        requires
            old(self).wf(),
        ensures
            final(self).wf(),
            final(self).is_same(*old(self)),
            moves(old(self)@, final(self)@),
            match old(self)@.process {
                None => r is Queued && final(self)@ == (Plugin {
                    dirty: queued(old(self)@.dirty, file_path@),
                    ..old(self)@
                }),
                Some(_) => r == (OnChange::Apply { file_path, semantic: old(self).upgrades() })
                    && final(self)@ == (Plugin { last_activity: now, ..old(self)@ }),
            },
    {
        match self.process {
            None => {
                self.enqueue(file_path);
                OnChange::Queued
            },
            Some(_) => {
                let semantic: bool = self.manifest.capabilities.semantic_pass && !self.semantic_suspended;
                self.touch(now);
                OnChange::Apply { file_path, semantic }
            },
        }
    }

    fn enqueue(&mut self, file_path: String)
        requires
            old(self).wf(),
        ensures
            final(self).wf(),
            final(self).is_same(*old(self)),
            moves(old(self)@, final(self)@),
            final(self)@ == (Plugin { dirty: queued(old(self)@.dirty, file_path@), ..old(self)@ }),
    {
        proof {
            crate::lifecycle::a_repeated_change_is_queued_once(self@.dirty, file_path@);
            let q = queued(self@.dirty, file_path@);
            assert(q.len() > 0) by {
                let i = choose|i: int| 0 <= i < q.len() && q[i] == file_path@;
            }
        }
        self.dirty.push(file_path);
        self.pending = true;
    }

    /// A change was handed to the plugin, with this result. One that timed out
    /// waits for the next replay: the plugin may have been in the middle of
    /// it, so it is not sent again right away. One that failed is dropped.
    pub fn file_change_ended(&mut self, file_path: String, outcome: Applied)
        requires
            old(self).wf(),
        ensures
            final(self).wf(),
            final(self).is_same(*old(self)),
            moves(old(self)@, final(self)@),
            final(self)@ == (if outcome == Applied::TimedOut {
                Plugin { dirty: queued(old(self)@.dirty, file_path@), ..old(self)@ }
            } else {
                old(self)@
            }),
    {
        match outcome {
            Applied::TimedOut => {
                self.enqueue(file_path);
            },
            _ => {},
        }
    }

    /// The changes that wait are to be replayed. A plugin that sleeps is to be
    /// started first, and until it has been, everything keeps waiting.
    pub fn replay_pending(&mut self, now: Duration) -> (r: Replay)
        requires
            old(self).wf(),
        ensures
            final(self).wf(),
            final(self).is_same(*old(self)),
            moves(old(self)@, final(self)@),
            if old(self)@.dirty.len() == 0 {
                r is Nothing && final(self)@ == old(self)@
            } else if old(self)@.process is None {
                r is Wake && final(self)@ == old(self)@
            } else {
                &&& r matches Replay::Send { files, semantic } && views(files@) == old(self)@.dirty
                    && semantic == old(self).upgrades()
                &&& final(self)@ == (Plugin { dirty: seq![], last_activity: now, ..old(self)@ })
            },
    {
        if self.dirty.is_empty() {
            self.pending = false;
            return Replay::Nothing;
        }
        match self.process {
            None => Replay::Wake,
            Some(_) => {
                let files = self.dirty.drain();
                self.pending = false;
                let semantic: bool = self.manifest.capabilities.semantic_pass && !self.semantic_suspended;
                self.touch(now);
                Replay::Send { files, semantic }
            },
        }
    }

    /// The plugin has been started again as `pid`; how that is recorded.
    pub fn woken(&mut self, pid: u32, own_pid: u32) -> (r: StateFileWrite)
        requires
            old(self).wf(),
        ensures
            final(self).wf(),
            final(self).is_same(*old(self)),
            moves(old(self)@, final(self)@),
            final(self)@ == (Plugin { process: Some(pid), ..old(self)@ }),
            r.replaces(
                old(self).pid_file@,
                crate::state_files::pid_text(pid),
                own_pid,
                old(self).style,
            ),
    {
        self.process = Some(pid);
        write_pid_file(self.pid_file.as_str(), pid, own_pid, self.style)
    }

    /// Whether a semantic pass over the project may be asked for: not of a
    /// language that is suspended, and not of a plugin that sleeps.
    pub fn semantic_pass(&mut self, now: Duration) -> (r: bool)
        requires
            old(self).wf(),
        ensures
            final(self).wf(),
            final(self).is_same(*old(self)),
            moves(old(self)@, final(self)@),
            r == (!old(self)@.suspended && old(self)@.process is Some),
            final(self)@ == (if r {
                Plugin { last_activity: now, ..old(self)@ }
            } else {
                old(self)@
            }),
    {
        if self.semantic_suspended || self.process.is_none() {
            return false;
        }
        self.touch(now);
        true
    }

    /// A file is about to be answered about. One that is current needs nothing;
    /// a stale one is reindexed by the plugin, which is woken for it.
    pub fn ensure_fresh(&mut self, stale: bool, now: Duration) -> (r: Freshen)
        requires
            old(self).wf(),
        ensures
            final(self).wf(),
            final(self).is_same(*old(self)),
            moves(old(self)@, final(self)@),
            if !stale {
                r == Freshen::AlreadyFresh && final(self)@ == old(self)@
            } else if old(self)@.process is None {
                r == Freshen::Wake && final(self)@ == old(self)@
            } else {
                r == (Freshen::Reindex { semantic: old(self).upgrades() }) && final(self)@ == (Plugin {
                    last_activity: now,
                    ..old(self)@
                })
            },
    {
        if !stale {
            return Freshen::AlreadyFresh;
        }
        match self.process {
            None => Freshen::Wake,
            Some(_) => {
                let semantic: bool = self.manifest.capabilities.semantic_pass && !self.semantic_suspended;
                self.touch(now);
                Freshen::Reindex { semantic }
            },
        }
    }

    /// Whether the plugin has been idle for as long as its timer says.
    pub open spec fn is_idle(self, now: Duration) -> bool {
        match self.idle_timeout {
            Some(timeout) => since(self@.last_activity, now) >= timeout,
            None => false,
        }
    }

    /// Puts an idle plugin to sleep: the process to end, if it is idle and
    /// awake.
    pub fn sleep_if_idle(&mut self, now: Duration) -> (r: Option<u32>)
        requires
            old(self).wf(),
        ensures
            final(self).wf(),
            final(self).is_same(*old(self)),
            moves(old(self)@, final(self)@),
            r == (if old(self).is_idle(now) {
                old(self)@.process
            } else {
                None
            }),
            final(self)@ == (if old(self).is_idle(now) {
                Plugin { process: None, ..old(self)@ }
            } else {
                old(self)@
            }),
    {
        match self.idle_timeout {
            None => None,
            Some(timeout) => {
                if self.idle_for(now) < timeout {
                    return None;
                }
                self.sleep_now()
            },
        }
    }

    /// Puts the plugin to sleep: the process to end, if it is awake.
    pub fn sleep_now(&mut self) -> (r: Option<u32>)
        requires
            old(self).wf(),
        ensures
            final(self).wf(),
            final(self).is_same(*old(self)),
            moves(old(self)@, final(self)@),
            r == old(self)@.process,
            final(self)@ == (Plugin { process: None, ..old(self)@ }),
    {
        let pid = self.process;
        self.process = None;
        pid
    }

    /// The process whose memory is to be sampled: none without a limit, and
    /// none while the plugin sleeps.
    pub fn check_memory_limit(&self) -> (r: Option<u32>)
        ensures
            r == (if self.memory_limit_mb is Some {
                self@.process
            } else {
                None
            }),
    {
        match self.memory_limit_mb {
            Some(_) => self.process,
            None => None,
        }
    }

    fn log_sampling_unavailable_once(&mut self) -> (r: bool)
        requires
            old(self).wf(),
        ensures
            final(self).wf(),
            final(self).is_same(*old(self)),
            moves(old(self)@, final(self)@),
            r == !old(self)@.logged,
            final(self)@ == (Plugin { logged: true, ..old(self)@ }),
    {
        let log: bool = !self.sampling_unavailable_logged;
        self.sampling_unavailable_logged = true;
        log
    }

    /// The first sample, in mebibytes. One within the limit is the end of it;
    /// one over the limit has to be confirmed.
    pub fn memory_sampled(&mut self, measured_mb: Option<u64>) -> (r: OnSample)
        requires
            old(self).wf(),
            old(self).memory_limit_mb is Some,
        ensures
            final(self).wf(),
            final(self).is_same(*old(self)),
            moves(old(self)@, final(self)@),
            match measured_mb {
                None => r == (OnSample::Unavailable { log: !old(self)@.logged }) && final(self)@ == (Plugin {
                    logged: true,
                    ..old(self)@
                }),
                Some(mb) => final(self)@ == old(self)@ && if mb <= old(self).memory_limit_mb->0 {
                    r is KeepRunning
                } else {
                    r is Confirm
                },
            },
    {
        match measured_mb {
            None => OnSample::Unavailable { log: self.log_sampling_unavailable_once() },
            Some(mb) => match self.memory_limit_mb {
                Some(limit) => {
                    if mb <= limit {
                        OnSample::KeepRunning
                    } else {
                        OnSample::Confirm
                    }
                },
                None => OnSample::KeepRunning,
            },
        }
    }

    /// The second sample after one over the limit. Only if it is over the
    /// limit too is the plugin put to sleep and its language suspended, for
    /// good.
    pub fn memory_confirmed(&mut self, measured_mb: u64, confirmed_mb: Option<u64>, own_pid: u32) -> (r:
        OnSample)
        requires
            old(self).wf(),
            old(self).memory_limit_mb is Some,
            old(self)@.process is Some,
        ensures
            final(self).wf(),
            final(self).is_same(*old(self)),
            moves(old(self)@, final(self)@),
            match confirmed_mb {
                None => r == (OnSample::Unavailable { log: !old(self)@.logged }) && final(self)@ == (Plugin {
                    logged: true,
                    ..old(self)@
                }),
                Some(mb) => if mb <= old(self).memory_limit_mb->0 {
                    r is KeepRunning && final(self)@ == old(self)@
                } else {
                    let why = suspension_reason(old(self).memory_limit_mb->0, measured_mb, mb);
                    &&& r matches OnSample::Suspend { pid, marker, reason } && Some(pid)
                        == old(self)@.process && reason@ == why && marker.replaces(
                        old(self).marker_path(),
                        why + "\n"@,
                        own_pid,
                        old(self).style,
                    )
                    &&& final(self)@ == (Plugin { process: None, suspended: true, ..old(self)@ })
                },
            },
    {
        match confirmed_mb {
            None => OnSample::Unavailable { log: self.log_sampling_unavailable_once() },
            Some(mb) => match (self.memory_limit_mb, self.process) {
                (Some(limit), Some(pid)) => {
                    if mb <= limit {
                        return OnSample::KeepRunning;
                    }
                    let mut reason: String = "memoryLimitMb ".to_owned();
                    reason.append(decimal_text(limit as u128).as_str());
                    reason.append("MB exceeded - measured ");
                    reason.append(decimal_text(measured_mb as u128).as_str());
                    reason.append("MB across its process tree and confirmed at ");
                    reason.append(decimal_text(mb as u128).as_str());
                    reason.append("MB by a second sample");
                    self.process = None;
                    self.semantic_suspended = true;
                    let marker = self.write_suspended_marker(reason.as_str(), own_pid);
                    OnSample::Suspend { pid, marker, reason }
                },
                _ => OnSample::KeepRunning,
            },
        }
    }

    /// Where the marker of a suspension is kept, beside the pid file.
    pub fn suspended_marker_path(&self) -> (r: String)
        requires
            self.wf(),
        ensures
            r@ == self.marker_path(),
    {
        let name = plugin_suspended_marker_file_name(self.manifest.language.as_str());
        match parent_of(self.pid_file.as_str(), self.style) {
            Some(dir) => join_path(dir.as_str(), name.as_str(), self.style),
            None => name,
        }
    }

    fn write_suspended_marker(&self, reason: &str, own_pid: u32) -> (r: StateFileWrite)
        requires
            self.wf(),
        ensures
            r.replaces(self.marker_path(), reason@ + "\n"@, own_pid, self.style),
    {
        let mut text: String = reason.to_owned();
        text.append("\n");
        write_state_file_atomic(
            self.suspended_marker_path().as_str(),
            text.as_str(),
            own_pid,
            self.style,
        )
    }
}

/// How many of the changes were committed.
pub open spec fn committed(outcomes: Seq<Applied>) -> nat
    decreases outcomes.len(),
{
    if outcomes.len() == 0 {
        0
    } else {
        committed(outcomes.drop_last()) + if outcomes.last() == Applied::Committed {
            1nat
        } else {
            0nat
        }
    }
}

/// How many of the changes were replayed: those that were committed. One that
/// was not does not keep the others from being replayed.
pub fn replayed(outcomes: &Vec<Applied>) -> (r: usize)
    ensures
        r == committed(outcomes@),
{
    let mut n: usize = 0;
    let mut i: usize = 0;
    proof {
        assert(outcomes@.take(0) =~= seq![]);
    }
    while i < outcomes.len()
        invariant
            i <= outcomes.len(),
            n <= i,
            n == committed(outcomes@.take(i as int)),
        decreases outcomes.len() - i,
    {
        proof {
            assert(outcomes@.take(i + 1).drop_last() =~= outcomes@.take(i as int));
            assert(outcomes@.take(i + 1).last() == outcomes@[i as int]);
        }
        if outcomes[i] == Applied::Committed {
            n += 1;
        }
        i += 1;
    }
    proof {
        assert(outcomes@.take(i as int) =~= outcomes@);
    }
    n
}

} // verus!
