//! Handing a change to a live plugin process, and what is done when that goes
//! wrong.
//!
//! A process that died is replaced, and what it left undone is sent again to
//! its successor. A process that did not answer in time has been killed: it is
//! replaced, but the change is not sent again, because it may have been half
//! done. A process that is alive and whose answer the index refused is
//! replaced too, so that it forgets a change the index never took, and the
//! refusal is what the caller gets.

use vstd::prelude::*;
use vstd::string::*;

use crate::lifecycle::queued;
use crate::path::PathStyle;
use crate::plugin::RoundTripTimeouts;
use crate::state_files::{pid_text, write_pid_file, StateFileWrite};
use crate::supervisor::Applied;
use crate::text::{contains_text, same, views};
use crate::time::Duration;

verus! {

/// How often an ending process is looked at.
pub const EXIT_POLL_INTERVAL: Duration = 10_000_000;

/// How long a replaced process has to exit by itself before it is killed.
pub const RELAUNCH_GRACE: Duration = 2_000_000_000;

/// How long a process whose pipes broke has to turn out to be gone.
pub const CRASH_CHECK_BUDGET: Duration = 500_000_000;

/// How often it is looked at meanwhile.
pub const CRASH_CHECK_INTERVAL: Duration = 5_000_000;

// ---------------------------------------------------------------------------
// Looking at a process
// ---------------------------------------------------------------------------
/// What looking at a process once leads to.
#[derive(Clone, Copy, Debug, PartialEq, Eq, Structural)]
pub enum Poll {
    Exited,
    StillRunning,
    LookAgainAfter { interval: Duration },
}

/// Whether a process has exited, as far as one look tells: its pipes close a
/// moment before its exit can be seen, so it is looked at for a while.
pub fn process_has_exited(exit_seen: bool, waited: Duration) -> (r: Poll)
    ensures
        r == (if exit_seen {
            Poll::Exited
        } else if waited >= CRASH_CHECK_BUDGET {
            Poll::StillRunning
        } else {
            Poll::LookAgainAfter { interval: CRASH_CHECK_INTERVAL }
        }),
{
    if exit_seen {
        Poll::Exited
    } else if waited >= CRASH_CHECK_BUDGET {
        Poll::StillRunning
    } else {
        Poll::LookAgainAfter { interval: CRASH_CHECK_INTERVAL }
    }
}

/// Whether a process whose pipes were closed has exited, as far as one look
/// tells; one that is still running after its grace is to be killed.
pub fn end_poll(exit_seen: bool, waited: Duration, grace: Duration) -> (r: Poll)
    ensures
        r == (if exit_seen {
            Poll::Exited
        } else if waited >= grace {
            Poll::StillRunning
        } else {
            Poll::LookAgainAfter { interval: EXIT_POLL_INTERVAL }
        }),
{
    if exit_seen {
        Poll::Exited
    } else if waited >= grace {
        Poll::StillRunning
    } else {
        Poll::LookAgainAfter { interval: EXIT_POLL_INTERVAL }
    }
}

// ---------------------------------------------------------------------------
// The process and its pending changes
// ---------------------------------------------------------------------------
/// `queue` without `file`.
pub open spec fn without(queue: Seq<Seq<char>>, file: Seq<char>) -> Seq<Seq<char>>
    decreases queue.len(),
{
    if queue.len() == 0 {
        queue
    } else if queue.last() == file {
        without(queue.drop_last(), file)
    } else {
        without(queue.drop_last(), file).push(queue.last())
    }
}

proof fn lemma_without(queue: Seq<Seq<char>>, file: Seq<char>)
    ensures
        !without(queue, file).contains(file),
        without(queue, file).len() <= queue.len(),
        queue.contains(file) ==> without(queue, file).len() < queue.len(),
        forall|f: Seq<char>|
            f != file ==> (#[trigger] without(queue, file).contains(f) <==> queue.contains(f)),
        queue.no_duplicates() ==> without(queue, file).no_duplicates(),
    decreases queue.len(),
{
    if queue.len() > 0 {
        let front = queue.drop_last();
        let w = without(queue, file);
        let wf = without(front, file);
        lemma_without(front, file);
        assert forall|f: Seq<char>| f != file implies (#[trigger] w.contains(f) <==> queue.contains(f)) by {
            if queue.contains(f) {
                let k = choose|k: int| 0 <= k < queue.len() && queue[k] == f;
                if k < front.len() {
                    assert(front[k] == f);
                    assert(wf.contains(f));
                    let m = choose|m: int| 0 <= m < wf.len() && wf[m] == f;
                    assert(w[m] == f);
                } else {
                    assert(w[w.len() - 1] == f);
                }
            }
            if w.contains(f) {
                let m = choose|m: int| 0 <= m < w.len() && w[m] == f;
                if m < wf.len() {
                    assert(wf[m] == f);
                    assert(wf.contains(f));
                    let k = choose|k: int| 0 <= k < front.len() && front[k] == f;
                    assert(queue[k] == f);
                } else {
                    assert(queue[queue.len() - 1] == f);
                }
            }
        }
        if w.contains(file) {
            let m = choose|m: int| 0 <= m < w.len() && w[m] == file;
            if m < wf.len() {
                assert(wf[m] == file);
            }
        }
        if queue.contains(file) && queue.last() != file {
            let k = choose|k: int| 0 <= k < queue.len() && queue[k] == file;
            assert(front[k] == file);
        }
        if queue.no_duplicates() {
            assert(front.no_duplicates());
            if queue.last() != file && wf.contains(queue.last()) {
                assert(front.contains(queue.last()));
                let k = choose|k: int| 0 <= k < front.len() && front[k] == queue.last();
                assert(queue[k] == queue[queue.len() - 1]);
            }
            assert forall|i: int, j: int| 0 <= i < w.len() && 0 <= j < w.len() && i != j implies w[i]
                != w[j] by {
                if i < wf.len() && j < wf.len() {
                    assert(w[i] == wf[i] && w[j] == wf[j]);
                } else if i < wf.len() {
                    assert(wf.contains(wf[i]));
                } else {
                    assert(wf.contains(wf[j]));
                }
            }
        }
    }
}

/// A live plugin process: its pid, the budgets of its round trips, and the
/// changes that were handed to it and are not known to be committed.
#[derive(Debug)]
pub struct PluginProcess {
    pub pid: u32,
    pub pid_file: String,
    /// How the pid file's path is spelt.
    pub style: PathStyle,
    pub next_id: i64,
    pub pending: Vec<String>,
    pub timeouts: RoundTripTimeouts,
}

/// What changes about a process.
pub struct Live {
    pub pid: u32,
    pub pending: Seq<Seq<char>>,
}

impl View for PluginProcess {
    type V = Live;

    open spec fn view(&self) -> Live {
        Live { pid: self.pid, pending: views(self.pending@) }
    }
}

/// How one round trip ended.
#[derive(Clone, Copy, Debug, PartialEq, Eq, Structural)]
pub enum Sent {
    /// The plugin's answer is in the index.
    Committed,
    /// The plugin did not answer in time, and was killed.
    TimedOut,
    /// Anything else: broken pipes, an answer that cannot be read or that the
    /// index refused.
    Failed,
}

/// How handing over a change ended.
#[derive(Clone, Copy, Debug, PartialEq, Eq, Structural)]
pub enum Delivered {
    Committed,
    /// It timed out, and is still pending.
    TimedOut,
    /// The plugin is alive and its answer was refused; nothing is pending of
    /// it.
    Refused,
    /// The process is gone and could not be replaced.
    RelaunchFailed,
    /// The process was replaced, and sending what was pending timed out.
    ReplayTimedOut,
    /// The process was replaced, and sending what was pending failed.
    ReplayFailed,
}

impl Delivered {
    /// What a supervisor makes of it: a round trip that timed out is a timeout,
    /// whether it was the first one or one of a replay.
    pub fn applied(self) -> (r: Applied)
        ensures
            r == (match self {
                Delivered::Committed => Applied::Committed,
                Delivered::TimedOut | Delivered::ReplayTimedOut => Applied::TimedOut,
                _ => Applied::Failed,
            }),
    {
        match self {
            Delivered::Committed => Applied::Committed,
            Delivered::TimedOut => Applied::TimedOut,
            Delivered::ReplayTimedOut => Applied::TimedOut,
            _ => Applied::Failed,
        }
    }
}

/// Where a delivery stands.
#[derive(Clone, Debug)]
pub enum Step {
    Sending,
    /// A round trip with `sent_to` failed: is that process still there?
    Checking { timed_out: bool, sent_to: u32 },
    RelaunchingAfterTimeout,
    RelaunchingAfterRefusal,
    RelaunchingAfterCrash,
    Replaying { file: String },
    Over,
}

/// What a `Step` says.
pub enum At {
    Sending,
    Checking { timed_out: bool, sent_to: u32 },
    RelaunchingAfterTimeout,
    RelaunchingAfterRefusal,
    RelaunchingAfterCrash,
    Replaying(Seq<char>),
    Over,
}

impl View for Step {
    type V = At;

    open spec fn view(&self) -> At {
        match self {
            Step::Sending => At::Sending,
            Step::Checking { timed_out, sent_to } => At::Checking {
                timed_out: *timed_out,
                sent_to: *sent_to,
            },
            Step::RelaunchingAfterTimeout => At::RelaunchingAfterTimeout,
            Step::RelaunchingAfterRefusal => At::RelaunchingAfterRefusal,
            Step::RelaunchingAfterCrash => At::RelaunchingAfterCrash,
            Step::Replaying { file } => At::Replaying(file@),
            Step::Over => At::Over,
        }
    }
}

/// A change on its way to the plugin.
#[derive(Clone, Debug)]
pub struct Delivery {
    pub file: String,
    pub step: Step,
}

/// What is reported to a delivery.
#[derive(Clone, Copy, Debug, PartialEq, Eq, Structural)]
pub enum News {
    /// A round trip ended; `sent_to` is the process it was with.
    SendEnded { sent_to: u32, result: Sent },
    /// Whether the current process has exited, and which one that is.
    ExitChecked { exited: bool, current: u32 },
    /// A fresh process is there, or could not be started.
    Relaunched { pid: Option<u32> },
}

/// What a delivery asks for.
#[derive(Clone, Debug)]
pub enum Act {
    /// One round trip for this file with the current process.
    Send { file: String },
    /// Find out whether the current process has exited.
    CheckExited,
    /// Replace the current process by a fresh one.
    Relaunch,
    /// The delivery is over.
    Finish { outcome: Delivered },
}

/// What an `Act` says.
pub enum Ask {
    Send(Seq<char>),
    CheckExited,
    Relaunch,
    Finish(Delivered),
}

impl View for Act {
    type V = Ask;

    open spec fn view(&self) -> Ask {
        match self {
            Act::Send { file } => Ask::Send(file@),
            Act::CheckExited => Ask::CheckExited,
            Act::Relaunch => Ask::Relaunch,
            Act::Finish { outcome } => Ask::Finish(*outcome),
        }
    }
}

/// Sending what is pending, one after the other: the first of it, or the end
/// where nothing is.
pub open spec fn replay_next(p: Live) -> (At, Ask) {
    if p.pending.len() == 0 {
        (At::Over, Ask::Finish(Delivered::Committed))
    } else {
        (At::Replaying(p.pending[0]), Ask::Send(p.pending[0]))
    }
}

/// What a delivery of `file` makes of what is reported to it: how the process
/// stands then, where the delivery stands, and what it asks for. News that it
/// does not wait for changes nothing.
pub open spec fn next_step(p: Live, file: Seq<char>, at: At, news: News) -> Option<(Live, At, Ask)> {
    match (at, news) {
        (At::Sending, News::SendEnded { sent_to, result }) => match result {
            Sent::Committed => Some(
                (
                    Live { pending: without(p.pending, file), ..p },
                    At::Over,
                    Ask::Finish(Delivered::Committed),
                ),
            ),
            Sent::TimedOut => Some((p, At::Checking { timed_out: true, sent_to }, Ask::CheckExited)),
            Sent::Failed => Some((p, At::Checking { timed_out: false, sent_to }, Ask::CheckExited)),
        },
        (At::Checking { timed_out, sent_to }, News::ExitChecked { exited, current }) => if timed_out {
            if exited {
                Some((p, At::RelaunchingAfterTimeout, Ask::Relaunch))
            } else {
                Some((p, At::Over, Ask::Finish(Delivered::TimedOut)))
            }
        } else if exited {
            Some((p, At::RelaunchingAfterCrash, Ask::Relaunch))
        } else if current == sent_to {
            Some(
                (
                    Live { pending: without(p.pending, file), ..p },
                    At::RelaunchingAfterRefusal,
                    Ask::Relaunch,
                ),
            )
        } else {
            Some((p, replay_next(p).0, replay_next(p).1))
        },
        (At::RelaunchingAfterTimeout, News::Relaunched { pid }) => match pid {
            Some(fresh) => Some(
                (Live { pid: fresh, ..p }, At::Over, Ask::Finish(Delivered::TimedOut)),
            ),
            None => Some((p, At::Over, Ask::Finish(Delivered::RelaunchFailed))),
        },
        (At::RelaunchingAfterRefusal, News::Relaunched { pid }) => Some(
            (
                Live {
                    pid: match pid {
                        Some(fresh) => fresh,
                        None => p.pid,
                    },
                    ..p
                },
                At::Over,
                Ask::Finish(Delivered::Refused),
            ),
        ),
        (At::RelaunchingAfterCrash, News::Relaunched { pid }) => match pid {
            Some(fresh) => {
                let q = Live { pid: fresh, ..p };
                Some((q, replay_next(q).0, replay_next(q).1))
            },
            None => Some((p, At::Over, Ask::Finish(Delivered::RelaunchFailed))),
        },
        (At::Replaying(sent), News::SendEnded { sent_to, result }) => match result {
            Sent::Committed => {
                let q = Live { pending: without(p.pending, sent), ..p };
                Some((q, replay_next(q).0, replay_next(q).1))
            },
            Sent::TimedOut => Some((p, At::Over, Ask::Finish(Delivered::ReplayTimedOut))),
            Sent::Failed => Some((p, At::Over, Ask::Finish(Delivered::ReplayFailed))),
        },
        _ => None,
    }
}

impl PluginProcess {
    /// Whether nothing is pending twice.
    pub open spec fn wf(self) -> bool {
        self@.pending.no_duplicates()
    }

    /// A process that has just been started.
    pub fn spawn(pid: u32, pid_file: String, style: PathStyle, timeouts: RoundTripTimeouts) -> (r: Self)
        ensures
            r.wf(),
            r@ == (Live { pid, pending: seq![] }),
            r.pid_file == pid_file,
            r.style == style,
            r.next_id == 1,
            r.timeouts == timeouts,
    {
        let r = PluginProcess { pid, pid_file, style, next_id: 1, pending: Vec::new(), timeouts };
        proof {
            assert(r@.pending =~= seq![]);
        }
        r
    }

    /// The process's pid.
    pub fn pid(&self) -> (r: u32)
        ensures
            r == self@.pid,
    {
        self.pid
    }

    /// An id for the next request: one more than the last, starting over past
    /// the largest.
    pub fn next_request_id(&mut self) -> (r: i64)
        ensures
            r == old(self).next_id,
            final(self).next_id == (if old(self).next_id == i64::MAX {
                i64::MIN
            } else {
                (old(self).next_id + 1) as i64
            }),
            final(self)@ == old(self)@,
            final(self).pid_file == old(self).pid_file,
            final(self).style == old(self).style,
            final(self).timeouts == old(self).timeouts,
    {
        let id: i64 = self.next_id;
        self.next_id = if id == i64::MAX {
            i64::MIN
        } else {
            id + 1
        };
        id
    }

    /// How long a semantic pass over a project of this many files gets.
    pub fn semantic_pass(&self, file_count: usize) -> (r: Duration)
        ensures
            r == self.timeouts.project_timeout(file_count as nat),
    {
        self.timeouts.semantic_pass_project_timeout(file_count)
    }

    /// Adds a change to what is pending, unless it is there.
    fn enqueue_pending(&mut self, file_path: &str)
        requires
            old(self).wf(),
        ensures
            final(self).wf(),
            final(self)@ == (Live { pending: queued(old(self)@.pending, file_path@), ..old(self)@ }),
            final(self).same_but_live(*old(self)),
    {
        if !contains_text(&self.pending, file_path) {
            let ghost before = self@.pending;
            self.pending.push(file_path.to_owned());
            proof {
                assert(self@.pending =~= before.push(file_path@));
            }
        }
    }

    /// Drops a change from what is pending.
    fn remove_pending(&mut self, file_path: &str)
        requires
            old(self).wf(),
        ensures
            final(self).wf(),
            final(self)@ == (Live { pending: without(old(self)@.pending, file_path@), ..old(self)@ }),
            final(self).same_but_live(*old(self)),
    {
        let ghost all = self@.pending;
        let mut kept: Vec<String> = Vec::new();
        let mut i: usize = 0;
        proof {
            assert(all.take(0) =~= seq![]);
            assert(views(kept@) =~= seq![]);
        }
        while i < self.pending.len()
            invariant
                i <= self.pending.len(),
                all == views(self.pending@),
                views(kept@) == without(all.take(i as int), file_path@),
            decreases self.pending.len() - i,
        {
            let ghost before = views(kept@);
            proof {
                assert(all.take(i + 1).drop_last() =~= all.take(i as int));
                assert(all.take(i + 1).last() == self.pending@[i as int]@);
            }
            if !same(self.pending[i].as_str(), file_path) {
                kept.push(self.pending[i].clone());
                proof {
                    assert(views(kept@) =~= before.push(self.pending@[i as int]@));
                }
            }
            i += 1;
        }
        proof {
            assert(all.take(i as int) =~= all);
            lemma_without(all, file_path@);
        }
        self.pending = kept;
    }

    /// Whether nothing but the pid and what is pending differs.
    pub open spec fn same_but_live(self, other: PluginProcess) -> bool {
        &&& self.pid_file == other.pid_file
        &&& self.style == other.style
        &&& self.next_id == other.next_id
        &&& self.timeouts == other.timeouts
    }

    /// A change is to be handed to the plugin: it is pending from now on, and
    /// the first thing is one round trip.
    pub fn apply_file_change(&mut self, file_path: String) -> (r: (Delivery, Act))
        requires
            old(self).wf(),
        ensures
            final(self).wf(),
            final(self)@ == (Live { pending: queued(old(self)@.pending, file_path@), ..old(self)@ }),
            final(self).same_but_live(*old(self)),
            r.0.file@ == file_path@,
            r.0.step@ == At::Sending,
            r.1@ == Ask::Send(file_path@),
    {
        self.enqueue_pending(file_path.as_str());
        let act = Act::Send { file: file_path.clone() };
        (Delivery { file: file_path, step: Step::Sending }, act)
    }

    /// The next of what is pending, or the end.
    fn replay_pending(&self) -> (r: (Step, Act))
        ensures
            r.0@ == replay_next(self@).0,
            r.1@ == replay_next(self@).1,
    {
        if self.pending.len() == 0 {
            (Step::Over, Act::Finish { outcome: Delivered::Committed })
        } else {
            proof {
                assert(self@.pending[0] == self.pending@[0]@);
            }
            (
                Step::Replaying { file: self.pending[0].clone() },
                Act::Send { file: self.pending[0].clone() },
            )
        }
    }

    /// Takes in what is reported to a delivery, and says what it asks for next;
    /// nothing where it does not wait for that.
    pub fn deliver(&mut self, delivery: &mut Delivery, news: News) -> (r: Option<Act>)
        requires
            old(self).wf(),
        ensures
            final(self).wf(),
            final(self).same_but_live(*old(self)),
            final(delivery).file@ == old(delivery).file@,
            match next_step(old(self)@, old(delivery).file@, old(delivery).step@, news) {
                Some((p, at, ask)) => {
                    &&& final(self)@ == p
                    &&& final(delivery).step@ == at
                    &&& r is Some
                    &&& r->0@ == ask
                },
                None => {
                    &&& final(self)@ == old(self)@
                    &&& final(delivery).step@ == old(delivery).step@
                    &&& r is None
                },
            },
    {
        match (&delivery.step, news) {
            (Step::Sending, News::SendEnded { sent_to, result }) => match result {
                Sent::Committed => {
                    self.remove_pending(delivery.file.as_str());
                    delivery.step = Step::Over;
                    Some(Act::Finish { outcome: Delivered::Committed })
                },
                Sent::TimedOut => {
                    delivery.step = Step::Checking { timed_out: true, sent_to };
                    Some(Act::CheckExited)
                },
                Sent::Failed => {
                    delivery.step = Step::Checking { timed_out: false, sent_to };
                    Some(Act::CheckExited)
                },
            },
            (Step::Checking { timed_out, sent_to }, News::ExitChecked { exited, current }) => {
                if *timed_out {
                    if exited {
                        delivery.step = Step::RelaunchingAfterTimeout;
                        Some(Act::Relaunch)
                    } else {
                        delivery.step = Step::Over;
                        Some(Act::Finish { outcome: Delivered::TimedOut })
                    }
                } else if exited {
                    delivery.step = Step::RelaunchingAfterCrash;
                    Some(Act::Relaunch)
                } else if current == *sent_to {
                    self.remove_pending(delivery.file.as_str());
                    delivery.step = Step::RelaunchingAfterRefusal;
                    Some(Act::Relaunch)
                } else {
                    let (step, act) = self.replay_pending();
                    delivery.step = step;
                    Some(act)
                }
            },
            (Step::RelaunchingAfterTimeout, News::Relaunched { pid }) => {
                delivery.step = Step::Over;
                match pid {
                    Some(fresh) => {
                        self.pid = fresh;
                        Some(Act::Finish { outcome: Delivered::TimedOut })
                    },
                    None => Some(Act::Finish { outcome: Delivered::RelaunchFailed }),
                }
            },
            (Step::RelaunchingAfterRefusal, News::Relaunched { pid }) => {
                delivery.step = Step::Over;
                match pid {
                    Some(fresh) => {
                        self.pid = fresh;
                    },
                    None => {},
                }
                Some(Act::Finish { outcome: Delivered::Refused })
            },
            (Step::RelaunchingAfterCrash, News::Relaunched { pid }) => match pid {
                Some(fresh) => {
                    self.pid = fresh;
                    let (step, act) = self.replay_pending();
                    delivery.step = step;
                    Some(act)
                },
                None => {
                    delivery.step = Step::Over;
                    Some(Act::Finish { outcome: Delivered::RelaunchFailed })
                },
            },
            (Step::Replaying { file }, News::SendEnded { sent_to, result }) => {
                match result {
                    Sent::Committed => {
                        self.remove_pending(file.as_str());
                        let (step, act) = self.replay_pending();
                        delivery.step = step;
                        Some(act)
                    },
                    Sent::TimedOut => {
                        delivery.step = Step::Over;
                        Some(Act::Finish { outcome: Delivered::ReplayTimedOut })
                    },
                    Sent::Failed => {
                        delivery.step = Step::Over;
                        Some(Act::Finish { outcome: Delivered::ReplayFailed })
                    },
                }
            },
            _ => None,
        }
    }

    /// The process has been replaced by `pid`; how that is recorded.
    pub fn relaunch(&mut self, pid: u32, own_pid: u32) -> (r: StateFileWrite)
        requires
            old(self).wf(),
        ensures
            final(self).wf(),
            final(self)@ == (Live { pid, ..old(self)@ }),
            final(self).same_but_live(*old(self)),
            r.replaces(old(self).pid_file@, pid_text(pid), own_pid, old(self).style),
    {
        self.pid = pid;
        write_pid_file(self.pid_file.as_str(), pid, own_pid, self.style)
    }
}

// ---------------------------------------------------------------------------
// Requests that own no file
// ---------------------------------------------------------------------------
/// Whether a process is to be replaced after a request that leaves nothing
/// pending: only where it timed out, because then it is certainly dead.
pub fn relaunch_after_timeout_if_needed(result: Sent) -> (r: bool)
    ensures
        r == (result == Sent::TimedOut),
{
    match result {
        Sent::TimedOut => true,
        _ => false,
    }
}

/// How reindexing a file for a query ended.
#[derive(Clone, Copy, Debug, PartialEq, Eq, Structural)]
pub enum Reindexed {
    Done,
    TimedOut,
    /// The plugin answered and the index did not take the answer.
    NotTaken,
    /// Anything else, such as a file that could not be read.
    Failed,
}

/// How bringing a file up to date for a query ended.
#[derive(Clone, Copy, Debug, PartialEq, Eq, Structural)]
pub enum Fresh {
    /// The index was current.
    Already,
    /// The file was reindexed, with this result.
    Asked(Reindexed),
}

/// Where bringing a file up to date stands.
#[derive(Clone, Copy, Debug, PartialEq, Eq, Structural)]
pub enum FreshStep {
    Reindexing,
    /// The answer was not taken: is the process that gave it still there?
    Checking,
    Relaunching { result: Reindexed },
    Over,
}

/// What is reported of it.
#[derive(Clone, Copy, Debug, PartialEq, Eq, Structural)]
pub enum FreshNews {
    /// The round trip with `asked` ended, and `current` is the process now.
    Reindexed { asked: u32, current: u32, result: Reindexed },
    /// Whether the current process has exited.
    ExitChecked { exited: bool },
    /// A fresh process is there, or could not be started.
    Relaunched { pid: Option<u32> },
}

/// What it asks for.
#[derive(Clone, Copy, Debug, PartialEq, Eq, Structural)]
pub enum FreshAct {
    /// One round trip that reindexes the file.
    Reindex,
    /// Find out whether the current process has exited.
    CheckExited,
    /// Replace the current process by a fresh one.
    Relaunch,
    /// It is over.
    Finish { outcome: Fresh },
}

/// What bringing a file up to date makes of what is reported. A process that
/// timed out is replaced. One that is still there and whose answer was not
/// taken is replaced too, so that it answers in full when it is asked again.
/// The query gets what the one round trip came to. News that is not waited
/// for changes nothing.
pub open spec fn next_fresh(p: Live, at: FreshStep, news: FreshNews) -> Option<(Live, FreshStep, FreshAct)> {
    match (at, news) {
        (FreshStep::Reindexing, FreshNews::Reindexed { asked, current, result }) => match result {
            Reindexed::TimedOut => Some((p, FreshStep::Relaunching { result }, FreshAct::Relaunch)),
            Reindexed::NotTaken => if asked == current {
                Some((p, FreshStep::Checking, FreshAct::CheckExited))
            } else {
                Some((p, FreshStep::Over, FreshAct::Finish { outcome: Fresh::Asked(result) }))
            },
            _ => Some((p, FreshStep::Over, FreshAct::Finish { outcome: Fresh::Asked(result) })),
        },
        (FreshStep::Checking, FreshNews::ExitChecked { exited }) => if exited {
            Some(
                (
                    p,
                    FreshStep::Over,
                    FreshAct::Finish { outcome: Fresh::Asked(Reindexed::NotTaken) },
                ),
            )
        } else {
            Some(
                (
                    p,
                    FreshStep::Relaunching { result: Reindexed::NotTaken },
                    FreshAct::Relaunch,
                ),
            )
        },
        (FreshStep::Relaunching { result }, FreshNews::Relaunched { pid }) => Some(
            (
                Live {
                    pid: match pid {
                        Some(fresh) => fresh,
                        None => p.pid,
                    },
                    ..p
                },
                FreshStep::Over,
                FreshAct::Finish { outcome: Fresh::Asked(result) },
            ),
        ),
        _ => None,
    }
}

impl PluginProcess {
    /// A file is to be answered about: one that is stale is reindexed first.
    pub fn ensure_fresh(&self, stale: bool) -> (r: (FreshStep, FreshAct))
        ensures
            r == (if stale {
                (FreshStep::Reindexing, FreshAct::Reindex)
            } else {
                (FreshStep::Over, FreshAct::Finish { outcome: Fresh::Already })
            }),
    {
        if stale {
            (FreshStep::Reindexing, FreshAct::Reindex)
        } else {
            (FreshStep::Over, FreshAct::Finish { outcome: Fresh::Already })
        }
    }

    /// Takes in what is reported of bringing a file up to date, and says what
    /// that asks for next; nothing where it does not wait for that.
    pub fn freshen(&mut self, step: &mut FreshStep, news: FreshNews) -> (r: Option<FreshAct>)
        requires
            old(self).wf(),
        ensures
            final(self).wf(),
            final(self).same_but_live(*old(self)),
            match next_fresh(old(self)@, *old(step), news) {
                Some((p, at, act)) => final(self)@ == p && *final(step) == at && r == Some(act),
                None => final(self)@ == old(self)@ && *final(step) == *old(step) && r is None,
            },
    {
        match (*step, news) {
            (FreshStep::Reindexing, FreshNews::Reindexed { asked, current, result }) => match result {
                Reindexed::TimedOut => {
                    *step = FreshStep::Relaunching { result };
                    Some(FreshAct::Relaunch)
                },
                Reindexed::NotTaken => {
                    if asked == current {
                        *step = FreshStep::Checking;
                        Some(FreshAct::CheckExited)
                    } else {
                        *step = FreshStep::Over;
                        Some(FreshAct::Finish { outcome: Fresh::Asked(result) })
                    }
                },
                _ => {
                    *step = FreshStep::Over;
                    Some(FreshAct::Finish { outcome: Fresh::Asked(result) })
                },
            },
            (FreshStep::Checking, FreshNews::ExitChecked { exited }) => {
                if exited {
                    *step = FreshStep::Over;
                    Some(FreshAct::Finish { outcome: Fresh::Asked(Reindexed::NotTaken) })
                } else {
                    *step = FreshStep::Relaunching { result: Reindexed::NotTaken };
                    Some(FreshAct::Relaunch)
                }
            },
            (FreshStep::Relaunching { result }, FreshNews::Relaunched { pid }) => {
                *step = FreshStep::Over;
                match pid {
                    Some(fresh) => {
                        self.pid = fresh;
                    },
                    None => {},
                }
                Some(FreshAct::Finish { outcome: Fresh::Asked(result) })
            },
            _ => None,
        }
    }
}

// ---------------------------------------------------------------------------
// Laws
// ---------------------------------------------------------------------------
/// Whether a delivery's change timed out.
pub open spec fn has_timed_out(at: At) -> bool {
    at == At::RelaunchingAfterTimeout || (at matches At::Checking { timed_out, .. } && timed_out)
}

/// A change that timed out is not sent again and stays pending: from there on
/// the delivery sends nothing, drops nothing, and ends without success.
pub proof fn a_timed_out_change_is_not_sent_again(p: Live, file: Seq<char>, at: At, news: News)
    requires
        has_timed_out(at),
        next_step(p, file, at, news) is Some,
    ensures
        ({
            let (q, then, ask) = next_step(p, file, at, news)->0;
            &&& q.pending == p.pending
            &&& !(ask is Send)
            &&& has_timed_out(then) || then == At::Over
            &&& ask matches Ask::Finish(outcome) ==> outcome == Delivered::TimedOut || outcome
                == Delivered::RelaunchFailed
        }),
{
}

/// A change that a live process's answer was refused for is dropped and not
/// sent again, and the process is replaced.
pub proof fn a_refused_change_is_dropped(p: Live, file: Seq<char>, sent_to: u32, pid: Option<u32>)
    ensures
        ({
            let checked = next_step(
                p,
                file,
                At::Checking { timed_out: false, sent_to },
                News::ExitChecked { exited: false, current: sent_to },
            );
            &&& checked is Some
            &&& (checked->0).2 == Ask::Relaunch
            &&& !(checked->0).0.pending.contains(file)
            &&& next_step((checked->0).0, file, (checked->0).1, News::Relaunched { pid }) matches Some(
                (q, then, ask),
            ) && q.pending == (checked->0).0.pending && then == At::Over && ask == Ask::Finish(
                Delivered::Refused,
            )
        }),
{
    lemma_without(p.pending, file);
}

/// After a crash everything that was pending is sent, first come first served:
/// the delivery succeeds only once nothing is pending any more.
pub proof fn a_crash_is_recovered_from_in_full(p: Live, file: Seq<char>, at: At, news: News)
    requires
        at is Replaying || at == At::RelaunchingAfterCrash,
        next_step(p, file, at, news) is Some,
    ensures
        ({
            let (q, then, ask) = next_step(p, file, at, news)->0;
            &&& ask == Ask::Finish(Delivered::Committed) ==> q.pending.len() == 0
            &&& ask matches Ask::Send(next) ==> q.pending.len() > 0 && next == q.pending[0] && then
                == At::Replaying(next)
        }),
{
}

/// Every replayed change that is committed leaves the queue, so a replay comes
/// to an end.
pub proof fn a_replay_shrinks_what_is_pending(p: Live, file: Seq<char>, sent: Seq<char>, sent_to: u32)
    requires
        p.pending.contains(sent),
    ensures
        next_step(p, file, At::Replaying(sent), News::SendEnded { sent_to, result: Sent::Committed }) matches Some(
            (q, _, _),
        ) && q.pending.len() < p.pending.len(),
{
    lemma_without(p.pending, sent);
}

/// A change that is committed at the first try is no longer pending, and the
/// others are.
pub proof fn a_committed_change_is_no_longer_pending(p: Live, file: Seq<char>, sent_to: u32)
    ensures
        next_step(p, file, At::Sending, News::SendEnded { sent_to, result: Sent::Committed }) matches Some(
            (q, then, ask),
        ) && then == At::Over && ask == Ask::Finish(Delivered::Committed) && !q.pending.contains(file)
            && forall|f: Seq<char>| f != file ==> (#[trigger] q.pending.contains(f) <==> p.pending.contains(f)),
{
    lemma_without(p.pending, file);
}

/// A query's file is reindexed once and no more, and the query gets what that
/// came to, whether or not the process could be replaced after it. No change
/// that is pending is touched.
pub proof fn a_query_gets_what_its_one_reindex_came_to(p: Live, at: FreshStep, news: FreshNews)
    requires
        next_fresh(p, at, news) is Some,
    ensures
        ({
            let (q, then, act) = next_fresh(p, at, news)->0;
            &&& act != FreshAct::Reindex
            &&& q.pending == p.pending
            &&& news matches FreshNews::Reindexed { result, .. } ==> {
                ||| act == (FreshAct::Finish { outcome: Fresh::Asked(result) })
                ||| then == (FreshStep::Relaunching { result })
                ||| then == FreshStep::Checking && result == Reindexed::NotTaken
            }
            &&& at == FreshStep::Checking ==> act == (FreshAct::Finish {
                outcome: Fresh::Asked(Reindexed::NotTaken),
            }) || then == (FreshStep::Relaunching { result: Reindexed::NotTaken })
            &&& at matches FreshStep::Relaunching { result } ==> act == (FreshAct::Finish {
                outcome: Fresh::Asked(result),
            })
        }),
{
}

/// A process is replaced over a reindex only where it timed out, or where the
/// index did not take the answer of a process that is still the same and still
/// there.
pub proof fn only_a_refused_or_silent_process_is_replaced(p: Live, at: FreshStep, news: FreshNews)
    requires
        next_fresh(p, at, news) is Some,
        (next_fresh(p, at, news)->0).2 == FreshAct::Relaunch,
    ensures
        (at == FreshStep::Reindexing && (news matches FreshNews::Reindexed { result, .. } && result
            == Reindexed::TimedOut)) || (at == FreshStep::Checking && news == (FreshNews::ExitChecked {
            exited: false,
        })),
        forall|q: Live, before: FreshStep, heard: FreshNews|
            (#[trigger] next_fresh(q, before, heard)) is Some && (next_fresh(q, before, heard)->0).1
                == FreshStep::Checking ==> (heard matches FreshNews::Reindexed { asked, current, result }
                && asked == current && result == Reindexed::NotTaken),
{
}

} // verus!
