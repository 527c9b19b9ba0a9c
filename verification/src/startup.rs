//! From a project root to a daemon that serves it: what is done in which
//! order, and where that ends early.
//!
//! The lock comes before anything that touches the project's files. Whatever
//! can be wrong with the plugins or the index is found out before anything is
//! published. The pid is recorded once something listens, and that the daemon
//! serves is recorded after that, so neither record is ever ahead of the fact.

use vstd::prelude::*;

use crate::candidates::Mode;
use crate::text::opt_text;

verus! {

/// What an index says is still owed to a project: the walk or, after it, the
/// semantic pass.
#[derive(Clone, Copy, Debug, PartialEq, Eq, Structural)]
pub struct Owed {
    pub needs_bulk_index: bool,
    pub needs_semantic_pass_retry: bool,
}

/// What is owed to a project whose walk and semantic pass are complete or not.
/// A pass is retried only where the walk is complete: otherwise it comes with
/// the walk.
pub fn owed(bulk_index_completed: bool, semantic_pass_completed: bool) -> (r: Owed)
    ensures
        r == owes(bulk_index_completed, semantic_pass_completed),
{
    let needs_bulk_index: bool = !bulk_index_completed;
    Owed {
        needs_bulk_index,
        needs_semantic_pass_retry: !needs_bulk_index && !semantic_pass_completed,
    }
}

/// What is owed to a project whose walk and semantic pass are complete or not.
pub open spec fn owes(bulk_index_completed: bool, semantic_pass_completed: bool) -> Owed {
    Owed {
        needs_bulk_index: !bulk_index_completed,
        needs_semantic_pass_retry: bulk_index_completed && !semantic_pass_completed,
    }
}

/// What starting waits for.
#[derive(Clone, Copy, Debug, PartialEq, Eq, Structural)]
pub enum StartStep {
    Locking,
    StandingDown,
    PublishingStamp,
    Detecting,
    Discovering,
    OpeningIndex,
    Canonicalizing,
    Binding,
    WritingPid,
    PublishingPhase,
    RecordingOwner,
    ReadingConfig,
    Serving,
    StartingWatcher,
    StartingConsumer,
    StartingActivation,
    Supervising,
    ReleasingLock,
    Over,
}

/// What is reported.
#[derive(Clone, Debug)]
pub enum StartNews {
    /// The lock is held by this process.
    LockTaken,
    /// The lock is held by another one.
    LockBusy,
    /// Whether the root is one project or a folder of several.
    Detected { mode: Mode },
    /// The index is open; whether its walk and semantic pass are complete.
    IndexOpened { bulk_index_completed: bool, semantic_pass_completed: bool },
    /// What was asked for has been done.
    Done,
    /// What was asked for failed.
    Failed { error: String },
}

/// What a `StartNews` says.
pub enum StartReport {
    LockTaken,
    LockBusy,
    Detected(Mode),
    IndexOpened(bool, bool),
    Done,
    Failed(Seq<char>),
}

impl View for StartNews {
    type V = StartReport;

    open spec fn view(&self) -> StartReport {
        match self {
            StartNews::LockTaken => StartReport::LockTaken,
            StartNews::LockBusy => StartReport::LockBusy,
            StartNews::Detected { mode } => StartReport::Detected(*mode),
            StartNews::IndexOpened { bulk_index_completed, semantic_pass_completed } => StartReport::IndexOpened(
                *bulk_index_completed,
                *semantic_pass_completed,
            ),
            StartNews::Done => StartReport::Done,
            StartNews::Failed { error } => StartReport::Failed(error@),
        }
    }
}

/// What starting asks for.
#[derive(Clone, Debug)]
pub enum StartAct {
    TakeLock,
    /// Find out what the lock's holder is, and leave.
    StandDown,
    /// Publish which build this is.
    PublishStamp,
    /// Find out whether the root is one project.
    Detect,
    /// Find the plugins.
    Discover,
    /// Open the index and bring it to the current generation.
    OpenIndex,
    Canonicalize,
    /// Listen on the project's endpoint, after clearing what a dead daemon
    /// left: its socket, and its suspensions where there are plugins.
    Bind { clear_markers: bool },
    WritePid,
    /// Tell the phase: that of an index, walked or not, or that of a front.
    PublishPhase { front: bool, unindexed: bool },
    RecordOwner,
    ReadConfig,
    /// Accept connections from now on.
    Serve,
    /// Start the file watcher; nobody reads it yet.
    StartWatcher,
    /// Have the watcher read from now on.
    StartConsumer,
    /// Be ready to build what is owed.
    StartActivation { owed: Owed, watcher: bool },
    /// Watch over the daemon until it is over.
    Supervise,
    ReleaseLock,
    /// The daemon is over; with an error if there is one.
    Exit { error: Option<String> },
}

/// What a `StartAct` says.
pub enum StartAsk {
    TakeLock,
    StandDown,
    PublishStamp,
    Detect,
    Discover,
    OpenIndex,
    Canonicalize,
    Bind { clear_markers: bool },
    WritePid,
    PublishPhase { front: bool, unindexed: bool },
    RecordOwner,
    ReadConfig,
    Serve,
    StartWatcher,
    StartConsumer,
    StartActivation { owed: Owed, watcher: bool },
    Supervise,
    ReleaseLock,
    Exit(Option<Seq<char>>),
}

impl View for StartAct {
    type V = StartAsk;

    open spec fn view(&self) -> StartAsk {
        match self {
            StartAct::TakeLock => StartAsk::TakeLock,
            StartAct::StandDown => StartAsk::StandDown,
            StartAct::PublishStamp => StartAsk::PublishStamp,
            StartAct::Detect => StartAsk::Detect,
            StartAct::Discover => StartAsk::Discover,
            StartAct::OpenIndex => StartAsk::OpenIndex,
            StartAct::Canonicalize => StartAsk::Canonicalize,
            StartAct::Bind { clear_markers } => StartAsk::Bind { clear_markers: *clear_markers },
            StartAct::WritePid => StartAsk::WritePid,
            StartAct::PublishPhase { front, unindexed } => StartAsk::PublishPhase {
                front: *front,
                unindexed: *unindexed,
            },
            StartAct::RecordOwner => StartAsk::RecordOwner,
            StartAct::ReadConfig => StartAsk::ReadConfig,
            StartAct::Serve => StartAsk::Serve,
            StartAct::StartWatcher => StartAsk::StartWatcher,
            StartAct::StartConsumer => StartAsk::StartConsumer,
            StartAct::StartActivation { owed, watcher } => StartAsk::StartActivation {
                owed: *owed,
                watcher: *watcher,
            },
            StartAct::Supervise => StartAsk::Supervise,
            StartAct::ReleaseLock => StartAsk::ReleaseLock,
            StartAct::Exit { error } => StartAsk::Exit(opt_text(*error)),
        }
    }
}

/// A daemon that is starting.
#[derive(Clone, Debug)]
pub struct Startup {
    /// It serves the front of a folder of projects.
    pub front: bool,
    pub owed: Owed,
    pub step: StartStep,
    /// How supervising ended.
    pub error: Option<String>,
}

/// What a `Startup` says.
pub struct Starting {
    pub front: bool,
    pub owed: Owed,
    pub step: StartStep,
    pub error: Option<Seq<char>>,
}

impl View for Startup {
    type V = Starting;

    open spec fn view(&self) -> Starting {
        Starting {
            front: self.front,
            owed: self.owed,
            step: self.step,
            error: opt_text(self.error),
        }
    }
}

/// What follows a step that is done.
pub open spec fn after(s: Starting) -> Option<(Starting, StartAsk)> {
    match s.step {
        // What the lock's holder is has been reported.
        StartStep::StandingDown => Some((Starting { step: StartStep::Over, ..s }, StartAsk::Exit(None))),
        StartStep::PublishingStamp => Some(
            (Starting { step: StartStep::Detecting, ..s }, StartAsk::Detect),
        ),
        StartStep::Discovering => Some(
            (Starting { step: StartStep::OpeningIndex, ..s }, StartAsk::OpenIndex),
        ),
        StartStep::Canonicalizing => Some(
            (
                Starting { step: StartStep::Binding, ..s },
                StartAsk::Bind { clear_markers: !s.front },
            ),
        ),
        StartStep::Binding => Some((Starting { step: StartStep::WritingPid, ..s }, StartAsk::WritePid)),
        StartStep::WritingPid => Some(
            (
                Starting { step: StartStep::PublishingPhase, ..s },
                StartAsk::PublishPhase { front: s.front, unindexed: s.owed.needs_bulk_index },
            ),
        ),
        StartStep::PublishingPhase => Some(
            (Starting { step: StartStep::RecordingOwner, ..s }, StartAsk::RecordOwner),
        ),
        StartStep::RecordingOwner => if s.front {
            Some((Starting { step: StartStep::Serving, ..s }, StartAsk::Serve))
        } else {
            Some((Starting { step: StartStep::ReadingConfig, ..s }, StartAsk::ReadConfig))
        },
        StartStep::ReadingConfig => Some((Starting { step: StartStep::Serving, ..s }, StartAsk::Serve)),
        StartStep::Serving => if s.front {
            Some((Starting { step: StartStep::Supervising, ..s }, StartAsk::Supervise))
        } else if s.owed.needs_bulk_index {
            Some(
                (
                    Starting { step: StartStep::StartingActivation, ..s },
                    StartAsk::StartActivation { owed: s.owed, watcher: false },
                ),
            )
        } else {
            Some((Starting { step: StartStep::StartingWatcher, ..s }, StartAsk::StartWatcher))
        },
        StartStep::StartingWatcher => if s.owed.needs_semantic_pass_retry {
            Some(
                (
                    Starting { step: StartStep::StartingActivation, ..s },
                    StartAsk::StartActivation { owed: s.owed, watcher: true },
                ),
            )
        } else {
            Some((Starting { step: StartStep::StartingConsumer, ..s }, StartAsk::StartConsumer))
        },
        StartStep::StartingConsumer => Some(
            (
                Starting { step: StartStep::StartingActivation, ..s },
                StartAsk::StartActivation { owed: s.owed, watcher: false },
            ),
        ),
        StartStep::StartingActivation => Some(
            (Starting { step: StartStep::Supervising, ..s }, StartAsk::Supervise),
        ),
        StartStep::Supervising => Some(
            (
                Starting { step: StartStep::ReleasingLock, error: None, ..s },
                StartAsk::ReleaseLock,
            ),
        ),
        StartStep::ReleasingLock => Some(
            (Starting { step: StartStep::Over, ..s }, StartAsk::Exit(s.error)),
        ),
        _ => None,
    }
}

/// What starting makes of what is reported to it. A failure is the end of it,
/// except that the files that describe the daemon - its stamp, its pid, its
/// phase and the record that it serves - may go unwritten, and that a daemon
/// whose supervision ended in an error still lets go of its lock and exits with
/// that error. A report that is not waited for changes nothing.
pub open spec fn next_start(s: Starting, report: StartReport) -> Option<(Starting, StartAsk)> {
    match (s.step, report) {
        (StartStep::Locking, StartReport::LockTaken) => Some(
            (Starting { step: StartStep::PublishingStamp, ..s }, StartAsk::PublishStamp),
        ),
        (StartStep::Locking, StartReport::LockBusy) => Some(
            (Starting { step: StartStep::StandingDown, ..s }, StartAsk::StandDown),
        ),
        (StartStep::Detecting, StartReport::Detected(mode)) => if mode == Mode::Multi {
            Some(
                (
                    Starting { front: true, step: StartStep::Canonicalizing, ..s },
                    StartAsk::Canonicalize,
                ),
            )
        } else {
            Some((Starting { step: StartStep::Discovering, ..s }, StartAsk::Discover))
        },
        (StartStep::OpeningIndex, StartReport::IndexOpened(walked, passed)) => Some(
            (
                Starting { owed: owes(walked, passed), step: StartStep::Canonicalizing, ..s },
                StartAsk::Canonicalize,
            ),
        ),
        (_, StartReport::Done) => after(s),
        (StartStep::PublishingStamp, StartReport::Failed(_)) => after(s),
        (StartStep::WritingPid, StartReport::Failed(_)) => after(s),
        (StartStep::PublishingPhase, StartReport::Failed(_)) => after(s),
        (StartStep::RecordingOwner, StartReport::Failed(_)) => after(s),
        (StartStep::ReleasingLock, StartReport::Failed(_)) => after(s),
        (StartStep::Supervising, StartReport::Failed(error)) => Some(
            (
                Starting { step: StartStep::ReleasingLock, error: Some(error), ..s },
                StartAsk::ReleaseLock,
            ),
        ),
        (StartStep::Detecting, StartReport::Failed(_)) => None,
        (StartStep::Over, StartReport::Failed(_)) => None,
        (_, StartReport::Failed(error)) => Some(
            (Starting { step: StartStep::Over, ..s }, StartAsk::Exit(Some(error))),
        ),
        _ => None,
    }
}

impl Startup {
    /// Starts to start: the lock comes first.
    pub fn run() -> (r: (Self, StartAct))
        ensures
            r.0@ == (Starting {
                front: false,
                owed: Owed { needs_bulk_index: false, needs_semantic_pass_retry: false },
                step: StartStep::Locking,
                error: None,
            }),
            r.1@ == StartAsk::TakeLock,
    {
        (
            Startup {
                front: false,
                owed: Owed { needs_bulk_index: false, needs_semantic_pass_retry: false },
                step: StartStep::Locking,
                error: None,
            },
            StartAct::TakeLock,
        )
    }

    fn advance(&mut self) -> (r: Option<StartAct>)
        ensures
            match after(old(self)@) {
                Some((s, ask)) => final(self)@ == s && r is Some && r->0@ == ask,
                None => final(self)@ == old(self)@ && r is None,
            },
    {
        match self.step {
            StartStep::StandingDown => {
                self.step = StartStep::Over;
                Some(StartAct::Exit { error: None })
            },
            StartStep::PublishingStamp => {
                self.step = StartStep::Detecting;
                Some(StartAct::Detect)
            },
            StartStep::Discovering => {
                self.step = StartStep::OpeningIndex;
                Some(StartAct::OpenIndex)
            },
            StartStep::Canonicalizing => {
                self.step = StartStep::Binding;
                Some(StartAct::Bind { clear_markers: !self.front })
            },
            StartStep::Binding => {
                self.step = StartStep::WritingPid;
                Some(StartAct::WritePid)
            },
            StartStep::WritingPid => {
                self.step = StartStep::PublishingPhase;
                Some(StartAct::PublishPhase { front: self.front, unindexed: self.owed.needs_bulk_index })
            },
            StartStep::PublishingPhase => {
                self.step = StartStep::RecordingOwner;
                Some(StartAct::RecordOwner)
            },
            StartStep::RecordingOwner => {
                if self.front {
                    self.step = StartStep::Serving;
                    Some(StartAct::Serve)
                } else {
                    self.step = StartStep::ReadingConfig;
                    Some(StartAct::ReadConfig)
                }
            },
            StartStep::ReadingConfig => {
                self.step = StartStep::Serving;
                Some(StartAct::Serve)
            },
            StartStep::Serving => {
                if self.front {
                    self.step = StartStep::Supervising;
                    Some(StartAct::Supervise)
                } else if self.owed.needs_bulk_index {
                    self.step = StartStep::StartingActivation;
                    Some(StartAct::StartActivation { owed: self.owed, watcher: false })
                } else {
                    self.step = StartStep::StartingWatcher;
                    Some(StartAct::StartWatcher)
                }
            },
            StartStep::StartingWatcher => {
                if self.owed.needs_semantic_pass_retry {
                    self.step = StartStep::StartingActivation;
                    Some(StartAct::StartActivation { owed: self.owed, watcher: true })
                } else {
                    self.step = StartStep::StartingConsumer;
                    Some(StartAct::StartConsumer)
                }
            },
            StartStep::StartingConsumer => {
                self.step = StartStep::StartingActivation;
                Some(StartAct::StartActivation { owed: self.owed, watcher: false })
            },
            StartStep::StartingActivation => {
                self.step = StartStep::Supervising;
                Some(StartAct::Supervise)
            },
            StartStep::Supervising => {
                self.step = StartStep::ReleasingLock;
                self.error = None;
                Some(StartAct::ReleaseLock)
            },
            StartStep::ReleasingLock => {
                self.step = StartStep::Over;
                let error: Option<String> = match &self.error {
                    Some(e) => Some(e.clone()),
                    None => None,
                };
                Some(StartAct::Exit { error })
            },
            _ => None,
        }
    }

    /// Takes in what is reported, and says what is asked for next; nothing
    /// where that was not waited for.
    pub fn hear(&mut self, news: StartNews) -> (r: Option<StartAct>)
        ensures
            match next_start(old(self)@, news@) {
                Some((s, ask)) => final(self)@ == s && r is Some && r->0@ == ask,
                None => final(self)@ == old(self)@ && r is None,
            },
    {
        match (self.step, news) {
            (StartStep::Locking, StartNews::LockTaken) => {
                self.step = StartStep::PublishingStamp;
                Some(StartAct::PublishStamp)
            },
            (StartStep::Locking, StartNews::LockBusy) => {
                self.step = StartStep::StandingDown;
                Some(StartAct::StandDown)
            },
            (StartStep::Detecting, StartNews::Detected { mode }) => {
                if mode == Mode::Multi {
                    self.front = true;
                    self.step = StartStep::Canonicalizing;
                    Some(StartAct::Canonicalize)
                } else {
                    self.step = StartStep::Discovering;
                    Some(StartAct::Discover)
                }
            },
            (
                StartStep::OpeningIndex,
                StartNews::IndexOpened { bulk_index_completed, semantic_pass_completed },
            ) => {
                self.owed = owed(bulk_index_completed, semantic_pass_completed);
                self.step = StartStep::Canonicalizing;
                Some(StartAct::Canonicalize)
            },
            (_, StartNews::Done) => self.advance(),
            (StartStep::PublishingStamp, StartNews::Failed { error: _ }) => self.advance(),
            (StartStep::WritingPid, StartNews::Failed { error: _ }) => self.advance(),
            (StartStep::PublishingPhase, StartNews::Failed { error: _ }) => self.advance(),
            (StartStep::RecordingOwner, StartNews::Failed { error: _ }) => self.advance(),
            (StartStep::ReleasingLock, StartNews::Failed { error: _ }) => self.advance(),
            (StartStep::Supervising, StartNews::Failed { error }) => {
                self.step = StartStep::ReleasingLock;
                self.error = Some(error);
                Some(StartAct::ReleaseLock)
            },
            (StartStep::Detecting, StartNews::Failed { error: _ }) => None,
            (StartStep::Over, StartNews::Failed { error: _ }) => None,
            (_, StartNews::Failed { error }) => {
                self.step = StartStep::Over;
                Some(StartAct::Exit { error: Some(error) })
            },
            _ => None,
        }
    }
}

// ---------------------------------------------------------------------------
// Laws
// ---------------------------------------------------------------------------
/// How far along a step is. Starting only ever moves to a step further along.
pub open spec fn rank(step: StartStep) -> int {
    match step {
        StartStep::Locking => 0,
        StartStep::PublishingStamp => 1,
        StartStep::Detecting => 2,
        StartStep::Discovering => 3,
        StartStep::OpeningIndex => 4,
        StartStep::Canonicalizing => 5,
        StartStep::Binding => 6,
        StartStep::WritingPid => 7,
        StartStep::PublishingPhase => 8,
        StartStep::RecordingOwner => 9,
        StartStep::ReadingConfig => 10,
        StartStep::Serving => 11,
        StartStep::StartingWatcher => 12,
        StartStep::StartingConsumer => 13,
        StartStep::StartingActivation => 14,
        StartStep::Supervising => 15,
        StartStep::ReleasingLock => 16,
        StartStep::StandingDown => 17,
        StartStep::Over => 18,
    }
}

/// No step is taken twice, and none is taken that comes before one already
/// taken: so the lock comes before every file of the project, the plugins and
/// the index before anything is published, and the records of a pid and of a
/// serving daemon after it listens.
pub proof fn starting_only_moves_on(s: Starting, report: StartReport)
    requires
        next_start(s, report) is Some,
    ensures
        rank((next_start(s, report)->0).0.step) > rank(s.step),
{
}

/// The lock is what everything else waits for: from the start there is no way
/// to any step but with the lock, and without it the daemon only leaves.
pub proof fn nothing_is_done_without_the_lock(s: Starting, report: StartReport)
    requires
        s.step == StartStep::Locking || s.step == StartStep::StandingDown,
        next_start(s, report) is Some,
        report != StartReport::LockTaken,
    ensures
        ({
            let (t, ask) = next_start(s, report)->0;
            &&& t.step == StartStep::StandingDown || t.step == StartStep::Over
            &&& ask is StandDown || ask is Exit
        }),
{
}

/// That a daemon listens is what its records say: the pid is written right
/// after the endpoint is bound, and nothing is recorded of a daemon that could
/// not be.
pub proof fn records_follow_the_endpoint(s: Starting, report: StartReport)
    requires
        next_start(s, report) is Some,
    ensures
        (next_start(s, report)->0).1 is WritePid ==> s.step == StartStep::Binding && report
            == StartReport::Done,
        (next_start(s, report)->0).1 is RecordOwner ==> s.step == StartStep::PublishingPhase,
        (next_start(s, report)->0).1 is PublishPhase ==> s.step == StartStep::WritingPid,
{
}

/// The front of a folder of projects needs neither plugins nor an index.
pub open spec fn front_is_bare(s: Starting) -> bool {
    s.front ==> !(s.step == StartStep::Locking || s.step == StartStep::PublishingStamp || s.step
        == StartStep::Detecting || s.step == StartStep::Discovering || s.step == StartStep::OpeningIndex
        || s.step == StartStep::ReadingConfig || s.step == StartStep::StartingWatcher || s.step
        == StartStep::StartingConsumer || s.step == StartStep::StartingActivation)
}

/// The front of a folder of projects looks for no plugin, opens no index,
/// starts no watcher and builds nothing.
pub proof fn a_front_starts_nothing(s: Starting, report: StartReport)
    requires
        front_is_bare(s),
        next_start(s, report) is Some,
    ensures
        ({
            let (t, ask) = next_start(s, report)->0;
            &&& front_is_bare(t)
            &&& t.front ==> !(ask is Discover || ask is OpenIndex || ask is StartWatcher || ask is StartConsumer
                || ask is StartActivation)
        }),
{
}

/// A daemon that has served lets go of its lock whatever ended it, and reports
/// that end.
pub proof fn a_served_project_is_let_go(s: Starting, report: StartReport)
    requires
        s.step == StartStep::Supervising,
        next_start(s, report) is Some,
    ensures
        ({
            let (t, ask) = next_start(s, report)->0;
            &&& ask is ReleaseLock
            &&& t.error == (match report {
                StartReport::Failed(error) => Some(error),
                _ => None,
            })
            &&& next_start(t, StartReport::Done) matches Some((u, end)) && u.step == StartStep::Over && end
                == StartAsk::Exit(t.error)
        }),
{
}

/// Whether a step writes a file that describes the daemon.
pub open spec fn describes_the_daemon(step: StartStep) -> bool {
    step == StartStep::PublishingStamp || step == StartStep::WritingPid || step
        == StartStep::PublishingPhase || step == StartStep::RecordingOwner
}

/// No start fails over a file that describes the daemon: that it could not be
/// written changes nothing about what comes next.
pub proof fn a_description_is_not_worth_failing_over(s: Starting, error: Seq<char>)
    requires
        describes_the_daemon(s.step),
    ensures
        next_start(s, StartReport::Failed(error)) == next_start(s, StartReport::Done),
        next_start(s, StartReport::Done) is Some,
        !((next_start(s, StartReport::Done)->0).1 is Exit),
{
}

} // verus!
