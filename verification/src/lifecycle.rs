//! When the daemon does less, and when it goes: idle timers, the changes that
//! pile up behind a sleeping plugin, whether anyone is still there, and the
//! order in which all of it is looked at.

use vstd::prelude::*;
use vstd::string::*;

use crate::number::{parse_number, parsed};
use crate::path::{join, PathStyle};
use crate::state_files::{
    address_in, build_stamp_path_in, endpoint_in, phase_path_in, pid_path_in, progress_path_in,
    Address, Endpoint, BUILD_STAMP_FILE, PHASE_FILE, PID_FILE, PROGRESS_FILE,
};
use crate::text::{contains_text, copy_texts, opt_text, opt_view, trim, trimmed, views};
use crate::time::{from_millis, from_secs, Duration, NANOS_PER_MILLI, NANOS_PER_SEC};

verus! {

/// How long a plugin is idle before it sleeps, unless a project says otherwise.
pub const DEFAULT_PLUGIN_IDLE: Duration = 3_600_000_000_000;

/// How long the core is idle before it exits, unless a project says otherwise.
pub const DEFAULT_CORE_IDLE: Duration = 86_400_000_000_000;

pub const PLUGIN_IDLE_ENV: &'static str = "G_MESH_PLUGIN_IDLE_MS";

pub const CORE_IDLE_ENV: &'static str = "G_MESH_CORE_IDLE_MS";

/// The bounds of the pace at which the timers are looked at.
pub const MIN_TICK: Duration = 50_000_000;

pub const MAX_TICK: Duration = 30_000_000_000;

/// How long a plugin has to exit by itself before it is killed.
pub const PLUGIN_EXIT_GRACE: Duration = 500_000_000;

/// The name under which the front publishes itself in the phase file.
pub const FRONT_PHASE: &'static str = "front";

/// How long the front of a folder of projects is idle before it exits.
pub const FRONT_CORE_IDLE: Duration = 60_000_000_000;

pub const FRONT_IDLE_ENV: &'static str = "G_MESH_FRONT_IDLE_MS";

// ---------------------------------------------------------------------------
// Timers
// ---------------------------------------------------------------------------
/// A time span that a variable overrides: a whole number of milliseconds, with
/// white space around it or without. Zero turns the timer off; anything else
/// is ignored in favour of the default.
pub open spec fn overridden(raw: Option<Seq<char>>, default: Duration) -> Option<Duration> {
    match raw {
        None => Some(default),
        Some(text) => match parsed(trimmed(text), u64::MAX as nat) {
            None => Some(default),
            Some(millis) => if millis == 0 {
                None
            } else {
                Some((millis * NANOS_PER_MILLI) as Duration)
            },
        },
    }
}

/// The time span that `raw` gives, or the default.
pub fn parse_timeout(raw: Option<&str>, default: Duration) -> (r: Option<Duration>)
    ensures
        r == overridden(opt_view(raw), default),
{
    match raw {
        None => Some(default),
        Some(text) => match parse_number(trim(text).as_str(), u64::MAX as u128) {
            None => Some(default),
            Some(millis) => {
                if millis == 0 {
                    None
                } else {
                    Some(from_millis(millis as u64))
                }
            },
        },
    }
}

/// How long the front waits for a request before it exits.
pub fn front_core_idle(raw: Option<&str>) -> (r: Option<Duration>)
    ensures
        r == overridden(opt_view(raw), FRONT_CORE_IDLE),
{
    parse_timeout(raw, FRONT_CORE_IDLE)
}

/// How long a plugin and the core may be idle; none turns a timer off.
#[derive(Clone, Copy, Debug, PartialEq, Eq, Structural)]
pub struct IdleTimeouts {
    pub plugin: Option<Duration>,
    pub core: Option<Duration>,
}

impl Default for IdleTimeouts {
    fn default() -> (r: Self)
        ensures
            r.plugin == Some(DEFAULT_PLUGIN_IDLE),
            r.core == Some(DEFAULT_CORE_IDLE),
    {
        IdleTimeouts { plugin: Some(DEFAULT_PLUGIN_IDLE), core: Some(DEFAULT_CORE_IDLE) }
    }
}

/// `count` units of `secs` seconds each, as far as the seconds can be counted.
pub open spec fn units_of(count: u64, secs: u64) -> Duration {
    if count * secs <= u64::MAX {
        (count * secs * NANOS_PER_SEC) as Duration
    } else {
        (u64::MAX * NANOS_PER_SEC) as Duration
    }
}

fn counted(count: u64, secs: u64) -> (r: Duration)
    ensures
        r == units_of(count, secs),
{
    proof {
        assert(count * secs <= u64::MAX * u64::MAX) by (nonlinear_arith)
            requires
                0 <= count <= u64::MAX,
                0 <= secs <= u64::MAX,
        ;
    }
    let total: u128 = count as u128 * secs as u128;
    if total <= u64::MAX as u128 {
        from_secs(total as u64)
    } else {
        from_secs(u64::MAX)
    }
}

/// The shorter of two time spans of which either may be missing.
pub open spec fn shortest(a: Option<Duration>, b: Option<Duration>) -> Option<Duration> {
    match (a, b) {
        (Some(x), Some(y)) => Some(if x <= y {
            x
        } else {
            y
        }),
        (Some(x), None) => Some(x),
        (None, other) => other,
    }
}

impl IdleTimeouts {
    /// What a project's configuration and the environment make of the timers.
    pub fn from_config(
        idle_timeout_minutes: u64,
        core_idle_timeout_hours: u64,
        plugin_raw: Option<&str>,
        core_raw: Option<&str>,
    ) -> (r: Self)
        ensures
            r.plugin == overridden(opt_view(plugin_raw), units_of(idle_timeout_minutes, 60)),
            r.core == overridden(opt_view(core_raw), units_of(core_idle_timeout_hours, 3600)),
    {
        IdleTimeouts {
            plugin: parse_timeout(plugin_raw, counted(idle_timeout_minutes, 60)),
            core: parse_timeout(core_raw, counted(core_idle_timeout_hours, 3600)),
        }
    }

    /// How often the timers are looked at: four times in the shorter one,
    /// within bounds.
    pub open spec fn pace(self) -> Duration {
        match shortest(self.plugin, self.core) {
            None => MAX_TICK,
            Some(span) => if span / 4 < MIN_TICK {
                MIN_TICK
            } else if span / 4 > MAX_TICK {
                MAX_TICK
            } else {
                (span / 4) as Duration
            },
        }
    }

    /// How often the timers are looked at.
    pub fn tick(&self) -> (r: Duration)
        ensures
            r == self.pace(),
    {
        let span: Duration = match (self.plugin, self.core) {
            (Some(x), Some(y)) => {
                if x <= y {
                    x
                } else {
                    y
                }
            },
            (Some(x), None) => x,
            (None, Some(y)) => y,
            (None, None) => {
                return MAX_TICK;
            },
        };
        let quarter: Duration = span / 4;
        if quarter < MIN_TICK {
            MIN_TICK
        } else if quarter > MAX_TICK {
            MAX_TICK
        } else {
            quarter
        }
    }
}

/// The timers are looked at neither in a spin nor too rarely to be of use.
pub proof fn the_pace_is_bounded(timeouts: IdleTimeouts)
    ensures
        MIN_TICK <= timeouts.pace() <= MAX_TICK,
{
}

// ---------------------------------------------------------------------------
// Changes that wait
// ---------------------------------------------------------------------------
/// The files that changed while a plugin was not there to be told, each once,
/// in the order they were first seen.
#[derive(Clone, Debug)]
pub struct DirtyQueue {
    pub order: Vec<String>,
}

impl View for DirtyQueue {
    type V = Seq<Seq<char>>;

    open spec fn view(&self) -> Seq<Seq<char>> {
        views(self.order@)
    }
}

/// A queue after a file was added to it: at its end, unless it is there.
pub open spec fn queued(queue: Seq<Seq<char>>, file: Seq<char>) -> Seq<Seq<char>> {
    if queue.contains(file) {
        queue
    } else {
        queue.push(file)
    }
}

impl Default for DirtyQueue {
    fn default() -> (r: Self)
        ensures
            r@ == Seq::<Seq<char>>::empty(),
            r.wf(),
    {
        let r = DirtyQueue { order: Vec::new() };
        proof {
            assert(r@ =~= seq![]);
        }
        r
    }
}

impl DirtyQueue {
    /// Whether no file is there twice.
    pub open spec fn wf(self) -> bool {
        self@.no_duplicates()
    }

    /// Adds a file unless it is there.
    pub fn push(&mut self, file_path: String)
        requires
            old(self).wf(),
        ensures
            final(self).wf(),
            final(self)@ == queued(old(self)@, file_path@),
    {
        if !contains_text(&self.order, file_path.as_str()) {
            let ghost before = self@;
            self.order.push(file_path);
            proof {
                assert(self@ =~= before.push(file_path@));
            }
        }
    }

    pub fn is_empty(&self) -> (r: bool)
        ensures
            r == (self@.len() == 0),
    {
        self.order.len() == 0
    }

    pub fn len(&self) -> (r: usize)
        ensures
            r == self@.len(),
    {
        self.order.len()
    }

    /// Takes every file out, in the order they were first seen.
    pub fn drain(&mut self) -> (r: Vec<String>)
        ensures
            views(r@) == old(self)@,
            final(self)@ == Seq::<Seq<char>>::empty(),
            final(self).wf(),
    {
        let mut r: Vec<String> = Vec::new();
        let ghost before = self@;
        r.append(&mut self.order);
        proof {
            assert(views(r@) =~= before);
            assert(self@ =~= seq![]);
        }
        r
    }
}

/// A file that is added twice is there once, where it was first.
pub proof fn a_repeated_change_is_queued_once(queue: Seq<Seq<char>>, file: Seq<char>)
    ensures
        queued(queued(queue, file), file) == queued(queue, file),
        queued(queue, file).contains(file),
        queue.is_prefix_of(queued(queue, file)),
{
    let q = queued(queue, file);
    if !queue.contains(file) {
        assert(q[q.len() - 1] == file);
        assert(q.take(queue.len() as int) =~= queue);
    } else {
        assert(q.take(queue.len() as int) =~= queue);
    }
}

// ---------------------------------------------------------------------------
// Is anyone there
// ---------------------------------------------------------------------------
/// When the core was last asked for something, and how many clients are
/// attached to it.
#[derive(Clone, Debug)]
pub struct CoreActivity {
    pub last_request: Duration,
    pub live_connections: usize,
}

/// A client that is attached. It is handed back when the client goes.
#[derive(Debug)]
pub struct ConnectionGuard {
    pub opened_at: Duration,
}

/// How long ago `then` was at `now`.
pub open spec fn since(then: Duration, now: Duration) -> Duration {
    if now >= then {
        (now - then) as Duration
    } else {
        0
    }
}

/// How long ago `then` was at `now`.
pub fn elapsed(then: Duration, now: Duration) -> (r: Duration)
    ensures
        r == since(then, now),
{
    if now >= then {
        now - then
    } else {
        0
    }
}

/// What keeps a core busy, and when.
pub enum Event {
    /// A client attaches.
    Opened(Duration),
    /// A client goes.
    Closed(Duration),
    /// The core is asked for something.
    Asked(Duration),
}

/// What one event does to a core. The counter of its clients starts over past
/// its largest value.
pub open spec fn happens(c: CoreActivity, event: Event) -> CoreActivity {
    match event {
        Event::Opened(now) => CoreActivity {
            last_request: now,
            live_connections: if c.live_connections == usize::MAX {
                0
            } else {
                (c.live_connections + 1) as usize
            },
        },
        Event::Closed(now) => CoreActivity {
            last_request: now,
            live_connections: if c.live_connections == 0 {
                usize::MAX
            } else {
                (c.live_connections - 1) as usize
            },
        },
        Event::Asked(now) => CoreActivity { last_request: now, ..c },
    }
}

/// What a row of events does to a core.
pub open spec fn happen(c: CoreActivity, events: Seq<Event>) -> CoreActivity
    decreases events.len(),
{
    if events.len() == 0 {
        c
    } else {
        happens(happen(c, events.drop_last()), events.last())
    }
}

/// How many clients are attached after a row of events.
pub open spec fn attached(events: Seq<Event>) -> int
    decreases events.len(),
{
    if events.len() == 0 {
        0
    } else {
        attached(events.drop_last()) + match events.last() {
            Event::Opened(_) => 1int,
            Event::Closed(_) => -1int,
            Event::Asked(_) => 0int,
        }
    }
}

/// How long a core has been idle, if that is at least `timeout` and no client
/// is attached.
pub open spec fn idle_for(c: CoreActivity, timeout: Option<Duration>, now: Duration) -> Option<Duration> {
    match timeout {
        Some(t) => if c.live_connections == 0 && since(c.last_request, now) >= t {
            Some(since(c.last_request, now))
        } else {
            None
        },
        None => None,
    }
}

proof fn lemma_clients_are_counted(c: CoreActivity, events: Seq<Event>)
    requires
        c.live_connections == 0,
        forall|n: int| 0 <= n <= events.len() ==> 0 <= #[trigger] attached(events.take(n)) <= usize::MAX,
    ensures
        happen(c, events).live_connections == attached(events),
    decreases events.len(),
{
    assert(events.take(events.len() as int) =~= events);
    if events.len() > 0 {
        let front = events.drop_last();
        assert forall|n: int| 0 <= n <= front.len() implies 0 <= #[trigger] attached(front.take(n))
            <= usize::MAX by {
            assert(front.take(n) =~= events.take(n));
        }
        lemma_clients_are_counted(c, front);
    }
}

/// A client that is attached holds the core open, however quiet it is: as long
/// as more came than went, the core is not idle, whatever the timeout. Once the
/// last one has gone, the idle time counts from then. (There are as many
/// clients as can be counted at most, and none goes that has not come.)
pub proof fn a_live_connection_holds_the_core_open(
    c: CoreActivity,
    events: Seq<Event>,
    timeout: Duration,
    now: Duration,
)
    requires
        c.live_connections == 0,
        forall|n: int| 0 <= n <= events.len() ==> 0 <= #[trigger] attached(events.take(n)) <= usize::MAX,
    ensures
        attached(events) > 0 ==> idle_for(happen(c, events), Some(timeout), now) is None,
        attached(events) == 0 && events.len() > 0 ==> (events.last() matches Event::Closed(at) ==> (
        idle_for(happen(c, events), Some(timeout), now) == if since(at, now) >= timeout {
            Some(since(at, now))
        } else {
            None
        })),
{
    lemma_clients_are_counted(c, events);
}

impl CoreActivity {
    /// A core that has just started.
    pub fn new(now: Duration) -> (r: Self)
        ensures
            r.last_request == now,
            r.live_connections == 0,
    {
        CoreActivity { last_request: now, live_connections: 0 }
    }

    /// The core is asked for something.
    pub fn request(&mut self, now: Duration)
        ensures
            *final(self) == happens(*old(self), Event::Asked(now)),
    {
        self.last_request = now;
    }

    /// A client attaches, which is activity too.
    pub fn connection_opened(&mut self, now: Duration) -> (r: ConnectionGuard)
        ensures
            *final(self) == happens(*old(self), Event::Opened(now)),
            r.opened_at == now,
    {
        self.live_connections = if self.live_connections == usize::MAX {
            0
        } else {
            self.live_connections + 1
        };
        self.request(now);
        ConnectionGuard { opened_at: now }
    }

    /// A client goes, which is activity too.
    pub fn connection_closed(&mut self, guard: ConnectionGuard, now: Duration)
        ensures
            *final(self) == happens(*old(self), Event::Closed(now)),
    {
        self.live_connections = if self.live_connections == 0 {
            usize::MAX
        } else {
            self.live_connections - 1
        };
        self.request(now);
    }

    /// How long the core has been idle, if that is at least `timeout` and no
    /// client is attached.
    pub fn idle_beyond(&self, timeout: Option<Duration>, now: Duration) -> (r: Option<Duration>)
        ensures
            r == idle_for(*self, timeout, now),
    {
        match timeout {
            Some(t) => {
                if self.live_connections > 0 {
                    return None;
                }
                let idle: Duration = elapsed(self.last_request, now);
                if idle >= t {
                    Some(idle)
                } else {
                    None
                }
            },
            None => None,
        }
    }
}

// ---------------------------------------------------------------------------
// Is there anything left to serve
// ---------------------------------------------------------------------------
/// What looking at a path gave.
#[derive(Clone, Copy, Debug, PartialEq, Eq, Structural)]
pub enum Looked {
    Present,
    NotFound,
    /// It could not be told.
    Unknown,
}

/// Why a daemon has nothing left to serve.
#[derive(Clone, Debug, PartialEq, Eq)]
pub enum Orphaned {
    ProjectRootGone(String),
    ExecutableGone(String),
}

impl Orphaned {
    /// The reason, as it is reported.
    pub open spec fn reason(self) -> Seq<char> {
        match self {
            Orphaned::ProjectRootGone(path) => "the project root "@ + path@ + " no longer exists"@,
            Orphaned::ExecutableGone(path) => "the executable this daemon was started from ("@ + path@
                + ") no longer exists"@,
        }
    }

    /// The reason, as it is reported.
    pub fn message(&self) -> (r: String)
        ensures
            r@ == self.reason(),
    {
        match self {
            Orphaned::ProjectRootGone(path) => {
                let mut r: String = "the project root ".to_owned();
                r.append(path.as_str());
                r.append(" no longer exists");
                r
            },
            Orphaned::ExecutableGone(path) => {
                let mut r: String = "the executable this daemon was started from (".to_owned();
                r.append(path.as_str());
                r.append(") no longer exists");
                r
            },
        }
    }
}

/// Whether a path is gone for certain: a failure to look is no evidence.
pub fn is_definitely_gone(looked: Looked) -> (r: bool)
    ensures
        r == (looked == Looked::NotFound),
{
    match looked {
        Looked::NotFound => true,
        _ => false,
    }
}

/// Whether the daemon has nothing left to serve: its root is gone for certain
/// or, failing that, its executable is. `exe` is the executable's path, where
/// that is known, and what looking at it gave.
pub fn orphan_check(project_root: &str, root: Looked, exe: Option<(String, Looked)>) -> (r: Option<Orphaned>)
    ensures
        match r {
            Some(Orphaned::ProjectRootGone(path)) => root == Looked::NotFound && path@ == project_root@,
            Some(Orphaned::ExecutableGone(path)) => root != Looked::NotFound && exe == Some(
                (path, Looked::NotFound),
            ),
            None => root != Looked::NotFound && (exe matches Some(e) ==> e.1 != Looked::NotFound),
        },
{
    if is_definitely_gone(root) {
        return Some(Orphaned::ProjectRootGone(project_root.to_owned()));
    }
    match exe {
        Some((path, looked)) => {
            if is_definitely_gone(looked) {
                Some(Orphaned::ExecutableGone(path))
            } else {
                None
            }
        },
        None => None,
    }
}

/// The files that a daemon on its way out takes with it: its pid, its plugins'
/// pids, its build stamp, its phase and progress, and its socket.
pub open spec fn released(state_dir: Seq<char>, plugin_pids: Seq<Seq<char>>, style: PathStyle) -> Seq<
    Seq<char>,
> {
    seq![join(state_dir, PID_FILE@, style)] + plugin_pids + seq![
        join(state_dir, BUILD_STAMP_FILE@, style),
        join(state_dir, PHASE_FILE@, style),
        join(state_dir, PROGRESS_FILE@, style),
    ] + (match address_in(state_dir, style) {
        Some(Address::AtPath(path)) => seq![path],
        _ => seq![],
    })
}

/// The files that a daemon on its way out takes with it.
pub fn release_state_files(state_dir: &str, plugin_pids: &Vec<String>, style: PathStyle) -> (r: Vec<String>)
    ensures
        views(r@) == released(state_dir@, views(plugin_pids@), style),
{
    let mut r: Vec<String> = Vec::new();
    r.push(pid_path_in(state_dir, style));
    let ghost first = views(r@);
    let mut pids = copy_texts(plugin_pids);
    r.append(&mut pids);
    proof {
        assert(views(r@) =~= first + views(plugin_pids@));
    }
    r.push(build_stamp_path_in(state_dir, style));
    r.push(phase_path_in(state_dir, style));
    r.push(progress_path_in(state_dir, style));
    match endpoint_in(state_dir, style) {
        Some(Endpoint::AtPath(path)) => {
            r.push(path);
        },
        _ => {},
    }
    proof {
        assert(views(r@) =~= released(state_dir@, views(plugin_pids@), style));
    }
    r
}

// ---------------------------------------------------------------------------
// The tick
// ---------------------------------------------------------------------------
/// What the daemon's monitor is waiting to hear.
#[derive(Clone, Copy, Debug, PartialEq, Eq, Structural)]
pub enum Watch {
    AcceptLoop,
    Orphan,
    PluginsIdle,
    PluginsMemory,
    CoreIdle,
    PluginsStopped,
    FilesReleased,
    Over,
}

/// What the monitor hears.
#[derive(Clone, Debug, PartialEq, Eq)]
pub enum Heard {
    /// The accept loop ended; it only ever ends by failing.
    AcceptEnded { error: Option<String> },
    AcceptPanicked,
    /// A tick passed without word from the accept loop.
    Tick,
    Orphan(Option<Orphaned>),
    /// What was asked for has been done.
    Done,
    Idle(Option<Duration>),
}

/// What the monitor does next.
#[derive(Clone, Debug, PartialEq, Eq)]
pub enum Duty {
    /// Wait for the accept loop, for one tick.
    AwaitTick { tick: Duration },
    CheckOrphan,
    SleepIdlePlugins,
    CheckPluginMemory,
    CheckCoreIdle,
    /// Stop every plugin, for this reason.
    StopPlugins { reason: String },
    ReleaseFiles,
    /// The daemon is over; with an error if there is one.
    Exit { error: Option<String> },
}

/// What a `Duty` says.
pub enum Task {
    AwaitTick(Duration),
    CheckOrphan,
    SleepIdlePlugins,
    CheckPluginMemory,
    CheckCoreIdle,
    StopPlugins(Seq<char>),
    ReleaseFiles,
    Exit(Option<Seq<char>>),
}

impl View for Duty {
    type V = Task;

    open spec fn view(&self) -> Task {
        match self {
            Duty::AwaitTick { tick } => Task::AwaitTick(*tick),
            Duty::CheckOrphan => Task::CheckOrphan,
            Duty::SleepIdlePlugins => Task::SleepIdlePlugins,
            Duty::CheckPluginMemory => Task::CheckPluginMemory,
            Duty::CheckCoreIdle => Task::CheckCoreIdle,
            Duty::StopPlugins { reason } => Task::StopPlugins(reason@),
            Duty::ReleaseFiles => Task::ReleaseFiles,
            Duty::Exit { error } => Task::Exit(opt_text(*error)),
        }
    }
}

/// What the monitor waits for and does next. A tick looks for an orphan first,
/// then lets idle plugins sleep, then checks their memory, then the core
/// itself. An orphan and an idle core stop every plugin and take their files
/// along before they exit. Word that was not waited for changes nothing.
pub open spec fn next_watch(at: Watch, heard: Heard, tick: Duration) -> Option<(Watch, Task)> {
    match (at, heard) {
        (Watch::AcceptLoop, Heard::AcceptEnded { error }) => Some(
            (Watch::Over, Task::Exit(opt_text(error))),
        ),
        (Watch::AcceptLoop, Heard::AcceptPanicked) => Some(
            (Watch::Over, Task::Exit(Some("the daemon's MCP accept loop panicked"@))),
        ),
        (Watch::AcceptLoop, Heard::Tick) => Some((Watch::Orphan, Task::CheckOrphan)),
        (Watch::Orphan, Heard::Orphan(Some(_))) => Some(
            (
                Watch::PluginsStopped,
                Task::StopPlugins("the core has been orphaned and is shutting down"@),
            ),
        ),
        (Watch::Orphan, Heard::Orphan(None)) => Some((Watch::PluginsIdle, Task::SleepIdlePlugins)),
        (Watch::PluginsIdle, Heard::Done) => Some((Watch::PluginsMemory, Task::CheckPluginMemory)),
        (Watch::PluginsMemory, Heard::Done) => Some((Watch::CoreIdle, Task::CheckCoreIdle)),
        (Watch::CoreIdle, Heard::Idle(Some(_))) => Some(
            (Watch::PluginsStopped, Task::StopPlugins("the core is shutting down"@)),
        ),
        (Watch::CoreIdle, Heard::Idle(None)) => Some((Watch::AcceptLoop, Task::AwaitTick(tick))),
        (Watch::PluginsStopped, Heard::Done) => Some((Watch::FilesReleased, Task::ReleaseFiles)),
        (Watch::FilesReleased, Heard::Done) => Some((Watch::Over, Task::Exit(None))),
        _ => None,
    }
}

/// The daemon's monitor.
#[derive(Clone, Debug)]
pub struct Monitor {
    pub at: Watch,
    pub tick: Duration,
}

impl Monitor {
    /// Starts to supervise: the first thing is to wait for a tick.
    pub fn supervise(timeouts: IdleTimeouts) -> (r: (Monitor, Duty))
        ensures
            r.0.at == Watch::AcceptLoop,
            r.0.tick == timeouts.pace(),
            r.1@ == Task::AwaitTick(timeouts.pace()),
    {
        let tick = timeouts.tick();
        (Monitor { at: Watch::AcceptLoop, tick }, Duty::AwaitTick { tick })
    }

    /// Takes in what was heard and says what to do next; nothing where that
    /// was not waited for.
    pub fn hear(&mut self, heard: Heard) -> (r: Option<Duty>)
        ensures
            final(self).tick == old(self).tick,
            match next_watch(old(self).at, heard, old(self).tick) {
                Some((at, task)) => final(self).at == at && r is Some && r->0@ == task,
                None => final(self).at == old(self).at && r is None,
            },
    {
        let next: Option<(Watch, Duty)> = match (self.at, heard) {
            (Watch::AcceptLoop, Heard::AcceptEnded { error }) => Some((Watch::Over, Duty::Exit { error })),
            (Watch::AcceptLoop, Heard::AcceptPanicked) => Some(
                (
                    Watch::Over,
                    Duty::Exit { error: Some("the daemon's MCP accept loop panicked".to_owned()) },
                ),
            ),
            (Watch::AcceptLoop, Heard::Tick) => Some((Watch::Orphan, Duty::CheckOrphan)),
            (Watch::Orphan, Heard::Orphan(Some(_))) => Some(
                (
                    Watch::PluginsStopped,
                    Duty::StopPlugins {
                        reason: "the core has been orphaned and is shutting down".to_owned(),
                    },
                ),
            ),
            (Watch::Orphan, Heard::Orphan(None)) => Some((Watch::PluginsIdle, Duty::SleepIdlePlugins)),
            (Watch::PluginsIdle, Heard::Done) => Some((Watch::PluginsMemory, Duty::CheckPluginMemory)),
            (Watch::PluginsMemory, Heard::Done) => Some((Watch::CoreIdle, Duty::CheckCoreIdle)),
            (Watch::CoreIdle, Heard::Idle(Some(_))) => Some(
                (
                    Watch::PluginsStopped,
                    Duty::StopPlugins { reason: "the core is shutting down".to_owned() },
                ),
            ),
            (Watch::CoreIdle, Heard::Idle(None)) => Some(
                (Watch::AcceptLoop, Duty::AwaitTick { tick: self.tick }),
            ),
            (Watch::PluginsStopped, Heard::Done) => Some((Watch::FilesReleased, Duty::ReleaseFiles)),
            (Watch::FilesReleased, Heard::Done) => Some((Watch::Over, Duty::Exit { error: None })),
            _ => None,
        };
        match next {
            Some((at, duty)) => {
                self.at = at;
                Some(duty)
            },
            None => None,
        }
    }
}

/// A daemon that leaves of its own accord, without an error, has stopped its
/// plugins and taken its files along: the only way to such an end leads
/// through both. (An accept loop that ends without an error ends the daemon
/// too, and is the one exception.)
pub proof fn a_clean_exit_releases_everything(at: Watch, heard: Heard, tick: Duration)
    requires
        next_watch(at, heard, tick) == Some((Watch::Over, Task::Exit(None))),
        !(heard is AcceptEnded),
    ensures
        at == Watch::FilesReleased,
        forall|before: Watch, h: Heard|
            (#[trigger] next_watch(before, h, tick)) is Some && (next_watch(before, h, tick)->0).0
                == Watch::FilesReleased ==> before == Watch::PluginsStopped,
{
}

/// A tick that finds an orphan touches neither timers nor memory.
pub proof fn an_orphan_pays_for_nothing_else(orphan: Orphaned, tick: Duration)
    ensures
        next_watch(Watch::Orphan, Heard::Orphan(Some(orphan)), tick) matches Some((at, _)) && at
            == Watch::PluginsStopped,
{
}

} // verus!
