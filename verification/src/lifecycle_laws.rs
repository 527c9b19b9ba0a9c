//! What holds of watching over a daemon: what a tick asks for, what ends the
//! daemon and what it leaves behind, and how long it waits.

use vstd::prelude::*;

use crate::lifecycle::{
    CoreActivity, Event, Heard, IdleTimeouts, Orphaned, Task, Watch, happen, idle_for, next_watch, overridden,
    queued, released, shortest, since, units_of,
};
use crate::number::{decimal, decimal_reads_back, lemma_decimal, parsed};
use crate::path::{PathStyle, join};
use crate::state_files::lemma_digits_stay;
use crate::text::{holds_part, opt_text, trimmed};
use crate::text_laws::trimming_takes_off_both_ends;
use crate::time::Duration;

verus! {

// ---------------------------------------------------------------------------
// The watch
// ---------------------------------------------------------------------------
/// What the watch asks for, report after report.
pub open spec fn tasks(at: Watch, reports: Seq<Heard>, tick: Duration) -> Seq<Task>
    decreases reports.len(),
{
    if reports.len() == 0 {
        seq![]
    } else {
        match next_watch(at, reports[0], tick) {
            Some((then, task)) => seq![task] + tasks(then, reports.drop_first(), tick),
            None => tasks(at, reports.drop_first(), tick),
        }
    }
}

/// Where the watch stands after these reports.
pub open spec fn watch_after(at: Watch, reports: Seq<Heard>, tick: Duration) -> Watch
    decreases reports.len(),
{
    if reports.len() == 0 {
        at
    } else {
        match next_watch(at, reports[0], tick) {
            Some((then, _)) => watch_after(then, reports.drop_first(), tick),
            None => watch_after(at, reports.drop_first(), tick),
        }
    }
}

/// What was asked for last. A tick is awaited before anything is reported.
pub open spec fn last_task(before: Task, asked: Seq<Task>) -> Task {
    if asked.len() == 0 {
        before
    } else {
        asked.last()
    }
}

/// What was asked for before the task at `i`.
pub open spec fn task_before(before: Task, asked: Seq<Task>, i: int) -> Task {
    if i == 0 {
        before
    } else {
        asked[i - 1]
    }
}

/// Whether a watch that waits here has asked for this last.
pub open spec fn waits_for(at: Watch, last: Task, tick: Duration) -> bool {
    match at {
        Watch::AcceptLoop => last == Task::AwaitTick(tick),
        Watch::Orphan => last is CheckOrphan,
        Watch::PluginsIdle => last is SleepIdlePlugins,
        Watch::PluginsMemory => last is CheckPluginMemory,
        Watch::CoreIdle => last is CheckCoreIdle,
        Watch::PluginsStopped => last is StopPlugins,
        Watch::FilesReleased => last is ReleaseFiles,
        Watch::Over => last is Exit,
    }
}

/// What a task may come after: what was asked for right before it.
pub open spec fn may_follow(task: Task, before: Task, tick: Duration) -> bool {
    match task {
        Task::AwaitTick(span) => before is CheckCoreIdle && span == tick,
        Task::CheckOrphan => before is AwaitTick,
        Task::SleepIdlePlugins => before is CheckOrphan,
        Task::CheckPluginMemory => before is SleepIdlePlugins,
        Task::CheckCoreIdle => before is CheckPluginMemory,
        Task::StopPlugins(why) => {
            ||| before is CheckOrphan && why == "the core has been orphaned and is shutting down"@
            ||| before is CheckCoreIdle && why == "the core is shutting down"@
        },
        Task::ReleaseFiles => before is StopPlugins,
        Task::Exit(None) => before is ReleaseFiles || before is AwaitTick,
        Task::Exit(Some(_)) => before is AwaitTick,
    }
}

proof fn lemma_reports(at: Watch, reports: Seq<Heard>, tick: Duration, before: Task)
    requires
        waits_for(at, before, tick),
    ensures
        waits_for(watch_after(at, reports, tick), last_task(before, tasks(at, reports, tick)), tick),
        forall|i: int|
            0 <= i < tasks(at, reports, tick).len() ==> may_follow(
                #[trigger] tasks(at, reports, tick)[i],
                task_before(before, tasks(at, reports, tick), i),
                tick,
            ),
    decreases reports.len(),
{
    let asked = tasks(at, reports, tick);
    if reports.len() > 0 {
        match next_watch(at, reports[0], tick) {
            Some((then, task)) => {
                lemma_reports(then, reports.drop_first(), tick, task);
                let rest = tasks(then, reports.drop_first(), tick);
                assert forall|i: int| 0 <= i < asked.len() implies may_follow(
                    #[trigger] asked[i],
                    task_before(before, asked, i),
                    tick,
                ) by {
                    if i > 0 {
                        assert(asked[i] == rest[i - 1]);
                        assert(task_before(before, asked, i) == task_before(task, rest, i - 1));
                    }
                }
            },
            None => {
                lemma_reports(at, reports.drop_first(), tick, before);
            },
        }
    }
}

/// Whatever is reported, each thing is asked for only right after what it waits
/// for: no daemon leaves of its own accord before its files are released, none
/// releases them before its plugins are stopped, and none stops its plugins but
/// as an orphan or as one that nobody has used for long enough.
pub proof fn a_watch_asks_in_order(reports: Seq<Heard>, tick: Duration, i: int)
    requires
        0 <= i < tasks(Watch::AcceptLoop, reports, tick).len(),
    ensures
        may_follow(
            tasks(Watch::AcceptLoop, reports, tick)[i],
            task_before(Task::AwaitTick(tick), tasks(Watch::AcceptLoop, reports, tick), i),
            tick,
        ),
{
    lemma_reports(Watch::AcceptLoop, reports, tick, Task::AwaitTick(tick));
}

/// What a tick that finds nothing is told.
pub open spec fn quiet_tick() -> Seq<Heard> {
    seq![Heard::Tick, Heard::Orphan(None), Heard::Done, Heard::Done, Heard::Idle(None)]
}

/// A tick on which nothing is found looks at everything once, in this order,
/// and waits for the next. One that finds an orphan, or a core that is idle,
/// stops the plugins, releases the files and leaves without an error. An accept
/// loop that ends takes the daemon with it, with its error.
pub proof fn a_tick_looks_at_everything(
    orphan: Orphaned,
    idle: Duration,
    error: Option<String>,
    tick: Duration,
)
    ensures
        tasks(Watch::AcceptLoop, quiet_tick(), tick) == seq![
            Task::CheckOrphan,
            Task::SleepIdlePlugins,
            Task::CheckPluginMemory,
            Task::CheckCoreIdle,
            Task::AwaitTick(tick),
        ],
        watch_after(Watch::AcceptLoop, quiet_tick(), tick) == Watch::AcceptLoop,
        tasks(
            Watch::AcceptLoop,
            seq![Heard::Tick, Heard::Orphan(Some(orphan)), Heard::Done, Heard::Done],
            tick,
        ) == seq![
            Task::CheckOrphan,
            Task::StopPlugins("the core has been orphaned and is shutting down"@),
            Task::ReleaseFiles,
            Task::Exit(None),
        ],
        tasks(
            Watch::AcceptLoop,
            seq![
                Heard::Tick,
                Heard::Orphan(None),
                Heard::Done,
                Heard::Done,
                Heard::Idle(Some(idle)),
                Heard::Done,
                Heard::Done,
            ],
            tick,
        ) == seq![
            Task::CheckOrphan,
            Task::SleepIdlePlugins,
            Task::CheckPluginMemory,
            Task::CheckCoreIdle,
            Task::StopPlugins("the core is shutting down"@),
            Task::ReleaseFiles,
            Task::Exit(None),
        ],
        tasks(Watch::AcceptLoop, seq![Heard::AcceptEnded { error }], tick) == seq![
            Task::Exit(opt_text(error)),
        ],
        tasks(Watch::AcceptLoop, seq![Heard::AcceptPanicked], tick) == seq![
            Task::Exit(Some("the daemon's MCP accept loop panicked"@)),
        ],
{
    reveal_with_fuel(tasks, 8);
    reveal_with_fuel(watch_after, 6);
}

// ---------------------------------------------------------------------------
// How long is waited
// ---------------------------------------------------------------------------
/// A variable that is not set, or is no number, leaves the default; zero turns
/// the timer off; any other number is that many milliseconds. White space
/// around it does not matter.
pub proof fn a_timeout_is_read_in_milliseconds(text: Seq<char>, n: u64, default: Duration)
    ensures
        overridden(None, default) == Some(default),
        parsed(trimmed(text), u64::MAX as nat) is None ==> overridden(Some(text), default) == Some(default),
        overridden(Some(text), default) == overridden(Some(trimmed(text)), default),
        trimmed(text) == decimal(n as nat) ==> overridden(Some(text), default) == if n == 0 {
            None
        } else {
            Some((n * 1_000_000) as Duration)
        },
        overridden(Some(decimal(n as nat)), default) == if n == 0 {
            None
        } else {
            Some((n * 1_000_000) as Duration)
        },
{
    trimming_takes_off_both_ends(text);
    decimal_reads_back(n as nat, u64::MAX as nat);
    lemma_decimal(n as nat);
    lemma_digits_stay(decimal(n as nat));
}

/// So many units of so many seconds are as many seconds as that is, up to what
/// can be counted; more units are never less.
pub proof fn units_are_counted_in_seconds(count: u64, more: u64, secs: u64)
    requires
        count <= more,
    ensures
        count * secs <= u64::MAX ==> units_of(count, secs) == count * secs * 1_000_000_000,
        count * secs > u64::MAX ==> units_of(count, secs) == u64::MAX * 1_000_000_000,
        units_of(count, secs) <= units_of(more, secs),
        units_of(0, secs) == 0,
        units_of(1, secs) == secs * 1_000_000_000,
{
    assert(count * secs <= more * secs) by (nonlinear_arith)
        requires
            0 <= count <= more,
            0 <= secs,
    ;
    assert(0 * secs == 0 && 1 * secs == secs);
    assert(0 <= count * secs) by (nonlinear_arith)
        requires
            0 <= count,
            0 <= secs,
    ;
}

/// The shorter of two timers is one of them and no longer than either; one that
/// is off does not count, and there is none where both are.
pub proof fn the_shorter_timer_counts(a: Option<Duration>, b: Option<Duration>)
    ensures
        shortest(a, b) == shortest(b, a),
        shortest(a, b) is None <==> a is None && b is None,
        shortest(a, b) is Some ==> shortest(a, b) == a || shortest(a, b) == b,
        a is Some ==> shortest(a, b) is Some && shortest(a, b)->0 <= a->0,
        b is Some ==> shortest(a, b) is Some && shortest(a, b)->0 <= b->0,
{
}

/// The timers are looked at about four times in the shorter one: within fifty
/// milliseconds to thirty seconds that is exactly how often; a longer timer is
/// never looked at more often than a shorter one.
pub proof fn the_timers_are_looked_at_four_times(timeouts: IdleTimeouts, longer: IdleTimeouts)
    ensures
        50_000_000 <= timeouts.pace() <= 30_000_000_000,
        timeouts.plugin is None && timeouts.core is None ==> timeouts.pace() == 30_000_000_000,
        shortest(timeouts.plugin, timeouts.core) matches Some(span) ==> {
            &&& 200_000_000 <= span <= 120_000_000_000 ==> 4 * timeouts.pace() <= span < 4 * (
            timeouts.pace() + 1)
            &&& span < 200_000_000 ==> timeouts.pace() == 50_000_000
            &&& span > 120_000_000_000 ==> timeouts.pace() == 30_000_000_000
        },
        (timeouts.plugin matches Some(p) ==> (longer.plugin matches Some(q) ==> p <= q)) && (
        timeouts.core matches Some(p) ==> (longer.core matches Some(q) ==> p <= q)) && (
        timeouts.plugin is None ==> longer.plugin is None) && (timeouts.core is None ==> longer.core is None)
            ==> timeouts.pace() <= longer.pace(),
{
}

// ---------------------------------------------------------------------------
// Is anyone there
// ---------------------------------------------------------------------------
/// When something last happened.
pub open spec fn time_of(event: Event) -> Duration {
    match event {
        Event::Opened(at) => at,
        Event::Closed(at) => at,
        Event::Asked(at) => at,
    }
}

/// A core is idle only since whatever happened last, be it a client that came
/// or went or a request; a timer that is off never makes it idle; and time that
/// seems to run backwards is no idle time.
pub proof fn a_core_is_idle_since_what_happened_last(
    c: CoreActivity,
    events: Seq<Event>,
    timeout: Duration,
    now: Duration,
)
    requires
        events.len() > 0,
    ensures
        ({
            let d = happen(c, events);
            let at = time_of(events.last());
            &&& idle_for(d, None, now) is None
            &&& idle_for(d, Some(timeout), now) matches Some(span) ==> span == since(at, now) && span
                >= timeout && d.live_connections == 0
            &&& idle_for(d, Some(timeout), now) is None ==> d.live_connections > 0 || since(at, now)
                < timeout
            &&& now >= at ==> since(at, now) + at == now
            &&& now < at ==> since(at, now) == 0
        }),
{
}

/// A change that waits already is not queued again; one that does not comes
/// last; and no other is moved.
pub proof fn a_change_waits_behind_the_others(queue: Seq<Seq<char>>, file: Seq<char>)
    ensures
        queue.contains(file) ==> queued(queue, file) == queue,
        !queue.contains(file) ==> queued(queue, file) == queue + seq![file],
        queue.no_duplicates() ==> queued(queue, file).no_duplicates(),
{
    if !queue.contains(file) {
        assert(queued(queue, file) =~= queue + seq![file]);
        if queue.no_duplicates() {
            let q = queued(queue, file);
            assert forall|i: int, j: int| 0 <= i < q.len() && 0 <= j < q.len() && i != j implies q[i]
                != q[j] by {
                if i < queue.len() {
                    assert(queue.contains(queue[i]));
                }
                if j < queue.len() {
                    assert(queue.contains(queue[j]));
                }
            }
        }
    }
}

// ---------------------------------------------------------------------------
// What is left behind
// ---------------------------------------------------------------------------
/// A daemon on its way out takes along its pid, the pids of its plugins, its
/// stamp, its phase and its progress, and on Unix its socket; nothing else, and
/// above all none of its locks.
pub proof fn a_daemon_takes_its_own_files_along(
    state_dir: Seq<char>,
    plugin_pids: Seq<Seq<char>>,
    style: PathStyle,
    path: Seq<char>,
)
    ensures
        released(state_dir, plugin_pids, style).contains(path) <==> {
            ||| path == join(state_dir, "daemon.pid"@, style)
            ||| plugin_pids.contains(path)
            ||| path == join(state_dir, "daemon.build"@, style)
            ||| path == join(state_dir, "index.phase"@, style)
            ||| path == join(state_dir, "index.progress"@, style)
            ||| style == PathStyle::Unix && path == join(state_dir, "daemon.sock"@, style)
        },
        released(state_dir, plugin_pids, style).len() == plugin_pids.len() + if style == PathStyle::Unix {
            5nat
        } else {
            4nat
        },
{
    let r = released(state_dir, plugin_pids, style);
    let n = plugin_pids.len() as int;
    assert(r[0] == join(state_dir, "daemon.pid"@, style));
    assert(r[n + 1] == join(state_dir, "daemon.build"@, style));
    assert(r[n + 2] == join(state_dir, "index.phase"@, style));
    assert(r[n + 3] == join(state_dir, "index.progress"@, style));
    if style == PathStyle::Unix {
        assert(r[n + 4] == join(state_dir, "daemon.sock"@, style));
    }
    assert forall|i: int| 0 <= i < n implies r[i + 1] == #[trigger] plugin_pids[i] by {}
    if plugin_pids.contains(path) {
        let i = choose|i: int| 0 <= i < n && plugin_pids[i] == path;
        assert(r[i + 1] == path);
    }
    if r.contains(path) {
        let k = choose|k: int| 0 <= k < r.len() && r[k] == path;
        if 1 <= k <= n {
            assert(plugin_pids[k - 1] == path);
        }
    }
}

/// What is told of an orphan names what is gone.
pub proof fn an_orphan_is_told_what_is_gone(orphan: Orphaned)
    ensures
        match orphan {
            Orphaned::ProjectRootGone(path) => holds_part(orphan.reason(), path@) && holds_part(
                orphan.reason(),
                "project root"@,
            ),
            Orphaned::ExecutableGone(path) => holds_part(orphan.reason(), path@) && holds_part(
                orphan.reason(),
                "executable"@,
            ),
        },
{
    let text = orphan.reason();
    match orphan {
        Orphaned::ProjectRootGone(path) => {
            reveal_strlit("the project root ");
            reveal_strlit("project root");
            let n = "the project root "@.len() as int;
            assert(text.subrange(n, n + path@.len()) =~= path@);
            assert(text.subrange(4, 4int + "project root"@.len()) =~= "project root"@);
        },
        Orphaned::ExecutableGone(path) => {
            reveal_strlit("the executable this daemon was started from (");
            reveal_strlit("executable");
            let n = "the executable this daemon was started from ("@.len() as int;
            assert(text.subrange(n, n + path@.len()) =~= path@);
            assert(text.subrange(4, 4int + "executable"@.len()) =~= "executable"@);
        },
    }
}

} // verus!
