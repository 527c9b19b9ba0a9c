//! What holds between calls: what one call leaves behind for the next, and what
//! a caller can count on whatever came before.

use vstd::prelude::*;

use crate::build_stamp::{BuildStamp, a_published_stamp_reads_back, fits_on_a_line};
use crate::bulk_index::{Hold, hold_the_walk_open, progress_total};
use crate::candidates::completed_index_in;
use crate::delivery::{Delivered, PluginProcess, Poll, end_poll, process_has_exited};
use crate::indexing_status::{IndexingStatus, Moment, Need, ProgressSnapshot, WaitOutcome, WaitStep};
use crate::lifecycle::{ConnectionGuard, CoreActivity, Looked, Orphaned, orphan_check, queued};
use crate::lock::{
    DaemonLock, LockProbe, LockStep, TryLock, acquire_singleton_lock, daemon_lock_is_held, stand_down,
};
use crate::manifest::{PluginManifest, languages};
use crate::path::{PathStyle, extension};
use crate::plugin::{check_handshake, launch_command_for};
use crate::registry::{GetOrSpawn, PluginRegistry};
use crate::semantic::indexed_file_count;
use crate::state_files::{
    ReadFailure, StateFileWrite, a_written_pid_reads_back, read_pid_file, read_pid_file_result,
    record_serving_owner, serving_owner_in, write_pid_file,
};
use crate::supervisor::{Applied, Freshen, OnChange, OnSample, PluginSupervisor, Replay};
use crate::text::views;
use crate::time::Duration;

verus! {

// ---------------------------------------------------------------------------
// A plugin and the changes that wait for it
// ---------------------------------------------------------------------------
/// A change to a file whose plugin sleeps is not lost: it waits behind the
/// others, and once the plugin is awake again everything that waits is handed
/// over, oldest first, and waits no longer.
pub proof fn a_change_that_waited_is_replayed(
    s: &mut PluginSupervisor,
    t: &mut PluginSupervisor,
    u: &mut PluginSupervisor,
    file: String,
    now: Duration,
    pid: u32,
    own_pid: u32,
    later: Duration,
    on_change: OnChange,
    record: StateFileWrite,
    replay: Replay,
)
    requires
        s.process is None,
        call_ensures(PluginSupervisor::file_changed, (s, file, now), on_change),
        *t == *final(s),
        call_ensures(PluginSupervisor::woken, (t, pid, own_pid), record),
        *u == *final(t),
        call_ensures(PluginSupervisor::replay_pending, (u, later), replay),
    ensures
        on_change is Queued,
        final(s).process is None,
        final(t).process == Some(pid),
        replay is Send,
        views(replay->files@).contains(file@),
        old(s)@.dirty.is_prefix_of(views(replay->files@)),
        views(replay->files@).len() <= old(s)@.dirty.len() + 1,
        final(u)@.dirty.len() == 0,
        final(u).process == Some(pid),
        final(u).last_activity == later,
{
    crate::lifecycle::a_repeated_change_is_queued_once(s@.dirty, file@);
    let q = queued(s@.dirty, file@);
    let i = choose|i: int| 0 <= i < q.len() && q[i] == file@;
}

/// A plugin that is awake is handed a change at once, and that counts as
/// activity: it is not put to sleep before its timer has run out since.
pub proof fn a_plugin_at_work_stays_awake(
    s: &mut PluginSupervisor,
    t: &mut PluginSupervisor,
    file: String,
    now: Duration,
    later: Duration,
    on_change: OnChange,
    ended: Option<u32>,
)
    requires
        s.process is Some,
        call_ensures(PluginSupervisor::file_changed, (s, file, now), on_change),
        *t == *final(s),
        call_ensures(PluginSupervisor::sleep_if_idle, (t, later), ended),
    ensures
        on_change is Apply,
        on_change->file_path == file,
        on_change->semantic <==> old(s).manifest.capabilities.semantic_pass && !old(s).semantic_suspended,
        final(s)@.dirty == old(s)@.dirty,
        old(s).idle_timeout is None ==> ended is None && final(t).process == old(s).process,
        old(s).idle_timeout matches Some(timeout) ==> {
            &&& later < now + timeout && timeout > 0 ==> ended is None && final(t).process == old(s).process
            &&& later >= now + timeout ==> ended == old(s).process && final(t).process is None
        },
{
}

/// A change that timed out waits for the next replay; one that failed, and one
/// that was committed, does not.
pub proof fn only_a_change_that_timed_out_waits_again(
    s: &mut PluginSupervisor,
    file: String,
    outcome: Applied,
)
    requires
        call_ensures(PluginSupervisor::file_change_ended, (s, file, outcome), ()),
    ensures
        outcome == Applied::TimedOut ==> final(s)@.dirty.contains(file@) && old(s)@.dirty.is_prefix_of(
            final(s)@.dirty,
        ),
        outcome != Applied::TimedOut ==> final(s)@ == old(s)@,
        final(s).process == old(s).process,
{
    crate::lifecycle::a_repeated_change_is_queued_once(s@.dirty, file@);
}

/// A plugin that sleeps is woken for a query about a stale file and for what
/// waits, and not for a query about one that is current; a semantic pass wakes
/// none.
pub proof fn only_a_stale_file_wakes_a_plugin(
    s: &mut PluginSupervisor,
    t: &mut PluginSupervisor,
    u: &mut PluginSupervisor,
    stale: bool,
    now: Duration,
    freshen: Freshen,
    passes: bool,
    replay: Replay,
)
    requires
        call_ensures(PluginSupervisor::ensure_fresh, (s, stale, now), freshen),
        call_ensures(PluginSupervisor::semantic_pass, (t, now), passes),
        call_ensures(PluginSupervisor::replay_pending, (u, now), replay),
    ensures
        freshen == Freshen::AlreadyFresh <==> !stale,
        freshen == Freshen::Wake <==> stale && old(s).process is None,
        freshen matches Freshen::Reindex { semantic } ==> (semantic
            <==> old(s).manifest.capabilities.semantic_pass && !old(s).semantic_suspended),
        passes <==> old(t).process is Some && !old(t).semantic_suspended,
        replay is Wake <==> old(u)@.dirty.len() > 0 && old(u).process is None,
        replay is Nothing <==> old(u)@.dirty.len() == 0,
        !(replay is Send) ==> final(u)@ == old(u)@,
{
}

/// One sample over the limit only asks for a second one; only where that is
/// over the limit too is the process ended and the language suspended, and from
/// then on it gets no semantic pass, not even once it is awake again.
pub proof fn two_samples_over_the_limit_suspend_for_good(
    s: &mut PluginSupervisor,
    t: &mut PluginSupervisor,
    u: &mut PluginSupervisor,
    v: &mut PluginSupervisor,
    first: u64,
    second: u64,
    own_pid: u32,
    pid: u32,
    now: Duration,
    on_first: OnSample,
    on_second: OnSample,
    record: StateFileWrite,
    passes: bool,
)
    requires
        s.memory_limit_mb is Some,
        s.process is Some,
        call_ensures(PluginSupervisor::memory_sampled, (s, Some(first)), on_first),
        *t == *final(s),
        call_ensures(PluginSupervisor::memory_confirmed, (t, first, Some(second), own_pid), on_second),
        *u == *final(t),
        call_ensures(PluginSupervisor::woken, (u, pid, own_pid), record),
        *v == *final(u),
        call_ensures(PluginSupervisor::semantic_pass, (v, now), passes),
    ensures
        on_first is KeepRunning <==> first <= old(s).memory_limit_mb->0,
        on_first is Confirm <==> first > old(s).memory_limit_mb->0,
        final(s)@ == old(s)@,
        second <= old(s).memory_limit_mb->0 ==> on_second is KeepRunning && final(t)@ == old(s)@,
        second > old(s).memory_limit_mb->0 ==> {
            &&& on_second matches OnSample::Suspend { pid: ended, .. } && Some(ended) == old(s).process
            &&& final(t).process is None
            &&& final(t).semantic_suspended
            &&& final(t)@.dirty == old(s)@.dirty
            &&& !passes
        },
{
}

/// That there is no sample is logged once, and changes nothing else.
pub proof fn a_missing_sample_is_logged_once(
    s: &mut PluginSupervisor,
    t: &mut PluginSupervisor,
    first: OnSample,
    second: OnSample,
)
    requires
        s.memory_limit_mb is Some,
        call_ensures(PluginSupervisor::memory_sampled, (s, None), first),
        *t == *final(s),
        call_ensures(PluginSupervisor::memory_sampled, (t, None), second),
    ensures
        first == (OnSample::Unavailable { log: !old(s).sampling_unavailable_logged }),
        second == (OnSample::Unavailable { log: false }),
        final(t).process == old(s).process,
        final(t)@.dirty == old(s)@.dirty,
        final(t).semantic_suspended == old(s).semantic_suspended,
{
}

// ---------------------------------------------------------------------------
// Starting a plugin
// ---------------------------------------------------------------------------
/// A start that failed leaves nothing behind: the next one who asks is told to
/// start it again. One that went well is what everyone gets from then on.
pub proof fn a_failed_start_can_be_tried_again(
    r: &mut PluginRegistry,
    t: &mut PluginRegistry,
    language: &str,
    spawned: Result<PluginSupervisor, String>,
    then: GetOrSpawn,
)
    requires
        languages(r.discovered.manifests@).contains(language@),
        call_ensures(PluginRegistry::settle, (r, language, spawned), ()),
        *t == *final(r),
        call_ensures(PluginRegistry::get_or_spawn, (t, language), then),
    ensures
        spawned is Err ==> then is Spawn,
        spawned is Ok ==> then is Running,
        final(r).discovered == old(r).discovered,
{
}

/// A start that was never finished leaves nothing behind either.
pub proof fn an_abandoned_start_can_be_tried_again(
    r: &mut PluginRegistry,
    t: &mut PluginRegistry,
    language: &str,
    told: String,
    then: GetOrSpawn,
)
    requires
        languages(r.discovered.manifests@).contains(language@),
        call_ensures(PluginRegistry::abandon, (r, language), told),
        *t == *final(r),
        call_ensures(PluginRegistry::get_or_spawn, (t, language), then),
    ensures
        then is Spawn,
{
}

// ---------------------------------------------------------------------------
// The status of an index
// ---------------------------------------------------------------------------
/// A walk starts to count anew: what is counted after that is what was taken in
/// since, and the languages that were done since.
pub proof fn a_walk_counts_anew(
    s: &mut IndexingStatus,
    t: &mut IndexingStatus,
    u: &mut IndexingStatus,
    total: u32,
    count: u64,
    at: Moment,
    w1: Option<(String, ProgressSnapshot)>,
    w2: Option<(String, ProgressSnapshot)>,
    w3: Option<(String, ProgressSnapshot)>,
)
    requires
        call_ensures(IndexingStatus::start_walk_progress, (s, total, at), w1),
        *t == *final(s),
        call_ensures(IndexingStatus::add_items_ingested, (t, count, at), w2),
        *u == *final(t),
        call_ensures(IndexingStatus::mark_language_done, (u, at), w3),
    ensures
        final(s)@.items == 0,
        final(s)@.languages_done == 0,
        final(s)@.languages_total == total,
        final(s)@.language is None,
        final(t)@.items == count,
        final(t)@.languages_done == 0,
        final(u)@.items == count,
        final(u)@.languages_done == 1,
        final(u)@.languages_total == total,
        final(u)@.stage == old(s)@.stage,
        final(u)@.since == old(s)@.since,
        final(u)@.embed_done == old(s)@.embed_done,
        final(u)@.embed_total == old(s)@.embed_total,
        final(u)@.semantic_done == old(s)@.semantic_done,
        w1 is Some <==> old(s)@.progress_file is Some,
        w3 is Some <==> old(s)@.progress_file is Some,
{
}

/// Embeddings, and semantic passes, are counted anew once it is known how many
/// there are, each on its own.
pub proof fn embeddings_and_passes_are_counted_anew(
    s: &mut IndexingStatus,
    t: &mut IndexingStatus,
    u: &mut IndexingStatus,
    v: &mut IndexingStatus,
    x: &mut IndexingStatus,
    total: u64,
    count: u64,
    languages_total: u32,
    language: &str,
    at: Moment,
    w: Option<(String, ProgressSnapshot)>,
    w2: Option<(String, ProgressSnapshot)>,
    w3: Option<(String, ProgressSnapshot)>,
    w4: Option<(String, ProgressSnapshot)>,
    w5: Option<(String, ProgressSnapshot)>,
)
    requires
        call_ensures(IndexingStatus::set_embed_total, (s, total, at), w),
        *t == *final(s),
        call_ensures(IndexingStatus::add_embed_done, (t, count, at), w2),
        *u == *final(t),
        call_ensures(IndexingStatus::start_semantic_progress, (u, languages_total, at), w3),
        *v == *final(u),
        call_ensures(IndexingStatus::mark_semantic_language_started, (v, language, at), w4),
        *x == *final(v),
        call_ensures(IndexingStatus::mark_semantic_language_done, (x, at), w5),
    ensures
        final(s)@.embed_done == 0 && final(s)@.embed_total == total,
        final(t)@.embed_done == count && final(t)@.embed_total == total,
        final(u)@.semantic_done == 0 && final(u)@.semantic_total == languages_total
            && final(u)@.semantic_language is None,
        final(v)@.semantic_language == Some(language@),
        final(x)@.semantic_done == 1 && final(x)@.semantic_total == languages_total
            && final(x)@.semantic_language is None,
        final(x)@.embed_done == count && final(x)@.embed_total == total,
        final(x)@.items == old(s)@.items,
        final(x)@.languages_done == old(s)@.languages_done,
        final(x)@.stage == old(s)@.stage,
{
}

/// A wait ends well exactly where the phase meets the need, in a failure where
/// the build failed, and in a timeout where the time is up before that; until
/// one of these holds it goes on, for no longer than the time that is left.
pub proof fn a_wait_ends_with_the_phase(
    s: &IndexingStatus,
    need: Need,
    deadline: Option<Duration>,
    now: Duration,
    r: WaitStep,
)
    requires
        call_ensures(IndexingStatus::wait_for, (s, need, deadline, now, false), r),
    ensures
        r == WaitStep::Done(WaitOutcome::Satisfied) <==> !(s@.stage is Failed) && need.met_by(s@.stage),
        r is Done && r->0 is Failed <==> s@.stage is Failed,
        r == WaitStep::Done(WaitOutcome::TimedOut) <==> !(s@.stage is Failed) && !need.met_by(s@.stage)
            && deadline is Some && deadline->0 <= now,
        r matches WaitStep::Wait { at_most } ==> (match at_most {
            Some(span) => deadline is Some && now + span == deadline->0 && span > 0,
            None => deadline is None,
        }),
{
}

// ---------------------------------------------------------------------------
// Is anyone there
// ---------------------------------------------------------------------------
/// A client that comes and goes leaves as many as there were; while it is there
/// the core is not idle, and after that it is idle only since it went.
pub proof fn a_client_that_went_is_not_counted(
    c: &mut CoreActivity,
    d: &mut CoreActivity,
    now: Duration,
    later: Duration,
    then: Duration,
    timeout: Option<Duration>,
    guard: ConnectionGuard,
    during: Option<Duration>,
    after: Option<Duration>,
)
    requires
        c.live_connections < usize::MAX,
        call_ensures(CoreActivity::connection_opened, (c, now), guard),
        call_ensures(CoreActivity::idle_beyond, (&*final(c), timeout, then), during),
        *d == *final(c),
        call_ensures(CoreActivity::connection_closed, (d, guard, later), ()),
        call_ensures(CoreActivity::idle_beyond, (&*final(d), timeout, then), after),
    ensures
        final(c).live_connections == old(c).live_connections + 1,
        during is None,
        final(d).live_connections == old(c).live_connections,
        after matches Some(span) ==> old(c).live_connections == 0 && timeout is Some && span >= timeout->0
            && (later <= then ==> span == then - later),
{
}

/// A daemon is an orphan only where its root, or its executable, is certainly
/// gone; what cannot be told is not gone.
pub proof fn what_cannot_be_told_is_not_gone(
    root: &str,
    looked: Looked,
    exe: Option<(String, Looked)>,
    r: Option<Orphaned>,
)
    requires
        call_ensures(orphan_check, (root, looked, exe), r),
    ensures
        r is None <==> !(looked is NotFound) && (exe is None || !((exe->0).1 is NotFound)),
        r matches Some(Orphaned::ProjectRootGone(path)) ==> looked is NotFound && path@ == root@,
        r matches Some(Orphaned::ExecutableGone(path)) ==> !(looked is NotFound) && path == (exe->0).0,
        looked is NotFound ==> r is Some && r->0 is ProjectRootGone,
{
}

// ---------------------------------------------------------------------------
// Locks
// ---------------------------------------------------------------------------
/// A lock that is free is had at once; one that is held is tried again for
/// three tenths of a second and is busy after that; one that cannot be tried is
/// an error. Whoever only looks holds that it is held exactly where it would
/// have had to wait.
pub proof fn a_lock_is_tried_for_a_while(
    tried: TryLock,
    waited: Duration,
    step: LockStep,
    held: Result<bool, String>,
    unopenable: Result<bool, String>,
)
    requires
        call_ensures(acquire_singleton_lock, (tried, waited), step),
        call_ensures(daemon_lock_is_held, (LockProbe::Tried(tried),), held),
        call_ensures(daemon_lock_is_held, (LockProbe::Unopenable,), unopenable),
    ensures
        step is Acquired <==> tried is Taken,
        step is Busy <==> tried is WouldBlock && waited >= 300_000_000,
        step is RetryAfter <==> tried is WouldBlock && waited < 300_000_000,
        step is Fail <==> tried is Failed,
        held == Ok::<bool, String>(true) <==> tried is WouldBlock,
        held == Ok::<bool, String>(false) <==> tried is Taken,
        unopenable == Ok::<bool, String>(false),
{
}

/// A daemon that stands down leaves in good order, unless whoever holds the
/// lock is wedged.
pub proof fn only_a_wedged_holder_is_an_error(
    lock: DaemonLock,
    root: &str,
    r: Result<String, String>,
)
    requires
        call_ensures(stand_down, (lock, root), r),
    ensures
        r is Err <==> lock is Wedged,
{
}

// ---------------------------------------------------------------------------
// What was written
// ---------------------------------------------------------------------------
/// What one daemon records of itself, the next one reads: its pid, and that it
/// serves.
pub proof fn a_pid_that_was_recorded_is_read(
    path: &str,
    state_dir: &str,
    pid: u32,
    own_pid: u32,
    style: PathStyle,
    text: &str,
    owner: &str,
    w: StateFileWrite,
    served: StateFileWrite,
    r: Option<u32>,
    strict: Result<Option<u32>, ReadFailure>,
    serving: Option<u32>,
)
    requires
        call_ensures(write_pid_file, (path, pid, own_pid, style), w),
        text@ == w.contents@,
        call_ensures(read_pid_file, (Ok(text),), r),
        call_ensures(read_pid_file_result, (Ok(text),), strict),
        call_ensures(record_serving_owner, (state_dir, own_pid, style), served),
        owner@ == served.contents@,
        call_ensures(serving_owner_in, (Some(owner),), serving),
    ensures
        w.path@ == path@,
        r == Some(pid),
        strict == Ok::<Option<u32>, ReadFailure>(Some(pid)),
        serving == Some(own_pid),
{
    a_written_pid_reads_back(pid);
    a_written_pid_reads_back(own_pid);
}

/// A pid file that is not there says nothing; one that cannot be read is an
/// error to whoever has to know.
pub proof fn a_missing_pid_file_says_nothing(
    failure: ReadFailure,
    r: Option<u32>,
    strict: Result<Option<u32>, ReadFailure>,
)
    requires
        call_ensures(read_pid_file, (Err(failure),), r),
        call_ensures(read_pid_file_result, (Err(failure),), strict),
    ensures
        r is None,
        strict == Ok::<Option<u32>, ReadFailure>(None) <==> failure is NotFound,
        strict is Err ==> strict->Err_0 == failure,
{
}

/// What a daemon publishes of its build, another one reads.
pub proof fn a_stamp_that_was_published_is_read(
    stamp: &BuildStamp,
    published: String,
    body: &str,
    r: Option<BuildStamp>,
)
    requires
        fits_on_a_line(stamp.exe@),
        fits_on_a_line(stamp.plugin@),
        call_ensures(crate::build_stamp::write, (stamp,), published),
        body@ == published@,
        call_ensures(crate::build_stamp::read, (Some(body),), r),
    ensures
        r is Some,
        r->0.exe@ == stamp.exe@,
        r->0.exe_mtime_millis == stamp.exe_mtime_millis,
        r->0.plugin@ == stamp.plugin@,
{
    a_published_stamp_reads_back(*stamp);
}

// ---------------------------------------------------------------------------
// Processes
// ---------------------------------------------------------------------------
/// A process that is seen to have exited has; one that is not is looked at
/// again until the time for that is up.
pub proof fn a_process_is_looked_at_for_a_while(
    seen: bool,
    waited: Duration,
    grace: Duration,
    crash: Poll,
    end: Poll,
)
    requires
        call_ensures(process_has_exited, (seen, waited), crash),
        call_ensures(end_poll, (seen, waited, grace), end),
    ensures
        crash is Exited <==> seen,
        end is Exited <==> seen,
        crash is StillRunning <==> !seen && waited >= 500_000_000,
        end is StillRunning <==> !seen && waited >= grace,
        crash matches Poll::LookAgainAfter { interval } ==> 0 < interval < 500_000_000,
        end matches Poll::LookAgainAfter { interval } ==> 0 < interval,
{
}

/// A delivery that was not committed is told as timed out where it, or what was
/// sent in its place, did time out, and as failed in every other case.
pub proof fn a_delivery_is_told_as_what_it_came_to(delivered: Delivered, r: Applied)
    requires
        call_ensures(Delivered::applied, (delivered,), r),
    ensures
        r == Applied::Committed <==> delivered == Delivered::Committed,
        r == Applied::TimedOut <==> delivered == Delivered::TimedOut || delivered == Delivered::ReplayTimedOut,
{
}

/// Two requests that follow each other have different ids.
pub proof fn each_request_has_an_id_of_its_own(
    p: &mut PluginProcess,
    q: &mut PluginProcess,
    first: i64,
    second: i64,
)
    requires
        call_ensures(PluginProcess::next_request_id, (p,), first),
        *q == *final(p),
        call_ensures(PluginProcess::next_request_id, (q,), second),
    ensures
        first != second,
        first < i64::MAX ==> second == first + 1,
        final(q)@ == old(p)@,
{
}

/// A plugin is refused exactly where it says it is for another language than
/// its manifest does. A script is run by the interpreter, with the script as
/// its one argument, and anything else by itself, with none.
pub proof fn a_plugin_says_which_language_it_is_for(
    manifest: &PluginManifest,
    reported: &str,
    entry: &str,
    style: PathStyle,
    shaken: Result<(), String>,
    launch: (String, Vec<String>),
)
    requires
        call_ensures(check_handshake, (manifest, reported), shaken),
        call_ensures(launch_command_for, (entry, style), launch),
    ensures
        shaken is Ok <==> reported@ == manifest.language@,
        extension(entry@, style) is None ==> launch.0@ == entry@,
        launch.0@ != entry@ ==> launch.0@ == "node"@ && views(launch.1@) == seq![entry@],
        launch.1@.len() > 0 ==> launch.0@ == "node"@ && views(launch.1@) == seq![entry@],
{
}

/// An index counts as complete exactly where it is there and says so; a count
/// of files that could not be made, or makes no sense, is none; a walk is told
/// to be over as many languages as there are.
pub proof fn what_is_not_known_does_not_count(
    present: bool,
    recorded: Option<bool>,
    complete: bool,
    counted: Option<i64>,
    files: usize,
    total: usize,
    told: u32,
)
    requires
        call_ensures(completed_index_in, (present, recorded), complete),
        call_ensures(indexed_file_count, (counted,), files),
        call_ensures(progress_total, (total,), told),
    ensures
        complete <==> present && recorded is Some && recorded->0,
        counted is None || counted->0 <= 0 ==> files == 0,
        counted is Some && 0 <= counted->0 <= usize::MAX ==> files == counted->0,
        total <= u32::MAX ==> told == total,
{
}

/// A finished walk is held open for as long as a file that is named is there,
/// whatever time is given; else for that time; and else not at all.
pub proof fn a_named_file_holds_a_walk_open(
    file: &str,
    delay: Option<&str>,
    named: Hold,
    unnamed: Hold,
    none: Hold,
)
    requires
        file@.len() > 0,
        call_ensures(hold_the_walk_open, (Some(file), delay), named),
        call_ensures(hold_the_walk_open, (None, delay), unnamed),
        call_ensures(hold_the_walk_open, (None, None), none),
    ensures
        named matches Hold::WhileFileExists { path } && path@ == file@,
        !(unnamed is WhileFileExists),
        unnamed is ForMillis ==> delay is Some,
        none is Nothing,
{
}

} // verus!
