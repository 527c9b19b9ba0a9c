//! What holds between what is carried out and what is planned: each machine
//! hears what was reported and asks for what its plan says, and goes nowhere
//! else.

use vstd::prelude::*;

use crate::activation::{ActivationCtx, BuildAct, BuildAsk, BuildNews, BuildReport, BuildStep, next_build};
use crate::bulk_index::{
    BulkIndexSummary, BulkWalk, LanguageAct, LanguageAsk, LanguageNews, LanguageReport, LanguageWalk, WalkAct,
    WalkAsk, WalkNews, WalkReport, next_language, next_walk,
};
use crate::delivery::{
    Act, Ask, Delivery, FreshAct, FreshNews, FreshStep, News, PluginProcess, next_fresh, next_step,
};
use crate::lifecycle::{Duty, Heard, IdleTimeouts, Monitor, Task, Watch, next_watch};
use crate::manifest::{PluginManifest, languages};
use crate::order::sorted;
use crate::semantic::{Outcome, PassAct, PassNews, PassRun, Passed, Report, Wish, next_pass, turned};
use crate::startup::{Owed, StartAct, StartAsk, StartNews, StartReport, Startup, next_start, owed};
use crate::text::{opt_text, views};

verus! {

// ---------------------------------------------------------------------------
// Building an index
// ---------------------------------------------------------------------------
/// A build hears what was reported, asks for what comes next and stands where
/// that leads; what it does not wait for changes nothing.
pub proof fn a_build_goes_by_its_plan(c: &mut ActivationCtx, news: BuildNews, r: Option<BuildAct>)
    requires
        call_ensures(ActivationCtx::hear, (c, news), r),
    ensures
        r is Some <==> next_build(*old(c), news@) is Some,
        r matches Some(act) ==> next_build(*old(c), news@) == Some((*final(c), act@)),
        r is None ==> *final(c) == *old(c),
{
}

/// What is reported to a build, and what it asks for, is what it says.
pub proof fn a_build_says_what_it_means(news: BuildNews, act: BuildAct)
    ensures
        news is Triggered <==> news@ is Triggered,
        news is Done <==> news@ is Done,
        news matches BuildNews::Failed { error } ==> news@ == BuildReport::Failed(error@),
        news matches BuildNews::Panicked { what } ==> news@ == BuildReport::Panicked(what@),
        act matches BuildAct::SetPhase { phase } ==> act@ == BuildAsk::SetPhase(phase),
        act is RegisterWatcher <==> act@ is RegisterWatcher,
        act is BulkIndex <==> act@ is BulkIndex,
        act is RecordWalk <==> act@ is RecordWalk,
        act is NoteActivity <==> act@ is NoteActivity,
        act matches BuildAct::SemanticPass { context } ==> act@ == BuildAsk::SemanticPass(context@),
        act is StartConsumer <==> act@ is StartConsumer,
        act is Backfill <==> act@ is Backfill,
        act matches BuildAct::Fail { message } ==> act@ == BuildAsk::Fail(message@),
        act is Finish <==> act@ is Finish,
{
}

/// A project begins with what it owes, and waits to be asked for.
pub proof fn a_project_waits_to_be_asked_for(walk: bool, retry: bool, watcher: bool, c: ActivationCtx)
    requires
        call_ensures(ActivationCtx::new, (walk, retry, watcher), c),
    ensures
        c.needs_walk == walk,
        c.needs_semantic_pass_retry == retry,
        c.watcher == watcher,
        c.step == BuildStep::Idle,
{
}

// ---------------------------------------------------------------------------
// Starting a daemon
// ---------------------------------------------------------------------------
/// A start hears what was reported, asks for what comes next and stands where
/// that leads; what it does not wait for changes nothing.
pub proof fn a_start_goes_by_its_plan(s: &mut Startup, news: StartNews, r: Option<StartAct>)
    requires
        call_ensures(Startup::hear, (s, news), r),
    ensures
        r is Some <==> next_start(old(s)@, news@) is Some,
        r matches Some(act) ==> next_start(old(s)@, news@) == Some((final(s)@, act@)),
        r is None ==> final(s)@ == old(s)@,
{
}

/// What is reported to a start, and what it asks for, is what it says.
pub proof fn a_start_says_what_it_means(news: StartNews, act: StartAct, s: Startup)
    ensures
        news is LockTaken <==> news@ is LockTaken,
        news is LockBusy <==> news@ is LockBusy,
        news is Done <==> news@ is Done,
        news matches StartNews::Detected { mode } ==> news@ == StartReport::Detected(mode),
        news matches StartNews::IndexOpened { bulk_index_completed, semantic_pass_completed } ==> news@
            == StartReport::IndexOpened(bulk_index_completed, semantic_pass_completed),
        news matches StartNews::Failed { error } ==> news@ == StartReport::Failed(error@),
        act is TakeLock <==> act@ is TakeLock,
        act is StandDown <==> act@ is StandDown,
        act is PublishStamp <==> act@ is PublishStamp,
        act is Detect <==> act@ is Detect,
        act is Discover <==> act@ is Discover,
        act is OpenIndex <==> act@ is OpenIndex,
        act is Canonicalize <==> act@ is Canonicalize,
        act matches StartAct::Bind { clear_markers } ==> act@ == (StartAsk::Bind { clear_markers }),
        act is WritePid <==> act@ is WritePid,
        act matches StartAct::PublishPhase { front, unindexed } ==> act@ == (StartAsk::PublishPhase {
            front,
            unindexed,
        }),
        act is RecordOwner <==> act@ is RecordOwner,
        act is ReadConfig <==> act@ is ReadConfig,
        act is Serve <==> act@ is Serve,
        act is StartWatcher <==> act@ is StartWatcher,
        act is StartConsumer <==> act@ is StartConsumer,
        act matches StartAct::StartActivation { owed, watcher } ==> act@ == (StartAsk::StartActivation {
            owed,
            watcher,
        }),
        act is Supervise <==> act@ is Supervise,
        act is ReleaseLock <==> act@ is ReleaseLock,
        act matches StartAct::Exit { error } ==> act@ == StartAsk::Exit(opt_text(error)),
        s@.front == s.front && s@.owed == s.owed && s@.step == s.step && s@.error == opt_text(s.error),
{
}

/// A start begins with the lock, and with nothing known.
pub proof fn a_start_begins_with_the_lock(r: (Startup, StartAct))
    requires
        call_ensures(Startup::run, (), r),
    ensures
        r.0@ == crate::startup_laws::beginning(),
        r.1 is TakeLock,
{
}

/// The walk is owed where it is not complete, and the semantic pass where the
/// walk is and the pass is not: never both.
pub proof fn a_pass_is_owed_only_after_the_walk(walked: bool, passed: bool, r: Owed)
    requires
        call_ensures(owed, (walked, passed), r),
    ensures
        r.needs_bulk_index <==> !walked,
        r.needs_semantic_pass_retry <==> walked && !passed,
        !(r.needs_bulk_index && r.needs_semantic_pass_retry),
{
}

// ---------------------------------------------------------------------------
// Semantic passes
// ---------------------------------------------------------------------------
/// A run hears what was reported, asks for what comes next and stands where
/// that leads; what it does not wait for changes nothing.
pub proof fn a_run_goes_by_its_plan(run: &mut PassRun, news: PassNews, r: Option<PassAct>)
    requires
        call_ensures(PassRun::hear, (run, news), r),
    ensures
        r is Some <==> next_pass(old(run)@, news@) is Some,
        r matches Some(act) ==> next_pass(old(run)@, news@) == Some((final(run)@, act@)),
        r is None ==> final(run)@ == old(run)@,
{
}

/// A run begins with the first language that owes a pass, with plugins that live
/// on or with plugins of one pass.
pub proof fn a_run_begins_with_the_first_language(
    owed: Vec<String>,
    lives_on: (PassRun, PassAct),
    of_one_pass: (PassRun, PassAct),
)
    requires
        call_ensures(PassRun::run_with_registry, (owed,), lives_on),
        call_ensures(PassRun::run_once, (owed,), of_one_pass),
    ensures
        (lives_on.0@, lives_on.1@) == turned(crate::semantic_laws::beginning(false, views(owed@))),
        (of_one_pass.0@, of_one_pass.1@) == turned(crate::semantic_laws::beginning(true, views(owed@))),
        owed@.len() > 0 ==> lives_on.1@ == Wish::Ask(owed@[0]@) && of_one_pass.1@ == Wish::Spawn(owed@[0]@),
        owed@.len() == 0 ==> lives_on.1@ is Reconcile && of_one_pass.1@ is Reconcile,
{
    assert(owed@.len() > 0 ==> views(owed@)[0] == owed@[0]@);
}

/// What is reported to a run, and what it asks for, is what it says.
pub proof fn a_run_says_what_it_means(passed: Passed, news: PassNews, act: PassAct)
    ensures
        passed is Ran <==> passed@ is Ran,
        passed is NotRun <==> passed@ is NotRun,
        passed matches Passed::Failed { reason } ==> passed@ == Outcome::Failed(reason@),
        news matches PassNews::Spawned { error } ==> news@ == Report::Spawned(opt_text(error)),
        news matches PassNews::Asked { passed: p } ==> news@ == Report::Asked(p@),
        news is ShutDown <==> news@ is ShutDown,
        news matches PassNews::Recorded { error } ==> news@ == Report::Recorded(opt_text(error)),
        act matches PassAct::Spawn { language } ==> act@ == Wish::Spawn(language@),
        act matches PassAct::Ask { language } ==> act@ == Wish::Ask(language@),
        act matches PassAct::Shutdown { language } ==> act@ == Wish::Shutdown(language@),
        act matches PassAct::RecordCompletion { language } ==> act@ == Wish::RecordCompletion(language@),
        act matches PassAct::RecordReason { language, reason } ==> act@ == Wish::RecordReason(
            language@,
            reason@,
        ),
        act is Reconcile <==> act@ is Reconcile,
        act is Finish <==> act@ is Finish,
{
}

// ---------------------------------------------------------------------------
// Bulk indexes
// ---------------------------------------------------------------------------
/// The walk of a language, and that over all of them, hears what was reported,
/// asks for what comes next and stands where that leads; what it does not wait
/// for changes nothing.
pub proof fn a_walk_goes_by_its_plan(
    one: &mut LanguageWalk,
    heard: LanguageNews,
    r: Option<LanguageAct>,
    all: &mut BulkWalk,
    news: WalkNews,
    q: Option<WalkAct>,
)
    requires
        call_ensures(LanguageWalk::hear, (one, heard), r),
        call_ensures(BulkWalk::hear, (all, news), q),
    ensures
        ({
            let next = next_language(old(one).language@, old(one).command@, old(one).step@, heard@);
            &&& r is Some <==> next is Some
            &&& r matches Some(act) ==> next == Some((final(one).step@, act@))
            &&& r is None ==> final(one).step@ == old(one).step@
            &&& final(one).language@ == old(one).language@
        }),
        q is Some <==> next_walk(old(all)@, news@) is Some,
        q matches Some(act) ==> next_walk(old(all)@, news@) == Some((final(all)@, act@)),
        q is None ==> final(all)@ == old(all)@,
{
}

/// A walk is over the languages of the plugins that were found, in their order,
/// and begins with nothing counted. The walk of a language whose plugin was
/// never built is over before it began, and says so.
pub proof fn a_walk_begins_with_nothing_counted(
    manifests: &Vec<PluginManifest>,
    all: (BulkWalk, WalkAct),
    manifest: &PluginManifest,
    hint: Option<&str>,
    one: (LanguageWalk, LanguageAct),
)
    requires
        call_ensures(BulkWalk::run_with_progress, (manifests,), all),
        call_ensures(LanguageWalk::walk_one_language, (manifest, hint), one),
    ensures
        all.0@.languages == sorted(languages(manifests@)),
        all.0@.at == 0,
        all.0@.summary == (BulkIndexSummary {
            nodes: 0,
            edges: 0,
            skipped_lines: 0,
            linked_imports: 0,
            linked_symbols: 0,
        }),
        hint is None ==> one.1 is Spawn && one.0.step@ is Spawning,
        hint is Some ==> one.1 is Finish && one.1->error is Some && one.0.step@ is Over,
        one.0.language@ == manifest.language@,
{
}

/// What is reported to a walk, and what it asks for, is what it says.
pub proof fn a_walk_says_what_it_means(
    heard: LanguageNews,
    act: LanguageAct,
    news: WalkNews,
    asked: WalkAct,
)
    ensures
        heard matches LanguageNews::Spawned { error } ==> heard@ == LanguageReport::Spawned(opt_text(error)),
        heard matches LanguageNews::Ingested { error } ==> heard@ == LanguageReport::Ingested(
            opt_text(error),
        ),
        heard is Killed <==> heard@ is Killed,
        heard matches LanguageNews::Exited { failure } ==> heard@ == LanguageReport::Exited(
            opt_text(failure),
        ),
        heard matches LanguageNews::WaitFailed { error } ==> heard@ == LanguageReport::WaitFailed(error@),
        heard matches LanguageNews::Recorded { error } ==> heard@ == LanguageReport::Recorded(
            opt_text(error),
        ),
        act is Spawn <==> act@ is Spawn,
        act is Ingest <==> act@ is Ingest,
        act is Kill <==> act@ is Kill,
        act is Wait <==> act@ is Wait,
        act is Record <==> act@ is Record,
        act matches LanguageAct::Finish { error } ==> act@ == LanguageAsk::Finish(opt_text(error)),
        news matches WalkNews::Walked { summary } ==> news@ == WalkReport::Walked(summary),
        news matches WalkNews::Linked { imports, symbols } ==> news@ == WalkReport::Linked(imports, symbols),
        news matches WalkNews::Failed { error } ==> news@ == WalkReport::Failed(error@),
        news is BaselinesDone <==> news@ is BaselinesDone,
        asked matches WalkAct::Walk { language } ==> asked@ == WalkAsk::Walk(language@),
        asked is Link <==> asked@ is Link,
        asked is RecordBaselines <==> asked@ is RecordBaselines,
        asked matches WalkAct::Finish { result } ==> (match result {
            Ok(summary) => asked@ == WalkAsk::Done(summary),
            Err(error) => asked@ == WalkAsk::Failed(error@),
        }),
{
}

// ---------------------------------------------------------------------------
// The watch over a daemon
// ---------------------------------------------------------------------------
/// The watch begins with a tick, as long as the timers ask for, and then goes
/// by its plan with the same tick.
pub proof fn a_watch_goes_by_its_plan(
    timeouts: IdleTimeouts,
    begun: (Monitor, Duty),
    m: &mut Monitor,
    heard: Heard,
    r: Option<Duty>,
)
    requires
        call_ensures(Monitor::supervise, (timeouts,), begun),
        call_ensures(Monitor::hear, (m, heard), r),
    ensures
        begun.0.at == Watch::AcceptLoop,
        begun.0.tick == timeouts.pace(),
        begun.1@ == Task::AwaitTick(timeouts.pace()),
        final(m).tick == old(m).tick,
        r is Some <==> next_watch(old(m).at, heard, old(m).tick) is Some,
        r matches Some(duty) ==> next_watch(old(m).at, heard, old(m).tick) == Some((final(m).at, duty@)),
        r is None ==> final(m).at == old(m).at,
{
}

/// What the watch asks for is what it says.
pub proof fn a_watch_says_what_it_means(duty: Duty)
    ensures
        duty matches Duty::AwaitTick { tick } ==> duty@ == Task::AwaitTick(tick),
        duty is CheckOrphan <==> duty@ is CheckOrphan,
        duty is SleepIdlePlugins <==> duty@ is SleepIdlePlugins,
        duty is CheckPluginMemory <==> duty@ is CheckPluginMemory,
        duty is CheckCoreIdle <==> duty@ is CheckCoreIdle,
        duty matches Duty::StopPlugins { reason } ==> duty@ == Task::StopPlugins(reason@),
        duty is ReleaseFiles <==> duty@ is ReleaseFiles,
        duty matches Duty::Exit { error } ==> duty@ == Task::Exit(opt_text(error)),
{
}

// ---------------------------------------------------------------------------
// Deliveries
// ---------------------------------------------------------------------------
/// A change is put behind what is pending, unless it is, and sent; then the
/// delivery goes by its plan, of the same file. What it does not wait for
/// changes nothing.
pub proof fn a_delivery_goes_by_its_plan(
    p: &mut PluginProcess,
    file: String,
    begun: (Delivery, Act),
    q: &mut PluginProcess,
    delivery: &mut Delivery,
    news: News,
    r: Option<Act>,
)
    requires
        call_ensures(PluginProcess::apply_file_change, (p, file), begun),
        call_ensures(PluginProcess::deliver, (q, delivery, news), r),
    ensures
        final(p)@.pending.contains(file@),
        old(p)@.pending.is_prefix_of(final(p)@.pending),
        final(p)@.pid == old(p)@.pid,
        begun.0.file@ == file@,
        begun.0.step@ is Sending,
        begun.1@ == Ask::Send(file@),
        final(delivery).file@ == old(delivery).file@,
        ({
            let next = next_step(old(q)@, old(delivery).file@, old(delivery).step@, news);
            &&& r is Some <==> next is Some
            &&& r matches Some(act) ==> next == Some((final(q)@, final(delivery).step@, act@))
            &&& r is None ==> final(q)@ == old(q)@ && final(delivery).step@ == old(delivery).step@
        }),
        final(q).timeouts == old(q).timeouts,
        final(q).pid_file == old(q).pid_file,
        final(q).next_id == old(q).next_id,
{
    crate::lifecycle::a_repeated_change_is_queued_once(p@.pending, file@);
}

/// A query about a file that is current asks for nothing; one about a stale
/// file asks for one reindex and then goes by its plan.
pub proof fn a_query_goes_by_its_plan(
    p: &PluginProcess,
    stale: bool,
    begun: (FreshStep, FreshAct),
    q: &mut PluginProcess,
    step: &mut FreshStep,
    news: FreshNews,
    r: Option<FreshAct>,
)
    requires
        call_ensures(PluginProcess::ensure_fresh, (p, stale), begun),
        call_ensures(PluginProcess::freshen, (q, step, news), r),
    ensures
        begun.1 == FreshAct::Reindex <==> stale,
        begun.0 == FreshStep::Reindexing <==> stale,
        !stale ==> begun.1 is Finish,
        ({
            let next = next_fresh(old(q)@, *old(step), news);
            &&& r is Some <==> next is Some
            &&& r matches Some(act) ==> next == Some((final(q)@, *final(step), act))
            &&& r is None ==> final(q)@ == old(q)@ && *final(step) == *old(step)
        }),
        final(q).timeouts == old(q).timeouts,
        final(q).pid_file == old(q).pid_file,
        final(q).next_id == old(q).next_id,
{
}

/// What a delivery asks for is what it says.
pub proof fn a_delivery_says_what_it_means(act: Act)
    ensures
        act matches Act::Send { file } ==> act@ == Ask::Send(file@),
        act is CheckExited <==> act@ is CheckExited,
        act is Relaunch <==> act@ is Relaunch,
        act matches Act::Finish { outcome } ==> act@ == Ask::Finish(outcome),
{
}

} // verus!
