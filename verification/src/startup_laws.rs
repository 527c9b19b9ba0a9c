//! What holds of a whole start: what is asked for from the lock on, whatever is
//! reported.

use vstd::prelude::*;

use crate::candidates::{Mode, SingleReason};
use crate::startup::{Owed, StartAsk, StartReport, StartStep, Starting, next_start};

verus! {

/// A daemon that is about to take its lock.
pub open spec fn beginning() -> Starting {
    Starting {
        front: false,
        owed: Owed { needs_bulk_index: false, needs_semantic_pass_retry: false },
        step: StartStep::Locking,
        error: None,
    }
}

/// What is asked for, report after report.
pub open spec fn start_asks(s: Starting, reports: Seq<StartReport>) -> Seq<StartAsk>
    decreases reports.len(),
{
    if reports.len() == 0 {
        seq![]
    } else {
        match next_start(s, reports[0]) {
            Some((t, ask)) => seq![ask] + start_asks(t, reports.drop_first()),
            None => start_asks(s, reports.drop_first()),
        }
    }
}

/// Where starting stands after these reports.
pub open spec fn start_after(s: Starting, reports: Seq<StartReport>) -> Starting
    decreases reports.len(),
{
    if reports.len() == 0 {
        s
    } else {
        match next_start(s, reports[0]) {
            Some((t, _)) => start_after(t, reports.drop_first()),
            None => start_after(s, reports.drop_first()),
        }
    }
}

/// What was asked for last. The lock is asked for before anything is reported.
pub open spec fn last_ask(before: StartAsk, asks: Seq<StartAsk>) -> StartAsk {
    if asks.len() == 0 {
        before
    } else {
        asks.last()
    }
}

/// What was asked for before the ask at `i`.
pub open spec fn ask_before(before: StartAsk, asks: Seq<StartAsk>, i: int) -> StartAsk {
    if i == 0 {
        before
    } else {
        asks[i - 1]
    }
}

/// Whether a daemon that waits at this step has asked for this last.
pub open spec fn waits_for(step: StartStep, last: StartAsk) -> bool {
    match step {
        StartStep::Locking => last is TakeLock,
        StartStep::StandingDown => last is StandDown,
        StartStep::PublishingStamp => last is PublishStamp,
        StartStep::Detecting => last is Detect,
        StartStep::Discovering => last is Discover,
        StartStep::OpeningIndex => last is OpenIndex,
        StartStep::Canonicalizing => last is Canonicalize,
        StartStep::Binding => last is Bind,
        StartStep::WritingPid => last is WritePid,
        StartStep::PublishingPhase => last is PublishPhase,
        StartStep::RecordingOwner => last is RecordOwner,
        StartStep::ReadingConfig => last is ReadConfig,
        StartStep::Serving => last is Serve,
        StartStep::StartingWatcher => last is StartWatcher,
        StartStep::StartingConsumer => last is StartConsumer,
        StartStep::StartingActivation => last is StartActivation,
        StartStep::Supervising => last is Supervise,
        StartStep::ReleasingLock => last is ReleaseLock,
        StartStep::Over => last is Exit,
    }
}

/// What an ask may come after: what was asked for right before it.
pub open spec fn may_follow(ask: StartAsk, before: StartAsk) -> bool {
    match ask {
        StartAsk::TakeLock => false,
        StartAsk::StandDown => before is TakeLock,
        StartAsk::PublishStamp => before is TakeLock,
        StartAsk::Detect => before is PublishStamp,
        StartAsk::Discover => before is Detect,
        StartAsk::OpenIndex => before is Discover,
        StartAsk::Canonicalize => before is OpenIndex || before is Detect,
        StartAsk::Bind { .. } => before is Canonicalize,
        StartAsk::WritePid => before is Bind,
        StartAsk::PublishPhase { .. } => before is WritePid,
        StartAsk::RecordOwner => before is PublishPhase,
        StartAsk::ReadConfig => before is RecordOwner,
        StartAsk::Serve => before is ReadConfig || before is RecordOwner,
        StartAsk::StartWatcher => before is Serve,
        StartAsk::StartConsumer => before is StartWatcher,
        StartAsk::StartActivation { .. } => before is Serve || before is StartWatcher || before is StartConsumer,
        StartAsk::Supervise => before is Serve || before is StartActivation,
        StartAsk::ReleaseLock => before is Supervise,
        StartAsk::Exit(None) => before is StandDown || before is ReleaseLock,
        // What a daemon can do without ends nothing, and one that was
        // supervised lets go of its lock first.
        StartAsk::Exit(Some(_)) => !(before is PublishStamp || before is Detect || before is WritePid
            || before is PublishPhase || before is RecordOwner || before is Supervise || before is Exit),
    }
}

/// What an index that is walked or not, and passed or not, leaves to do.
pub open spec fn leaves(owed: Owed, walked: bool, passed: bool) -> bool {
    &&& owed.needs_bulk_index <==> !walked
    &&& owed.needs_semantic_pass_retry <==> walked && !passed
}

/// Whether an index was opened, among these reports, that leaves this to do.
pub open spec fn is_left_by(owed: Owed, reports: Seq<StartReport>) -> bool {
    exists|k: int|
        0 <= k < reports.len() && #[trigger] reports[k] is IndexOpened && leaves(
            owed,
            reports[k]->IndexOpened_0,
            reports[k]->IndexOpened_1,
        )
}

/// What holds between two reports: what was asked for last, what is owed and
/// to what.
spec fn is_under_way(s: Starting, last: StartAsk, heard: Seq<StartReport>) -> bool {
    &&& waits_for(s.step, last)
    &&& last is ReadConfig || last is StartWatcher || last is StartConsumer || last is StartActivation ==> !s.front
    &&& last is Canonicalize || last is Bind || last is WritePid || last is PublishPhase || last is RecordOwner
        || last is Serve ==> s.front || is_left_by(s.owed, heard)
    &&& last is ReadConfig || last is StartWatcher || last is StartConsumer || last is StartActivation
        ==> is_left_by(s.owed, heard)
    &&& last is StartWatcher || last is StartConsumer ==> !s.owed.needs_bulk_index
    &&& last is StartConsumer ==> !s.owed.needs_semantic_pass_retry
    &&& last is TakeLock || last is PublishStamp || last is Detect || last is Discover || last is OpenIndex
        || s.front ==> s.owed == beginning().owed
    &&& last is TakeLock || last is PublishStamp || last is Detect || last is Discover || last is OpenIndex
        ==> !s.front
    &&& !(last is ReleaseLock || last is Exit) ==> s.error is None
}

proof fn lemma_left(owed: Owed, heard: Seq<StartReport>, report: StartReport)
    ensures
        is_left_by(owed, heard) ==> is_left_by(owed, heard.push(report)),
{
    if is_left_by(owed, heard) {
        let k = choose|k: int|
            0 <= k < heard.len() && #[trigger] heard[k] is IndexOpened && leaves(
                owed,
                heard[k]->IndexOpened_0,
                heard[k]->IndexOpened_1,
            );
        assert(heard.push(report)[k] == heard[k]);
    }
}

proof fn lemma_report(s: Starting, report: StartReport, last: StartAsk, heard: Seq<StartReport>)
    requires
        is_under_way(s, last, heard),
    ensures
        match next_start(s, report) {
            Some((t, ask)) => may_follow(ask, last) && is_under_way(t, ask, heard.push(report)),
            None => is_under_way(s, last, heard.push(report)),
        },
{
    lemma_left(s.owed, heard, report);
    assert(heard.push(report)[heard.len() as int] == report);
}

proof fn lemma_reports(s: Starting, reports: Seq<StartReport>, last: StartAsk, heard: Seq<StartReport>)
    requires
        is_under_way(s, last, heard),
    ensures
        is_under_way(
            start_after(s, reports),
            last_ask(last, start_asks(s, reports)),
            heard + reports,
        ),
        forall|i: int|
            0 <= i < start_asks(s, reports).len() ==> may_follow(
                #[trigger] start_asks(s, reports)[i],
                ask_before(last, start_asks(s, reports), i),
            ),
    decreases reports.len(),
{
    let asks = start_asks(s, reports);
    if reports.len() > 0 {
        lemma_report(s, reports[0], last, heard);
        assert(heard.push(reports[0]) + reports.drop_first() =~= heard + reports);
        match next_start(s, reports[0]) {
            Some((t, ask)) => {
                lemma_reports(t, reports.drop_first(), ask, heard.push(reports[0]));
                let rest = start_asks(t, reports.drop_first());
                assert forall|i: int| 0 <= i < asks.len() implies may_follow(
                    #[trigger] asks[i],
                    ask_before(last, asks, i),
                ) by {
                    if i > 0 {
                        assert(asks[i] == rest[i - 1]);
                        assert(ask_before(last, asks, i) == ask_before(ask, rest, i - 1));
                    }
                }
            },
            None => {
                lemma_reports(s, reports.drop_first(), last, heard.push(reports[0]));
            },
        }
    } else {
        assert(heard + reports =~= heard);
    }
}

proof fn lemma_run(reports: Seq<StartReport>)
    ensures
        is_under_way(
            start_after(beginning(), reports),
            last_ask(StartAsk::TakeLock, start_asks(beginning(), reports)),
            reports,
        ),
        forall|i: int|
            0 <= i < start_asks(beginning(), reports).len() ==> may_follow(
                #[trigger] start_asks(beginning(), reports)[i],
                ask_before(StartAsk::TakeLock, start_asks(beginning(), reports), i),
            ),
{
    lemma_reports(beginning(), reports, StartAsk::TakeLock, seq![]);
    assert(Seq::<StartReport>::empty() + reports =~= reports);
}

/// Whatever is reported, each thing is asked for only right after what it
/// builds on: so nothing is served before something listens, nothing listens
/// before the plugins and the index were found to be in order, and no daemon
/// that served leaves before it let go of its lock.
pub proof fn a_start_asks_in_order(reports: Seq<StartReport>, i: int)
    requires
        0 <= i < start_asks(beginning(), reports).len(),
    ensures
        may_follow(
            start_asks(beginning(), reports)[i],
            ask_before(StartAsk::TakeLock, start_asks(beginning(), reports), i),
        ),
        waits_for(
            start_after(beginning(), reports).step,
            last_ask(StartAsk::TakeLock, start_asks(beginning(), reports)),
        ),
{
    lemma_run(reports);
}

/// What is owed to a project is what its index said when it was opened, and
/// nothing that is reported after that changes it: that is what building is
/// handed, whatever step asks for it. A watcher is handed over with it exactly
/// where a semantic pass is owed.
pub proof fn what_the_index_said_is_what_is_owed(reports: Seq<StartReport>, report: StartReport)
    ensures
        ({
            let s = start_after(beginning(), reports);
            let last = last_ask(StartAsk::TakeLock, start_asks(beginning(), reports));
            next_start(s, report) matches Some((t, ask)) ==> {
                &&& last is OpenIndex && report is IndexOpened ==> leaves(
                    t.owed,
                    report->IndexOpened_0,
                    report->IndexOpened_1,
                )
                &&& !(last is OpenIndex && report is IndexOpened) ==> t.owed == s.owed
                &&& ask matches StartAsk::StartActivation { owed, watcher } ==> {
                    &&& owed == s.owed
                    &&& is_left_by(owed, reports)
                    &&& watcher <==> owed.needs_semantic_pass_retry
                }
            }
        }),
{
    lemma_run(reports);
}

/// Whatever a daemon waits for, building is handed what is owed to the project,
/// and only the opening of an index settles what that is.
pub proof fn building_is_handed_what_is_owed(s: Starting, report: StartReport)
    requires
        next_start(s, report) is Some,
    ensures
        ({
            let (t, ask) = next_start(s, report)->0;
            &&& s.step != StartStep::OpeningIndex ==> t.owed == s.owed
            &&& s.step == StartStep::OpeningIndex ==> match report {
                StartReport::IndexOpened(walked, passed) => leaves(t.owed, walked, passed),
                _ => t.owed == s.owed,
            }
            &&& ask is StartActivation ==> ask->owed == s.owed
            &&& ask is PublishPhase ==> ask->unindexed == s.owed.needs_bulk_index && ask->front == s.front
            &&& ask is Bind ==> ask->clear_markers == !s.front
        }),
{
}

/// A failure ends a start that needs what failed, with that error; where it
/// does not need it, the start goes on as if it were done. An error that ends
/// the supervision is what the daemon exits with, however its lock goes.
pub proof fn failures_are_told_by_what_was_asked(
    reports: Seq<StartReport>,
    why: Seq<char>,
    then: StartReport,
)
    ensures
        ({
            let s = start_after(beginning(), reports);
            let last = last_ask(StartAsk::TakeLock, start_asks(beginning(), reports));
            let failed = next_start(s, StartReport::Failed(why));
            &&& last is TakeLock || last is StandDown || last is Discover || last is OpenIndex
                || last is Canonicalize || last is Bind || last is ReadConfig || last is Serve
                || last is StartWatcher || last is StartConsumer || last is StartActivation ==> failed is Some && (
            failed->0).1 == StartAsk::Exit(Some(why))
            &&& last is PublishStamp || last is WritePid || last is PublishPhase || last is RecordOwner
                || last is ReleaseLock ==> failed is Some && failed == next_start(s, StartReport::Done)
            &&& last is Supervise ==> failed is Some && (failed->0).1 is ReleaseLock && (next_start(
                (failed->0).0,
                then,
            ) matches Some((_, end)) ==> end == StartAsk::Exit(Some(why)))
            &&& last is Detect || last is Exit ==> failed is None
        }),
{
    lemma_run(reports);
}

/// Reports of things done, as many as these.
pub open spec fn all_done(n: nat) -> Seq<StartReport> {
    Seq::new(n, |i: int| StartReport::Done)
}

spec fn done_asks(s: Starting, n: nat) -> Seq<StartAsk>
    decreases n,
{
    if n == 0 {
        seq![]
    } else {
        match next_start(s, StartReport::Done) {
            Some((t, ask)) => seq![ask] + done_asks(t, (n - 1) as nat),
            None => seq![],
        }
    }
}

proof fn lemma_done(s: Starting, n: nat)
    ensures
        start_asks(s, all_done(n)) == done_asks(s, n),
    decreases n,
{
    if n > 0 {
        assert(all_done(n).drop_first() =~= all_done((n - 1) as nat));
        match next_start(s, StartReport::Done) {
            Some((t, ask)) => {
                lemma_done(t, (n - 1) as nat);
            },
            None => {
                lemma_done(s, (n - 1) as nat);
            },
        }
    }
}

proof fn lemma_first(s: Starting, report: StartReport, rest: Seq<StartReport>)
    requires
        next_start(s, report) is Some,
    ensures
        start_asks(s, seq![report] + rest) == seq![(next_start(s, report)->0).1] + start_asks(
            (next_start(s, report)->0).0,
            rest,
        ),
{
    assert((seq![report] + rest).drop_first() =~= rest);
}

/// How many things are asked for, at most, once it is settled what is served.
pub const MOST_ASKS: usize = 13;

/// A daemon that finds its lock taken finds out by whom, and leaves.
pub proof fn a_second_daemon_only_leaves(n: nat)
    requires
        n > 0,
    ensures
        start_asks(beginning(), seq![StartReport::LockBusy] + all_done(n)) == seq![
            StartAsk::StandDown,
            StartAsk::Exit(None),
        ],
{
    let (t, ask) = next_start(beginning(), StartReport::LockBusy)->0;
    lemma_first(beginning(), StartReport::LockBusy, all_done(n));
    lemma_done(t, n);
    reveal_with_fuel(done_asks, 3);
    assert(start_asks(beginning(), seq![StartReport::LockBusy] + all_done(n)) =~= seq![
        StartAsk::StandDown,
        StartAsk::Exit(None),
    ]);
}

/// A start that meets no failure serves a project in this order. A walked
/// project is watched, and the watcher is read at once where nothing is owed; a
/// semantic pass that is owed comes first; and a project that is not walked is
/// not watched before its walk.
#[verifier::rlimit(50)]
pub proof fn an_undisturbed_start_serves_the_project(
    why: SingleReason,
    walked: bool,
    passed: bool,
    n: nat,
)
    requires
        n >= MOST_ASKS,
    ensures
        ({
            let reports = seq![StartReport::LockTaken] + (seq![StartReport::Done] + (seq![
                StartReport::Detected(Mode::Single(why)),
            ] + (seq![StartReport::Done] + (seq![StartReport::IndexOpened(walked, passed)] + all_done(
                n,
            )))));
            start_asks(beginning(), reports) == seq![
                StartAsk::PublishStamp,
                StartAsk::Detect,
                StartAsk::Discover,
                StartAsk::OpenIndex,
                StartAsk::Canonicalize,
                StartAsk::Bind { clear_markers: true },
                StartAsk::WritePid,
                StartAsk::PublishPhase { front: false, unindexed: !walked },
                StartAsk::RecordOwner,
                StartAsk::ReadConfig,
                StartAsk::Serve,
            ] + (if walked {
                seq![StartAsk::StartWatcher]
            } else {
                seq![]
            }) + (if walked && passed {
                seq![StartAsk::StartConsumer]
            } else {
                seq![]
            }) + seq![
                StartAsk::StartActivation {
                    owed: Owed {
                        needs_bulk_index: !walked,
                        needs_semantic_pass_retry: walked && !passed,
                    },
                    watcher: walked && !passed,
                },
                StartAsk::Supervise,
                StartAsk::ReleaseLock,
                StartAsk::Exit(None),
            ]
        }),
{
    let r5 = seq![StartReport::IndexOpened(walked, passed)] + all_done(n);
    let r4 = seq![StartReport::Done] + r5;
    let r3 = seq![StartReport::Detected(Mode::Single(why))] + r4;
    let r2 = seq![StartReport::Done] + r3;
    let s1 = (next_start(beginning(), StartReport::LockTaken)->0).0;
    lemma_first(beginning(), StartReport::LockTaken, r2);
    let s2 = (next_start(s1, StartReport::Done)->0).0;
    lemma_first(s1, StartReport::Done, r3);
    let s3 = (next_start(s2, StartReport::Detected(Mode::Single(why)))->0).0;
    lemma_first(s2, StartReport::Detected(Mode::Single(why)), r4);
    let s4 = (next_start(s3, StartReport::Done)->0).0;
    lemma_first(s3, StartReport::Done, r5);
    let s5 = (next_start(s4, StartReport::IndexOpened(walked, passed))->0).0;
    lemma_first(s4, StartReport::IndexOpened(walked, passed), all_done(n));
    lemma_done(s5, n);
    reveal_with_fuel(done_asks, 14);
}

/// A start that meets no failure serves the front of a folder of projects with
/// neither plugins nor an index nor a watcher.
#[verifier::rlimit(50)]
pub proof fn an_undisturbed_start_serves_the_front(n: nat)
    requires
        n >= MOST_ASKS,
    ensures
        ({
            let reports = seq![StartReport::LockTaken] + (seq![StartReport::Done] + (seq![
                StartReport::Detected(Mode::Multi),
            ] + all_done(n)));
            start_asks(beginning(), reports) == seq![
                StartAsk::PublishStamp,
                StartAsk::Detect,
                StartAsk::Canonicalize,
                StartAsk::Bind { clear_markers: false },
                StartAsk::WritePid,
                StartAsk::PublishPhase { front: true, unindexed: false },
                StartAsk::RecordOwner,
                StartAsk::Serve,
                StartAsk::Supervise,
                StartAsk::ReleaseLock,
                StartAsk::Exit(None),
            ]
        }),
{
    let r3 = seq![StartReport::Detected(Mode::Multi)] + all_done(n);
    let r2 = seq![StartReport::Done] + r3;
    let s1 = (next_start(beginning(), StartReport::LockTaken)->0).0;
    lemma_first(beginning(), StartReport::LockTaken, r2);
    let s2 = (next_start(s1, StartReport::Done)->0).0;
    lemma_first(s1, StartReport::Done, r3);
    let s3 = (next_start(s2, StartReport::Detected(Mode::Multi))->0).0;
    lemma_first(s2, StartReport::Detected(Mode::Multi), all_done(n));
    lemma_done(s3, n);
    reveal_with_fuel(done_asks, 14);
}

} // verus!
