//! What holds of a whole build: what it asks for from the first request on,
//! whatever is reported to it.

use vstd::prelude::*;

use crate::activation::{ActivationCtx, BuildAsk, BuildPhase, BuildReport, BuildStep, next_build};

verus! {

/// What is asked for, report after report.
pub open spec fn build_asks(c: ActivationCtx, reports: Seq<BuildReport>) -> Seq<BuildAsk>
    decreases reports.len(),
{
    if reports.len() == 0 {
        seq![]
    } else {
        match next_build(c, reports[0]) {
            Some((d, ask)) => seq![ask] + build_asks(d, reports.drop_first()),
            None => build_asks(c, reports.drop_first()),
        }
    }
}

/// Where a build stands after these reports.
pub open spec fn build_after(c: ActivationCtx, reports: Seq<BuildReport>) -> ActivationCtx
    decreases reports.len(),
{
    if reports.len() == 0 {
        c
    } else {
        match next_build(c, reports[0]) {
            Some((d, _)) => build_after(d, reports.drop_first()),
            None => build_after(c, reports.drop_first()),
        }
    }
}

/// What was asked for last, if anything was.
pub open spec fn last_ask(before: Option<BuildAsk>, asks: Seq<BuildAsk>) -> Option<BuildAsk> {
    if asks.len() == 0 {
        before
    } else {
        Some(asks.last())
    }
}

/// What was asked for before the ask at `i`.
pub open spec fn ask_before(before: Option<BuildAsk>, asks: Seq<BuildAsk>, i: int) -> Option<BuildAsk> {
    if i == 0 {
        before
    } else {
        Some(asks[i - 1])
    }
}

/// Whether nothing is under way: nothing was asked for yet, or the last build
/// failed.
pub open spec fn is_at_rest(last: Option<BuildAsk>) -> bool {
    last is None || last->0 is Fail
}

/// Whether a build that waits at this step has asked for this last.
pub open spec fn waits_for(step: BuildStep, last: Option<BuildAsk>) -> bool {
    match step {
        BuildStep::Idle => is_at_rest(last),
        BuildStep::SettingWalking => last == Some(BuildAsk::SetPhase(BuildPhase::Walking)),
        BuildStep::RegisteringWatcher => last == Some(BuildAsk::RegisterWatcher),
        BuildStep::BulkIndexing => last == Some(BuildAsk::BulkIndex),
        BuildStep::SettingStructuralGraph => last == Some(
            BuildAsk::SetPhase(BuildPhase::StructuralGraph),
        ),
        BuildStep::RecordingWalk => last == Some(BuildAsk::RecordWalk),
        BuildStep::NotingActivity => last == Some(BuildAsk::NoteActivity),
        BuildStep::PassAfterWalk => last == Some(BuildAsk::SemanticPass("the freshly built index"@)),
        BuildStep::RetryingPass => last == Some(
            BuildAsk::SemanticPass("the previously-interrupted index"@),
        ),
        BuildStep::StartingConsumer => last == Some(BuildAsk::StartConsumer),
        BuildStep::SettingEmbedding => last == Some(BuildAsk::SetPhase(BuildPhase::Embedding)),
        BuildStep::Backfilling => last == Some(BuildAsk::Backfill),
        BuildStep::SettingReady => last == Some(BuildAsk::SetPhase(BuildPhase::Ready)),
        BuildStep::Over => last == Some(BuildAsk::Finish),
    }
}

/// What an ask may come after: what was asked for right before it.
pub open spec fn may_follow(ask: BuildAsk, before: Option<BuildAsk>) -> bool {
    match ask {
        BuildAsk::SetPhase(BuildPhase::Walking) => is_at_rest(before),
        BuildAsk::RegisterWatcher => before == Some(BuildAsk::SetPhase(BuildPhase::Walking)),
        BuildAsk::BulkIndex => before == Some(BuildAsk::RegisterWatcher) || before == Some(
            BuildAsk::SetPhase(BuildPhase::Walking),
        ),
        BuildAsk::SetPhase(BuildPhase::StructuralGraph) => before == Some(BuildAsk::BulkIndex),
        BuildAsk::RecordWalk => before == Some(BuildAsk::SetPhase(BuildPhase::StructuralGraph)),
        BuildAsk::NoteActivity => before == Some(BuildAsk::RecordWalk),
        BuildAsk::SemanticPass(over) => if before == Some(BuildAsk::NoteActivity) {
            over == "the freshly built index"@
        } else {
            is_at_rest(before) && over == "the previously-interrupted index"@
        },
        BuildAsk::StartConsumer => is_at_rest(before) || before->0 is SemanticPass,
        BuildAsk::SetPhase(BuildPhase::Embedding) => is_at_rest(before) || before->0 is SemanticPass
            || before == Some(BuildAsk::StartConsumer),
        BuildAsk::Backfill => before == Some(BuildAsk::SetPhase(BuildPhase::Embedding)),
        BuildAsk::SetPhase(BuildPhase::Ready) => before == Some(BuildAsk::Backfill),
        BuildAsk::Finish => before == Some(BuildAsk::SetPhase(BuildPhase::Ready)),
        // The embeddings fail no build, and what is not under way cannot fail.
        BuildAsk::Fail(_) => !is_at_rest(before) && before != Some(BuildAsk::Backfill) && before != Some(
            BuildAsk::Finish,
        ),
    }
}

proof fn lemma_report(c: ActivationCtx, report: BuildReport, before: Option<BuildAsk>)
    requires
        waits_for(c.step, before),
        next_build(c, report) is Some,
    ensures
        waits_for((next_build(c, report)->0).0.step, Some((next_build(c, report)->0).1)),
        may_follow((next_build(c, report)->0).1, before),
{
}

proof fn lemma_reports(c: ActivationCtx, reports: Seq<BuildReport>, before: Option<BuildAsk>)
    requires
        waits_for(c.step, before),
    ensures
        waits_for(build_after(c, reports).step, last_ask(before, build_asks(c, reports))),
        forall|i: int|
            0 <= i < build_asks(c, reports).len() ==> may_follow(
                #[trigger] build_asks(c, reports)[i],
                ask_before(before, build_asks(c, reports), i),
            ),
    decreases reports.len(),
{
    let asks = build_asks(c, reports);
    if reports.len() > 0 {
        match next_build(c, reports[0]) {
            Some((d, ask)) => {
                lemma_report(c, reports[0], before);
                lemma_reports(d, reports.drop_first(), Some(ask));
                let rest = build_asks(d, reports.drop_first());
                assert forall|i: int| 0 <= i < asks.len() implies may_follow(
                    #[trigger] asks[i],
                    ask_before(before, asks, i),
                ) by {
                    if i > 0 {
                        assert(asks[i] == rest[i - 1]);
                        assert(ask_before(before, asks, i) == ask_before(Some(ask), rest, i - 1));
                    }
                }
            },
            None => {
                lemma_reports(c, reports.drop_first(), before);
            },
        }
    }
}

/// A build waits for what it asked for last, and for nothing else: from the
/// first request on, whatever is reported.
pub proof fn a_build_waits_for_what_it_asked_for(c: ActivationCtx, reports: Seq<BuildReport>)
    requires
        c.step == BuildStep::Idle,
    ensures
        waits_for(build_after(c, reports).step, last_ask(None, build_asks(c, reports))),
{
    lemma_reports(c, reports, None);
}

/// Whatever is reported, each thing is asked for only right after what it
/// builds on: the index is ready only after the embeddings were asked for, the
/// embeddings only once that phase is told, the walk only with a watcher that
/// was asked for or was there, and its record only after the walk.
pub proof fn a_build_asks_in_order(c: ActivationCtx, reports: Seq<BuildReport>, i: int)
    requires
        c.step == BuildStep::Idle,
        0 <= i < build_asks(c, reports).len(),
    ensures
        may_follow(build_asks(c, reports)[i], ask_before(None, build_asks(c, reports), i)),
{
    lemma_reports(c, reports, None);
}

/// No sequence of reports makes an index ready, or a build finished, for which
/// the embeddings were not asked for before.
pub proof fn no_index_is_ready_without_its_embeddings(
    c: ActivationCtx,
    reports: Seq<BuildReport>,
    i: int,
)
    requires
        c.step == BuildStep::Idle,
        0 <= i < build_asks(c, reports).len(),
        build_asks(c, reports)[i] == BuildAsk::SetPhase(BuildPhase::Ready) || build_asks(c, reports)[i]
            == BuildAsk::Finish,
    ensures
        exists|k: int| 0 <= k < i && build_asks(c, reports)[k] == BuildAsk::Backfill,
{
    let asks = build_asks(c, reports);
    lemma_reports(c, reports, None);
    assert(may_follow(asks[i], ask_before(None, asks, i)));
    if asks[i] == BuildAsk::Finish {
        assert(may_follow(asks[i - 1], ask_before(None, asks, i - 1)));
        assert(asks[i - 2] == BuildAsk::Backfill);
    } else {
        assert(asks[i - 1] == BuildAsk::Backfill);
    }
}

/// Reports of things done, as many as these.
pub open spec fn all_done(n: nat) -> Seq<BuildReport> {
    Seq::new(n, |i: int| BuildReport::Done)
}

/// What a build that meets no failure asks for after what it has asked for
/// before.
spec fn done_asks(c: ActivationCtx, n: nat) -> Seq<BuildAsk>
    decreases n,
{
    if n == 0 {
        seq![]
    } else {
        match next_build(c, BuildReport::Done) {
            Some((d, ask)) => seq![ask] + done_asks(d, (n - 1) as nat),
            None => seq![],
        }
    }
}

spec fn done_after(c: ActivationCtx, n: nat) -> ActivationCtx
    decreases n,
{
    if n == 0 {
        c
    } else {
        match next_build(c, BuildReport::Done) {
            Some((d, ask)) => done_after(d, (n - 1) as nat),
            None => c,
        }
    }
}

proof fn lemma_done(c: ActivationCtx, n: nat)
    ensures
        build_asks(c, all_done(n)) == done_asks(c, n),
        build_after(c, all_done(n)) == done_after(c, n),
    decreases n,
{
    if n > 0 {
        assert(all_done(n).drop_first() =~= all_done((n - 1) as nat));
        match next_build(c, BuildReport::Done) {
            Some((d, ask)) => {
                lemma_done(d, (n - 1) as nat);
            },
            None => {
                lemma_done(c, (n - 1) as nat);
                lemma_stuck(c, (n - 1) as nat);
            },
        }
    }
}

proof fn lemma_stuck(c: ActivationCtx, n: nat)
    requires
        next_build(c, BuildReport::Done) is None,
    ensures
        done_asks(c, n) == Seq::<BuildAsk>::empty(),
        done_after(c, n) == c,
{
}

/// How many things a build asks for at most.
pub const MOST_ASKS: usize = 13;

/// A build that meets no failure asks, in this order: for the walk where one is
/// owed, with a watcher first where there is none, its record and a semantic
/// pass over what was walked; else for the semantic pass that is owed, if one
/// is; then for a reader of the watcher, if there is a watcher that has none;
/// and then, whatever was owed, for the embeddings and for the index to be
/// ready. It owes nothing after that.
#[verifier::rlimit(50)]
pub proof fn an_undisturbed_build_does_what_is_owed(c: ActivationCtx, n: nat)
    requires
        c.step == BuildStep::Idle,
        n >= MOST_ASKS,
    ensures
        ({
            let reports = seq![BuildReport::Triggered] + all_done(n);
            let walk = if !c.needs_walk {
                seq![]
            } else {
                seq![BuildAsk::SetPhase(BuildPhase::Walking)] + (if c.watcher {
                    seq![]
                } else {
                    seq![BuildAsk::RegisterWatcher]
                }) + seq![
                    BuildAsk::BulkIndex,
                    BuildAsk::SetPhase(BuildPhase::StructuralGraph),
                    BuildAsk::RecordWalk,
                    BuildAsk::NoteActivity,
                    BuildAsk::SemanticPass("the freshly built index"@),
                ]
            };
            let retry = if c.needs_walk || !c.needs_semantic_pass_retry {
                seq![]
            } else {
                seq![BuildAsk::SemanticPass("the previously-interrupted index"@)]
            };
            let reader = if c.needs_walk || c.watcher {
                seq![BuildAsk::StartConsumer]
            } else {
                seq![]
            };
            let embeddings = seq![
                BuildAsk::SetPhase(BuildPhase::Embedding),
                BuildAsk::Backfill,
                BuildAsk::SetPhase(BuildPhase::Ready),
                BuildAsk::Finish,
            ];
            let end = build_after(c, reports);
            &&& build_asks(c, reports) == walk + retry + reader + embeddings
            &&& !end.needs_walk
            &&& !end.watcher
            &&& !c.needs_walk ==> !end.needs_semantic_pass_retry
        }),
{
    let reports = seq![BuildReport::Triggered] + all_done(n);
    assert(reports.drop_first() =~= all_done(n));
    let (d, first) = next_build(c, BuildReport::Triggered)->0;
    lemma_done(d, n);
    assert(build_asks(c, reports) == seq![first] + done_asks(d, n));
    assert(build_after(c, reports) == done_after(d, n));
    reveal_with_fuel(done_asks, 14);
    reveal_with_fuel(done_after, 14);
    let e: Seq<BuildAsk> = seq![];
    if c.needs_walk {
        if c.watcher {
            assert(build_asks(c, reports) =~= seq![BuildAsk::SetPhase(BuildPhase::Walking)] + e + seq![
                BuildAsk::BulkIndex,
                BuildAsk::SetPhase(BuildPhase::StructuralGraph),
                BuildAsk::RecordWalk,
                BuildAsk::NoteActivity,
                BuildAsk::SemanticPass("the freshly built index"@),
            ] + e + seq![BuildAsk::StartConsumer] + seq![
                BuildAsk::SetPhase(BuildPhase::Embedding),
                BuildAsk::Backfill,
                BuildAsk::SetPhase(BuildPhase::Ready),
                BuildAsk::Finish,
            ]);
        } else {
            assert(build_asks(c, reports) =~= seq![BuildAsk::SetPhase(BuildPhase::Walking)] + seq![
                BuildAsk::RegisterWatcher,
            ] + seq![
                BuildAsk::BulkIndex,
                BuildAsk::SetPhase(BuildPhase::StructuralGraph),
                BuildAsk::RecordWalk,
                BuildAsk::NoteActivity,
                BuildAsk::SemanticPass("the freshly built index"@),
            ] + e + seq![BuildAsk::StartConsumer] + seq![
                BuildAsk::SetPhase(BuildPhase::Embedding),
                BuildAsk::Backfill,
                BuildAsk::SetPhase(BuildPhase::Ready),
                BuildAsk::Finish,
            ]);
        }
    }
}

/// What is owed is owed until it is done: a walk until it is recorded, a
/// semantic pass until it was asked for and ran. The watcher waits for a reader
/// from when it is registered until one is asked for.
pub proof fn what_is_owed_stays_owed(
    c: ActivationCtx,
    reports: Seq<BuildReport>,
    report: BuildReport,
)
    requires
        c.step == BuildStep::Idle,
    ensures
        ({
            let last = last_ask(None, build_asks(c, reports));
            let s = build_after(c, reports);
            next_build(s, report) matches Some((t, ask)) ==> {
                &&& t.needs_walk == (s.needs_walk && !(last == Some(BuildAsk::RecordWalk) && report
                    == BuildReport::Done))
                &&& t.needs_semantic_pass_retry == (s.needs_semantic_pass_retry && !(last == Some(
                    BuildAsk::SemanticPass("the previously-interrupted index"@),
                ) && report == BuildReport::Done))
                &&& t.watcher == ((s.watcher || (last == Some(BuildAsk::RegisterWatcher) && report
                    == BuildReport::Done)) && ask != BuildAsk::StartConsumer)
            }
        }),
{
    reveal_strlit("the previously-interrupted index");
    reveal_strlit("the freshly built index");
    assert("the previously-interrupted index"@.len() != "the freshly built index"@.len());
    lemma_reports(c, reports, None);
}

/// What is done leads on to what is asked for next, whatever was reported
/// before: a phase that is told to what it is for, a walk to its record, a
/// semantic pass to the reader of a watcher that has none and then to the
/// embeddings, the embeddings to an index that is ready, and that to the end.
/// Where nothing is under way there is nothing to be done.
pub proof fn what_is_done_leads_on(c: ActivationCtx, reports: Seq<BuildReport>)
    requires
        c.step == BuildStep::Idle,
    ensures
        ({
            let last = last_ask(None, build_asks(c, reports));
            let s = build_after(c, reports);
            let done = next_build(s, BuildReport::Done);
            let ask = (done->0).1;
            &&& done is Some <==> !is_at_rest(last) && last != Some(BuildAsk::Finish)
            &&& last == Some(BuildAsk::SetPhase(BuildPhase::Walking)) ==> ask == if s.watcher {
                BuildAsk::BulkIndex
            } else {
                BuildAsk::RegisterWatcher
            }
            &&& last == Some(BuildAsk::RegisterWatcher) ==> ask == BuildAsk::BulkIndex
            &&& last == Some(BuildAsk::BulkIndex) ==> ask == BuildAsk::SetPhase(BuildPhase::StructuralGraph)
            &&& last == Some(BuildAsk::SetPhase(BuildPhase::StructuralGraph)) ==> ask == BuildAsk::RecordWalk
            &&& last == Some(BuildAsk::RecordWalk) ==> ask == BuildAsk::NoteActivity
            &&& last == Some(BuildAsk::NoteActivity) ==> ask is SemanticPass
            &&& last is Some && last->0 is SemanticPass ==> ask == if s.watcher {
                BuildAsk::StartConsumer
            } else {
                BuildAsk::SetPhase(BuildPhase::Embedding)
            }
            &&& last == Some(BuildAsk::StartConsumer) ==> ask == BuildAsk::SetPhase(BuildPhase::Embedding)
            &&& last == Some(BuildAsk::SetPhase(BuildPhase::Embedding)) ==> ask == BuildAsk::Backfill
            &&& last == Some(BuildAsk::Backfill) ==> ask == BuildAsk::SetPhase(BuildPhase::Ready)
            &&& last == Some(BuildAsk::SetPhase(BuildPhase::Ready)) ==> ask == BuildAsk::Finish
        }),
{
    lemma_reports(c, reports, None);
}

/// How a build answers a failure is settled by what it asked for last: a
/// watcher, a walk or a record that failed fails the build, in these words, and
/// nothing else that is reported as failed does; a panic fails whatever is
/// under way but the embeddings. A request begins a build exactly where none is
/// under way or done.
pub proof fn failures_are_told_by_what_was_asked(
    c: ActivationCtx,
    reports: Seq<BuildReport>,
    why: Seq<char>,
)
    requires
        c.step == BuildStep::Idle,
    ensures
        ({
            let last = last_ask(None, build_asks(c, reports));
            let s = build_after(c, reports);
            let failed = next_build(s, BuildReport::Failed(why));
            let panicked = next_build(s, BuildReport::Panicked(why));
            let begun = next_build(s, BuildReport::Triggered);
            &&& failed is Some <==> last == Some(BuildAsk::RegisterWatcher) || last == Some(
                BuildAsk::BulkIndex,
            ) || last == Some(BuildAsk::RecordWalk)
            &&& last == Some(BuildAsk::RegisterWatcher) ==> (failed->0).1 == BuildAsk::Fail(
                "failed to start the file watcher: "@ + why,
            )
            &&& last == Some(BuildAsk::BulkIndex) ==> (failed->0).1 == BuildAsk::Fail(
                "failed to build the project's initial index: "@ + why,
            )
            &&& last == Some(BuildAsk::RecordWalk) ==> (failed->0).1 == BuildAsk::Fail(
                "failed to record that the project was indexed: "@ + why,
            )
            &&& panicked is Some <==> !is_at_rest(last) && last != Some(BuildAsk::Finish)
            &&& panicked is Some && last != Some(BuildAsk::Backfill) ==> (panicked->0).1
                == BuildAsk::Fail("the index build panicked: "@ + why)
            &&& last == Some(BuildAsk::Backfill) ==> (panicked->0).1 == BuildAsk::SetPhase(
                BuildPhase::Ready,
            )
            &&& begun is Some <==> is_at_rest(last)
        }),
{
    lemma_reports(c, reports, None);
}

} // verus!
