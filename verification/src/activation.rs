//! Building an index when someone first asks for it, in an order that loses no
//! change and takes back no answer.
//!
//! The watcher is there before the walk begins, so that no change made
//! meanwhile is lost, and is read only after the walk and the semantic pass,
//! so that neither overwrites something newer. The phase says that structural
//! answers are given before the record says that the next process need not
//! walk. Embeddings come last and never make a complete index a failed one.

use vstd::prelude::*;
use vstd::string::*;

verus! {

/// The phases that building an index goes through.
#[derive(Clone, Copy, Debug, PartialEq, Eq, Structural)]
pub enum BuildPhase {
    Walking,
    StructuralGraph,
    Embedding,
    Ready,
}

/// What building an index waits for.
#[derive(Clone, Copy, Debug, PartialEq, Eq, Structural)]
pub enum BuildStep {
    /// Someone has to ask for the index.
    Idle,
    SettingWalking,
    RegisteringWatcher,
    BulkIndexing,
    SettingStructuralGraph,
    RecordingWalk,
    NotingActivity,
    PassAfterWalk,
    RetryingPass,
    StartingConsumer,
    SettingEmbedding,
    Backfilling,
    SettingReady,
    /// The index is built.
    Over,
}

/// What is reported.
#[derive(Clone, Debug)]
pub enum BuildNews {
    /// Someone asked for the index.
    Triggered,
    /// What was asked for has been done.
    Done,
    /// What was asked for failed.
    Failed { error: String },
    /// Doing what was asked for ended in a panic.
    Panicked { what: String },
}

/// What a `BuildNews` says.
pub enum BuildReport {
    Triggered,
    Done,
    Failed(Seq<char>),
    Panicked(Seq<char>),
}

impl View for BuildNews {
    type V = BuildReport;

    open spec fn view(&self) -> BuildReport {
        match self {
            BuildNews::Triggered => BuildReport::Triggered,
            BuildNews::Done => BuildReport::Done,
            BuildNews::Failed { error } => BuildReport::Failed(error@),
            BuildNews::Panicked { what } => BuildReport::Panicked(what@),
        }
    }
}

/// What building an index asks for.
#[derive(Clone, Debug)]
pub enum BuildAct {
    SetPhase { phase: BuildPhase },
    /// Start the file watcher; nobody reads it yet.
    RegisterWatcher,
    /// Walk the project with every plugin.
    BulkIndex,
    /// Record that the project has been walked.
    RecordWalk,
    /// The core has been working: that is activity.
    NoteActivity,
    /// Run the semantic passes that are owed, over an index of this
    /// description.
    SemanticPass { context: &'static str },
    /// Have the watcher read from now on.
    StartConsumer,
    /// Compute the embeddings that are missing.
    Backfill,
    /// The build failed, for this reason; the next request tries again.
    Fail { message: String },
    /// The index is built.
    Finish,
}

/// What a `BuildAct` says.
pub enum BuildAsk {
    SetPhase(BuildPhase),
    RegisterWatcher,
    BulkIndex,
    RecordWalk,
    NoteActivity,
    SemanticPass(Seq<char>),
    StartConsumer,
    Backfill,
    Fail(Seq<char>),
    Finish,
}

impl View for BuildAct {
    type V = BuildAsk;

    open spec fn view(&self) -> BuildAsk {
        match self {
            BuildAct::SetPhase { phase } => BuildAsk::SetPhase(*phase),
            BuildAct::RegisterWatcher => BuildAsk::RegisterWatcher,
            BuildAct::BulkIndex => BuildAsk::BulkIndex,
            BuildAct::RecordWalk => BuildAsk::RecordWalk,
            BuildAct::NoteActivity => BuildAsk::NoteActivity,
            BuildAct::SemanticPass { context } => BuildAsk::SemanticPass(context@),
            BuildAct::StartConsumer => BuildAsk::StartConsumer,
            BuildAct::Backfill => BuildAsk::Backfill,
            BuildAct::Fail { message } => BuildAsk::Fail(message@),
            BuildAct::Finish => BuildAsk::Finish,
        }
    }
}

/// What is owed, what is there, and how far building has come.
#[derive(Clone, Copy, Debug, PartialEq, Eq, Structural)]
pub struct ActivationCtx {
    pub needs_walk: bool,
    pub needs_semantic_pass_retry: bool,
    /// A watcher is there that nobody reads yet.
    pub watcher: bool,
    pub step: BuildStep,
}

/// Where building goes once the graph is as good as it gets: to the watcher's
/// reader, who takes the watcher over, if it has none, and to the embeddings.
pub open spec fn graph_built(c: ActivationCtx) -> (ActivationCtx, BuildAsk) {
    if c.watcher {
        (
            ActivationCtx { watcher: false, step: BuildStep::StartingConsumer, ..c },
            BuildAsk::StartConsumer,
        )
    } else {
        (
            ActivationCtx { step: BuildStep::SettingEmbedding, ..c },
            BuildAsk::SetPhase(BuildPhase::Embedding),
        )
    }
}

/// Where building begins: with the walk if it is owed, else with a semantic
/// pass that is.
pub open spec fn begun(c: ActivationCtx) -> (ActivationCtx, BuildAsk) {
    if c.needs_walk {
        (
            ActivationCtx { step: BuildStep::SettingWalking, ..c },
            BuildAsk::SetPhase(BuildPhase::Walking),
        )
    } else if c.needs_semantic_pass_retry {
        (
            ActivationCtx { step: BuildStep::RetryingPass, ..c },
            BuildAsk::SemanticPass("the previously-interrupted index"@),
        )
    } else {
        graph_built(c)
    }
}

/// The build failed: everything that was done stays done, and the next request
/// begins again.
pub open spec fn build_failed(c: ActivationCtx, message: Seq<char>) -> (ActivationCtx, BuildAsk) {
    (ActivationCtx { step: BuildStep::Idle, ..c }, BuildAsk::Fail(message))
}

/// What building makes of a step that is done.
pub open spec fn step_done(c: ActivationCtx) -> Option<(ActivationCtx, BuildAsk)> {
    match c.step {
        BuildStep::SettingWalking => if c.watcher {
            Some((ActivationCtx { step: BuildStep::BulkIndexing, ..c }, BuildAsk::BulkIndex))
        } else {
            Some(
                (
                    ActivationCtx { step: BuildStep::RegisteringWatcher, ..c },
                    BuildAsk::RegisterWatcher,
                ),
            )
        },
        BuildStep::RegisteringWatcher => Some(
            (
                ActivationCtx { watcher: true, step: BuildStep::BulkIndexing, ..c },
                BuildAsk::BulkIndex,
            ),
        ),
        BuildStep::BulkIndexing => Some(
            (
                ActivationCtx { step: BuildStep::SettingStructuralGraph, ..c },
                BuildAsk::SetPhase(BuildPhase::StructuralGraph),
            ),
        ),
        BuildStep::SettingStructuralGraph => Some(
            (ActivationCtx { step: BuildStep::RecordingWalk, ..c }, BuildAsk::RecordWalk),
        ),
        BuildStep::RecordingWalk => Some(
            (
                ActivationCtx { needs_walk: false, step: BuildStep::NotingActivity, ..c },
                BuildAsk::NoteActivity,
            ),
        ),
        BuildStep::NotingActivity => Some(
            (
                ActivationCtx { step: BuildStep::PassAfterWalk, ..c },
                BuildAsk::SemanticPass("the freshly built index"@),
            ),
        ),
        BuildStep::PassAfterWalk => Some(graph_built(c)),
        BuildStep::RetryingPass => Some(
            graph_built(ActivationCtx { needs_semantic_pass_retry: false, ..c }),
        ),
        BuildStep::StartingConsumer => Some(
            (
                ActivationCtx { step: BuildStep::SettingEmbedding, ..c },
                BuildAsk::SetPhase(BuildPhase::Embedding),
            ),
        ),
        BuildStep::SettingEmbedding => Some(
            (ActivationCtx { step: BuildStep::Backfilling, ..c }, BuildAsk::Backfill),
        ),
        BuildStep::Backfilling => Some(
            (
                ActivationCtx { step: BuildStep::SettingReady, ..c },
                BuildAsk::SetPhase(BuildPhase::Ready),
            ),
        ),
        BuildStep::SettingReady => Some(
            (ActivationCtx { step: BuildStep::Over, ..c }, BuildAsk::Finish),
        ),
        BuildStep::Idle => None,
        BuildStep::Over => None,
    }
}

/// What building makes of what is reported to it. A report it does not wait for
/// changes nothing.
pub open spec fn next_build(c: ActivationCtx, report: BuildReport) -> Option<(ActivationCtx, BuildAsk)> {
    match report {
        BuildReport::Triggered => if c.step == BuildStep::Idle {
            Some(begun(c))
        } else {
            None
        },
        BuildReport::Done => step_done(c),
        BuildReport::Failed(error) => match c.step {
            BuildStep::RegisteringWatcher => Some(
                build_failed(c, "failed to start the file watcher: "@ + error),
            ),
            BuildStep::BulkIndexing => Some(
                build_failed(c, "failed to build the project's initial index: "@ + error),
            ),
            BuildStep::RecordingWalk => Some(
                build_failed(c, "failed to record that the project was indexed: "@ + error),
            ),
            _ => None,
        },
        BuildReport::Panicked(what) => match c.step {
            BuildStep::Idle => None,
            BuildStep::Over => None,
            // An index without all its embeddings is still an index.
            BuildStep::Backfilling => step_done(c),
            _ => Some(build_failed(c, "the index build panicked: "@ + what)),
        },
    }
}

impl ActivationCtx {
    /// A project that owes these, with a watcher or without.
    pub fn new(needs_walk: bool, needs_semantic_pass_retry: bool, watcher: bool) -> (r: Self)
        ensures
            r == (ActivationCtx {
                needs_walk,
                needs_semantic_pass_retry,
                watcher,
                step: BuildStep::Idle,
            }),
    {
        ActivationCtx { needs_walk, needs_semantic_pass_retry, watcher, step: BuildStep::Idle }
    }

    fn graph_is_built(&mut self) -> (r: BuildAct)
        ensures
            (*final(self), r@) == graph_built(*old(self)),
    {
        if self.watcher {
            self.watcher = false;
            self.step = BuildStep::StartingConsumer;
            BuildAct::StartConsumer
        } else {
            self.step = BuildStep::SettingEmbedding;
            BuildAct::SetPhase { phase: BuildPhase::Embedding }
        }
    }

    fn activate(&mut self) -> (r: BuildAct)
        ensures
            (*final(self), r@) == begun(*old(self)),
    {
        if self.needs_walk {
            self.step = BuildStep::SettingWalking;
            BuildAct::SetPhase { phase: BuildPhase::Walking }
        } else if self.needs_semantic_pass_retry {
            self.step = BuildStep::RetryingPass;
            BuildAct::SemanticPass { context: "the previously-interrupted index" }
        } else {
            self.graph_is_built()
        }
    }

    fn fail(&mut self, context: &str, error: &str) -> (r: BuildAct)
        ensures
            (*final(self), r@) == build_failed(*old(self), context@ + error@),
    {
        self.step = BuildStep::Idle;
        let mut message: String = context.to_owned();
        message.append(error);
        BuildAct::Fail { message }
    }

    fn advance(&mut self) -> (r: Option<BuildAct>)
        ensures
            match step_done(*old(self)) {
                Some((c, ask)) => *final(self) == c && r is Some && r->0@ == ask,
                None => *final(self) == *old(self) && r is None,
            },
    {
        match self.step {
            BuildStep::SettingWalking => {
                if self.watcher {
                    self.step = BuildStep::BulkIndexing;
                    Some(BuildAct::BulkIndex)
                } else {
                    self.step = BuildStep::RegisteringWatcher;
                    Some(BuildAct::RegisterWatcher)
                }
            },
            BuildStep::RegisteringWatcher => {
                self.watcher = true;
                self.step = BuildStep::BulkIndexing;
                Some(BuildAct::BulkIndex)
            },
            BuildStep::BulkIndexing => {
                self.step = BuildStep::SettingStructuralGraph;
                Some(BuildAct::SetPhase { phase: BuildPhase::StructuralGraph })
            },
            BuildStep::SettingStructuralGraph => {
                self.step = BuildStep::RecordingWalk;
                Some(BuildAct::RecordWalk)
            },
            BuildStep::RecordingWalk => {
                self.needs_walk = false;
                self.step = BuildStep::NotingActivity;
                Some(BuildAct::NoteActivity)
            },
            BuildStep::NotingActivity => {
                self.step = BuildStep::PassAfterWalk;
                Some(BuildAct::SemanticPass { context: "the freshly built index" })
            },
            BuildStep::PassAfterWalk => Some(self.graph_is_built()),
            BuildStep::RetryingPass => {
                self.needs_semantic_pass_retry = false;
                Some(self.graph_is_built())
            },
            BuildStep::StartingConsumer => {
                self.step = BuildStep::SettingEmbedding;
                Some(BuildAct::SetPhase { phase: BuildPhase::Embedding })
            },
            BuildStep::SettingEmbedding => {
                self.step = BuildStep::Backfilling;
                Some(BuildAct::Backfill)
            },
            BuildStep::Backfilling => {
                self.step = BuildStep::SettingReady;
                Some(BuildAct::SetPhase { phase: BuildPhase::Ready })
            },
            BuildStep::SettingReady => {
                self.step = BuildStep::Over;
                Some(BuildAct::Finish)
            },
            BuildStep::Idle => None,
            BuildStep::Over => None,
        }
    }

    /// Takes in what is reported, and says what is asked for next; nothing
    /// where that was not waited for.
    pub fn hear(&mut self, news: BuildNews) -> (r: Option<BuildAct>)
        ensures
            match next_build(*old(self), news@) {
                Some((c, ask)) => *final(self) == c && r is Some && r->0@ == ask,
                None => *final(self) == *old(self) && r is None,
            },
    {
        match news {
            BuildNews::Triggered => match self.step {
                BuildStep::Idle => Some(self.activate()),
                _ => None,
            },
            BuildNews::Done => self.advance(),
            BuildNews::Failed { error } => match self.step {
                BuildStep::RegisteringWatcher => Some(
                    self.fail("failed to start the file watcher: ", error.as_str()),
                ),
                BuildStep::BulkIndexing => Some(
                    self.fail("failed to build the project's initial index: ", error.as_str()),
                ),
                BuildStep::RecordingWalk => Some(
                    self.fail("failed to record that the project was indexed: ", error.as_str()),
                ),
                _ => None,
            },
            BuildNews::Panicked { what } => match self.step {
                BuildStep::Idle => None,
                BuildStep::Over => None,
                BuildStep::Backfilling => self.advance(),
                _ => Some(self.fail("the index build panicked: ", what.as_str())),
            },
        }
    }
}

// ---------------------------------------------------------------------------
// Laws
// ---------------------------------------------------------------------------
/// Whether a state keeps the order that is promised: the project is walked only
/// with a watcher there, and everything after the walk happens only once
/// nothing is owed any more.
pub open spec fn keeps_order(c: ActivationCtx) -> bool {
    &&& c.step == BuildStep::SettingWalking || c.step == BuildStep::RegisteringWatcher || c.step
        == BuildStep::BulkIndexing || c.step == BuildStep::SettingStructuralGraph || c.step
        == BuildStep::RecordingWalk ==> c.needs_walk
    &&& c.step == BuildStep::BulkIndexing || c.step == BuildStep::SettingStructuralGraph || c.step
        == BuildStep::RecordingWalk || c.step == BuildStep::NotingActivity || c.step
        == BuildStep::PassAfterWalk ==> c.watcher
    &&& c.step == BuildStep::NotingActivity || c.step == BuildStep::PassAfterWalk || c.step
        == BuildStep::RetryingPass || c.step == BuildStep::StartingConsumer || c.step
        == BuildStep::SettingEmbedding || c.step == BuildStep::Backfilling || c.step
        == BuildStep::SettingReady || c.step == BuildStep::Over ==> !c.needs_walk
    &&& c.step == BuildStep::StartingConsumer || c.step == BuildStep::SettingEmbedding || c.step
        == BuildStep::Backfilling || c.step == BuildStep::SettingReady || c.step == BuildStep::Over
        ==> !c.watcher
}

/// Every step keeps the promised order: the watcher is there before the walk
/// and is read only after it, and no step undoes a walk that is recorded.
pub proof fn every_step_keeps_the_order(c: ActivationCtx, report: BuildReport)
    requires
        keeps_order(c),
        next_build(c, report) is Some,
    ensures
        ({
            let (d, ask) = next_build(c, report)->0;
            &&& keeps_order(d)
            &&& !c.needs_walk ==> !d.needs_walk
            &&& !c.needs_semantic_pass_retry ==> !d.needs_semantic_pass_retry
            &&& ask == BuildAsk::BulkIndex ==> d.watcher && d.needs_walk
            &&& ask == BuildAsk::StartConsumer ==> !d.needs_walk
            &&& ask == BuildAsk::Finish ==> !d.needs_walk && !d.watcher
        }),
{
}

/// A project that waits to be asked for is in order, whatever it owes.
pub proof fn a_fresh_project_keeps_the_order(needs_walk: bool, retry: bool, watcher: bool)
    ensures
        keeps_order(
            ActivationCtx {
                needs_walk,
                needs_semantic_pass_retry: retry,
                watcher,
                step: BuildStep::Idle,
            },
        ),
{
}

/// Computing the embeddings never fails a build: whatever comes of it, the
/// index is ready.
pub proof fn embeddings_never_fail_a_build(c: ActivationCtx, report: BuildReport)
    requires
        c.step == BuildStep::Backfilling,
        next_build(c, report) is Some,
    ensures
        (next_build(c, report)->0).1 == BuildAsk::SetPhase(BuildPhase::Ready),
{
}

/// A build that failed begins again with the next request, and with what is
/// still owed: a watcher that was started is kept.
pub proof fn a_failed_build_is_begun_again(c: ActivationCtx, report: BuildReport)
    requires
        next_build(c, report) is Some,
        (next_build(c, report)->0).1 is Fail,
    ensures
        ({
            let d = (next_build(c, report)->0).0;
            &&& d == ActivationCtx { step: BuildStep::Idle, ..c }
            &&& next_build(d, BuildReport::Triggered) == Some(begun(d))
        }),
{
}

} // verus!
