//! The semantic pass over a whole project: each language that owes one is asked
//! for it, one after the other, and what came of it is recorded. A language
//! that fails costs no other language its pass.

use vstd::prelude::*;
use vstd::string::*;

use crate::text::{opt_text, views};

verus! {

/// The reason that is recorded for a language whose pass was not run.
pub const NOT_RUN_REASON: &'static str =
    "not run - its plugin was asleep or memory-suspended; the next daemon start or `g-mesh reindex` asks again";

/// How many files of a language the index holds, out of what counting them
/// gave; none where they could not be counted.
pub fn indexed_file_count(counted: Option<i64>) -> (r: usize)
    ensures
        r == (match counted {
            Some(n) => if n > 0 {
                n as usize
            } else {
                0
            },
            None => 0,
        }),
{
    match counted {
        Some(n) => {
            if n > 0 {
                n as usize
            } else {
                0
            }
        },
        None => 0,
    }
}

/// A language with the reason its pass failed.
pub struct Failure {
    pub language: Seq<char>,
    pub reason: Seq<char>,
}

/// What the pairs of a list say, in order.
pub open spec fn failures(pairs: Seq<(String, String)>) -> Seq<Failure> {
    Seq::new(pairs.len(), |i: int| Failure { language: pairs[i].0@, reason: pairs[i].1@ })
}

/// What asking every language that owes a pass came to.
#[derive(Clone, Debug)]
pub struct SemanticPassRun {
    /// The languages whose pass is complete and recorded.
    pub completed: Vec<String>,
    /// The languages that were asked and did not finish, with the reason.
    pub failed: Vec<(String, String)>,
}

impl Default for SemanticPassRun {
    fn default() -> (r: Self)
        ensures
            r.completed@.len() == 0,
            r.failed@.len() == 0,
    {
        SemanticPassRun { completed: Vec::new(), failed: Vec::new() }
    }
}

/// What is told of the languages whose pass is complete.
pub open spec fn completed_lines(languages: Seq<Seq<char>>, context: Seq<char>) -> Seq<Seq<char>> {
    Seq::new(
        languages.len(),
        |i: int| "g-mesh: "@ + languages[i] + " semantic pass over "@ + context + " complete"@,
    )
}

/// What is told of the languages whose pass failed.
pub open spec fn failed_lines(fs: Seq<Failure>, context: Seq<char>) -> Seq<Seq<char>> {
    Seq::new(
        fs.len(),
        |i: int|
            "g-mesh: the "@ + fs[i].language + " semantic pass over "@ + context + " failed ("@ + fs[i].reason
                + ") - its edges keep whatever the structural pass resolved"@,
    )
}

impl SemanticPassRun {
    /// Whether any language's pass is complete.
    pub fn any_ran(&self) -> (r: bool)
        ensures
            r == (self.completed@.len() > 0),
    {
        self.completed.len() > 0
    }

    /// One line for each language, those that are complete first. `context`
    /// names the index the passes were over.
    pub fn log(&self, context: &str) -> (r: Vec<String>)
        ensures
            views(r@) == completed_lines(views(self.completed@), context@) + failed_lines(
                failures(self.failed@),
                context@,
            ),
    {
        let mut r: Vec<String> = Vec::new();
        let ghost done = completed_lines(views(self.completed@), context@);
        let ghost not = failed_lines(failures(self.failed@), context@);
        let mut i: usize = 0;
        proof {
            assert(views(r@) =~= done.take(0));
        }
        while i < self.completed.len()
            invariant
                i <= self.completed.len(),
                done == completed_lines(views(self.completed@), context@),
                views(r@) == done.take(i as int),
            decreases self.completed.len() - i,
        {
            let ghost before = views(r@);
            let mut line: String = "g-mesh: ".to_owned();
            line.append(self.completed[i].as_str());
            line.append(" semantic pass over ");
            line.append(context);
            line.append(" complete");
            r.push(line);
            proof {
                assert(line@ == done[i as int]);
                assert(views(r@) =~= before.push(line@));
                assert(done.take(i + 1) =~= before.push(done[i as int]));
            }
            i += 1;
        }
        proof {
            assert(done.take(i as int) =~= done);
            assert(views(r@) =~= done + not.take(0));
        }
        let mut k: usize = 0;
        while k < self.failed.len()
            invariant
                k <= self.failed.len(),
                not == failed_lines(failures(self.failed@), context@),
                views(r@) == done + not.take(k as int),
            decreases self.failed.len() - k,
        {
            let ghost before = views(r@);
            let mut line: String = "g-mesh: the ".to_owned();
            line.append(self.failed[k].0.as_str());
            line.append(" semantic pass over ");
            line.append(context);
            line.append(" failed (");
            line.append(self.failed[k].1.as_str());
            line.append(") - its edges keep whatever the structural pass resolved");
            r.push(line);
            proof {
                assert(line@ == not[k as int]);
                assert(views(r@) =~= before.push(line@));
                assert(not.take(k + 1) =~= not.take(k as int).push(not[k as int]));
                assert(done + not.take(k + 1) =~= before.push(not[k as int]));
            }
            k += 1;
        }
        proof {
            assert(not.take(k as int) =~= not);
        }
        r
    }
}

// ---------------------------------------------------------------------------
// The run
// ---------------------------------------------------------------------------
/// How asking a plugin for its pass ended.
#[derive(Clone, Debug)]
pub enum Passed {
    /// It ran to the end.
    Ran,
    /// It was not asked: it is asleep or suspended, and stays so.
    NotRun,
    /// It did not finish, for this reason.
    Failed { reason: String },
}

/// What a `Passed` says.
pub enum Outcome {
    Ran,
    NotRun,
    Failed(Seq<char>),
}

impl View for Passed {
    type V = Outcome;

    open spec fn view(&self) -> Outcome {
        match self {
            Passed::Ran => Outcome::Ran,
            Passed::NotRun => Outcome::NotRun,
            Passed::Failed { reason } => Outcome::Failed(reason@),
        }
    }
}

/// What a run waits for.
#[derive(Clone, Debug)]
pub enum PassStep {
    Spawning,
    Asking,
    ShuttingDown { passed: Passed },
    RecordingCompletion,
    RecordingReason,
    Reconciling,
    Over,
}

/// What a `PassStep` says.
pub enum Stand {
    Spawning,
    Asking,
    ShuttingDown(Outcome),
    RecordingCompletion,
    RecordingReason,
    Reconciling,
    Over,
}

impl View for PassStep {
    type V = Stand;

    open spec fn view(&self) -> Stand {
        match self {
            PassStep::Spawning => Stand::Spawning,
            PassStep::Asking => Stand::Asking,
            PassStep::ShuttingDown { passed } => Stand::ShuttingDown(passed@),
            PassStep::RecordingCompletion => Stand::RecordingCompletion,
            PassStep::RecordingReason => Stand::RecordingReason,
            PassStep::Reconciling => Stand::Reconciling,
            PassStep::Over => Stand::Over,
        }
    }
}

/// What is reported to a run.
#[derive(Clone, Debug)]
pub enum PassNews {
    /// The plugin has been started, or not, for this reason.
    Spawned { error: Option<String> },
    Asked { passed: Passed },
    /// The plugin has been shut down, cleanly or not.
    ShutDown,
    /// What was to be written has been written, or not, for this reason.
    Recorded { error: Option<String> },
}

/// What a `PassNews` says.
pub enum Report {
    Spawned(Option<Seq<char>>),
    Asked(Outcome),
    ShutDown,
    Recorded(Option<Seq<char>>),
}

impl View for PassNews {
    type V = Report;

    open spec fn view(&self) -> Report {
        match self {
            PassNews::Spawned { error } => Report::Spawned(opt_text(*error)),
            PassNews::Asked { passed } => Report::Asked(passed@),
            PassNews::ShutDown => Report::ShutDown,
            PassNews::Recorded { error } => Report::Recorded(opt_text(*error)),
        }
    }
}

/// What a run asks for.
#[derive(Clone, Debug)]
pub enum PassAct {
    /// Start this language's plugin, for this run alone, and record its pid.
    Spawn { language: String },
    /// Ask this language's plugin for its pass, starting it where that is
    /// needed.
    Ask { language: String },
    /// Shut this language's plugin down and remove its pid file.
    Shutdown { language: String },
    /// Record that this language's pass is complete.
    RecordCompletion { language: String },
    /// Record why this language still owes its pass.
    RecordReason { language: String, reason: String },
    /// Bring the record for the whole project up to date.
    Reconcile,
    /// The run is over.
    Finish,
}

/// What a `PassAct` says.
pub enum Wish {
    Spawn(Seq<char>),
    Ask(Seq<char>),
    Shutdown(Seq<char>),
    RecordCompletion(Seq<char>),
    RecordReason(Seq<char>, Seq<char>),
    Reconcile,
    Finish,
}

impl View for PassAct {
    type V = Wish;

    open spec fn view(&self) -> Wish {
        match self {
            PassAct::Spawn { language } => Wish::Spawn(language@),
            PassAct::Ask { language } => Wish::Ask(language@),
            PassAct::Shutdown { language } => Wish::Shutdown(language@),
            PassAct::RecordCompletion { language } => Wish::RecordCompletion(language@),
            PassAct::RecordReason { language, reason } => Wish::RecordReason(language@, reason@),
            PassAct::Reconcile => Wish::Reconcile,
            PassAct::Finish => Wish::Finish,
        }
    }
}

/// A run over the languages that owe a pass.
#[derive(Debug)]
pub struct PassRun {
    /// Whether each plugin is started for this run alone, and shut down after
    /// its pass.
    pub once: bool,
    pub owed: Vec<String>,
    /// Which of them is being asked.
    pub at: usize,
    pub step: PassStep,
    pub run: SemanticPassRun,
}

/// What a `PassRun` says.
pub struct Pass {
    pub once: bool,
    pub owed: Seq<Seq<char>>,
    pub at: nat,
    pub step: Stand,
    pub completed: Seq<Seq<char>>,
    pub failed: Seq<Failure>,
}

impl View for PassRun {
    type V = Pass;

    open spec fn view(&self) -> Pass {
        Pass {
            once: self.once,
            owed: views(self.owed@),
            at: self.at as nat,
            step: self.step@,
            completed: views(self.run.completed@),
            failed: failures(self.run.failed@),
        }
    }
}

/// Turns to the language at `p.at`, or to the project's record after the last.
pub open spec fn turned(p: Pass) -> (Pass, Wish) {
    if p.at >= p.owed.len() {
        (Pass { step: Stand::Reconciling, ..p }, Wish::Reconcile)
    } else if p.once {
        (Pass { step: Stand::Spawning, ..p }, Wish::Spawn(p.owed[p.at as int]))
    } else {
        (Pass { step: Stand::Asking, ..p }, Wish::Ask(p.owed[p.at as int]))
    }
}

/// The language at `p.at` failed, for this reason: that is kept and recorded.
pub open spec fn has_failed(p: Pass, reason: Seq<char>) -> (Pass, Wish) {
    let language = p.owed[p.at as int];
    (
        Pass {
            step: Stand::RecordingReason,
            failed: p.failed.push(Failure { language, reason }),
            ..p
        },
        Wish::RecordReason(language, reason),
    )
}

/// What is recorded of a pass that ended.
pub open spec fn concluded(p: Pass, outcome: Outcome) -> (Pass, Wish) {
    let language = p.owed[p.at as int];
    match outcome {
        Outcome::Ran => (
            Pass { step: Stand::RecordingCompletion, ..p },
            Wish::RecordCompletion(language),
        ),
        Outcome::NotRun => (
            Pass { step: Stand::RecordingReason, ..p },
            Wish::RecordReason(language, NOT_RUN_REASON@),
        ),
        Outcome::Failed(reason) => has_failed(p, reason),
    }
}

/// What a run makes of what is reported to it. A report it does not wait for
/// changes nothing.
pub open spec fn next_pass(p: Pass, report: Report) -> Option<(Pass, Wish)> {
    match (p.step, report) {
        (Stand::Spawning, Report::Spawned(error)) => match error {
            None => Some((Pass { step: Stand::Asking, ..p }, Wish::Ask(p.owed[p.at as int]))),
            Some(why) => Some(
                has_failed(
                    p,
                    "failed to start the "@ + p.owed[p.at as int] + " plugin: "@ + why,
                ),
            ),
        },
        (Stand::Asking, Report::Asked(outcome)) => if p.once {
            Some(
                (
                    Pass { step: Stand::ShuttingDown(outcome), ..p },
                    Wish::Shutdown(p.owed[p.at as int]),
                ),
            )
        } else {
            Some(concluded(p, outcome))
        },
        (Stand::ShuttingDown(outcome), Report::ShutDown) => Some(concluded(p, outcome)),
        (Stand::RecordingCompletion, Report::Recorded(error)) => match error {
            None => Some(
                turned(
                    Pass {
                        at: p.at + 1,
                        completed: p.completed.push(p.owed[p.at as int]),
                        ..p
                    },
                ),
            ),
            Some(why) => Some(has_failed(p, why)),
        },
        (Stand::RecordingReason, Report::Recorded(_)) => Some(turned(Pass { at: p.at + 1, ..p })),
        (Stand::Reconciling, Report::Recorded(_)) => Some(
            (Pass { step: Stand::Over, ..p }, Wish::Finish),
        ),
        _ => None,
    }
}

/// Whether a run is in order: it stands at one of the languages, unless it is
/// past the last.
pub open spec fn is_in_order(p: Pass) -> bool {
    if p.step is Reconciling || p.step is Over {
        p.at == p.owed.len()
    } else {
        p.at < p.owed.len()
    }
}

impl PassRun {
    pub open spec fn wf(self) -> bool {
        is_in_order(self@)
    }

    fn start(owed: Vec<String>, once: bool) -> (r: (Self, PassAct))
        ensures
            r.0.wf(),
            (r.0@, r.1@) == turned(
                Pass {
                    once,
                    owed: views(owed@),
                    at: 0,
                    step: Stand::Over,
                    completed: seq![],
                    failed: seq![],
                },
            ),
    {
        let mut run = PassRun { once, owed, at: 0, step: PassStep::Over, run: SemanticPassRun::default() };
        proof {
            assert(run@.completed =~= seq![]);
            assert(run@.failed =~= seq![]);
        }
        let act = run.turn();
        (run, act)
    }

    /// Starts a run with plugins that live on.
    pub fn run_with_registry(owed: Vec<String>) -> (r: (Self, PassAct))
        ensures
            r.0.wf(),
            (r.0@, r.1@) == turned(
                Pass {
                    once: false,
                    owed: views(owed@),
                    at: 0,
                    step: Stand::Over,
                    completed: seq![],
                    failed: seq![],
                },
            ),
    {
        Self::start(owed, false)
    }

    /// Starts a run with a plugin process of its own for each language.
    pub fn run_once(owed: Vec<String>) -> (r: (Self, PassAct))
        ensures
            r.0.wf(),
            (r.0@, r.1@) == turned(
                Pass {
                    once: true,
                    owed: views(owed@),
                    at: 0,
                    step: Stand::Over,
                    completed: seq![],
                    failed: seq![],
                },
            ),
    {
        Self::start(owed, true)
    }

    fn turn(&mut self) -> (r: PassAct)
        requires
            old(self)@.at <= old(self)@.owed.len(),
        ensures
            (final(self)@, r@) == turned(old(self)@),
            final(self).wf(),
    {
        if self.at >= self.owed.len() {
            self.step = PassStep::Reconciling;
            PassAct::Reconcile
        } else {
            proof {
                assert(self@.owed[self.at as int] == self.owed@[self.at as int]@);
            }
            let language = self.owed[self.at].clone();
            if self.once {
                self.step = PassStep::Spawning;
                PassAct::Spawn { language }
            } else {
                self.step = PassStep::Asking;
                PassAct::Ask { language }
            }
        }
    }

    fn record_failure(&mut self, reason: String) -> (r: PassAct)
        requires
            old(self)@.at < old(self)@.owed.len(),
        ensures
            (final(self)@, r@) == has_failed(old(self)@, reason@),
            final(self).wf(),
    {
        proof {
            assert(self@.owed[self.at as int] == self.owed@[self.at as int]@);
        }
        let language = self.owed[self.at].clone();
        let ghost before = self@.failed;
        self.run.failed.push((language.clone(), reason.clone()));
        self.step = PassStep::RecordingReason;
        proof {
            assert(self@.failed =~= before.push(Failure { language: language@, reason: reason@ }));
        }
        PassAct::RecordReason { language, reason }
    }

    fn conclude(&mut self, passed: Passed) -> (r: PassAct)
        requires
            old(self)@.at < old(self)@.owed.len(),
        ensures
            (final(self)@, r@) == concluded(old(self)@, passed@),
            final(self).wf(),
    {
        proof {
            assert(self@.owed[self.at as int] == self.owed@[self.at as int]@);
        }
        match passed {
            Passed::Ran => {
                self.step = PassStep::RecordingCompletion;
                PassAct::RecordCompletion { language: self.owed[self.at].clone() }
            },
            Passed::NotRun => {
                self.step = PassStep::RecordingReason;
                PassAct::RecordReason {
                    language: self.owed[self.at].clone(),
                    reason: NOT_RUN_REASON.to_owned(),
                }
            },
            Passed::Failed { reason } => self.record_failure(reason),
        }
    }

    /// Takes in what is reported, and says what the run asks for next; nothing
    /// where it does not wait for that.
    pub fn hear(&mut self, news: PassNews) -> (r: Option<PassAct>)
        requires
            old(self).wf(),
        ensures
            final(self).wf(),
            match next_pass(old(self)@, news@) {
                Some((p, wish)) => final(self)@ == p && r is Some && r->0@ == wish,
                None => final(self)@ == old(self)@ && r is None,
            },
    {
        let step = copy_step(&self.step);
        proof {
            assert(self.at <= self.owed.len());
        }
        match (step, news) {
            (PassStep::Spawning, PassNews::Spawned { error }) => {
                proof {
                    assert(self@.owed[self.at as int] == self.owed@[self.at as int]@);
                }
                match error {
                    None => {
                        self.step = PassStep::Asking;
                        Some(PassAct::Ask { language: self.owed[self.at].clone() })
                    },
                    Some(why) => {
                        let mut reason: String = "failed to start the ".to_owned();
                        reason.append(self.owed[self.at].as_str());
                        reason.append(" plugin: ");
                        reason.append(why.as_str());
                        Some(self.record_failure(reason))
                    },
                }
            },
            (PassStep::Asking, PassNews::Asked { passed }) => {
                if self.once {
                    proof {
                        assert(self@.owed[self.at as int] == self.owed@[self.at as int]@);
                    }
                    self.step = PassStep::ShuttingDown { passed };
                    Some(PassAct::Shutdown { language: self.owed[self.at].clone() })
                } else {
                    Some(self.conclude(passed))
                }
            },
            (PassStep::ShuttingDown { passed }, PassNews::ShutDown) => Some(self.conclude(passed)),
            (PassStep::RecordingCompletion, PassNews::Recorded { error }) => match error {
                None => {
                    proof {
                        assert(self@.owed[self.at as int] == self.owed@[self.at as int]@);
                    }
                    let ghost before = self@.completed;
                    let language = self.owed[self.at].clone();
                    self.run.completed.push(language);
                    proof {
                        assert(self@.completed =~= before.push(language@));
                    }
                    self.at = self.at + 1;
                    Some(self.turn())
                },
                Some(why) => Some(self.record_failure(why)),
            },
            (PassStep::RecordingReason, PassNews::Recorded { error: _ }) => {
                self.at = self.at + 1;
                Some(self.turn())
            },
            (PassStep::Reconciling, PassNews::Recorded { error: _ }) => {
                self.step = PassStep::Over;
                Some(PassAct::Finish)
            },
            _ => None,
        }
    }
}

fn copy_step(step: &PassStep) -> (r: PassStep)
    ensures
        r@ == step@,
{
    match step {
        PassStep::Spawning => PassStep::Spawning,
        PassStep::Asking => PassStep::Asking,
        PassStep::ShuttingDown { passed } => PassStep::ShuttingDown {
            passed: match passed {
                Passed::Ran => Passed::Ran,
                Passed::NotRun => Passed::NotRun,
                Passed::Failed { reason } => Passed::Failed { reason: reason.clone() },
            },
        },
        PassStep::RecordingCompletion => PassStep::RecordingCompletion,
        PassStep::RecordingReason => PassStep::RecordingReason,
        PassStep::Reconciling => PassStep::Reconciling,
        PassStep::Over => PassStep::Over,
    }
}

// ---------------------------------------------------------------------------
// Laws
// ---------------------------------------------------------------------------
/// Whether every language that is complete, and every one that failed, is one
/// that the run has come to.
pub open spec fn reports_what_was_asked(p: Pass) -> bool {
    let reached = if p.step is RecordingReason {
        p.at + 1
    } else {
        p.at
    };
    &&& reached <= p.owed.len()
    &&& forall|i: int|
        0 <= i < p.completed.len() ==> p.owed.take(p.at as int).contains(#[trigger] p.completed[i])
    &&& forall|i: int|
        0 <= i < p.failed.len() ==> p.owed.take(reached as int).contains(
            (#[trigger] p.failed[i]).language,
        )
}

proof fn lemma_take_grows(s: Seq<Seq<char>>, a: int, b: int, x: Seq<char>)
    requires
        0 <= a <= b <= s.len(),
        s.take(a).contains(x),
    ensures
        s.take(b).contains(x),
{
    let k = choose|k: int| 0 <= k < a && s.take(a)[k] == x;
    assert(s.take(b)[k] == x);
}

/// A run reports on no language that it has not asked, and a language that
/// fails keeps no other from being asked: the run only ends past the last one.
pub proof fn every_owed_language_gets_its_turn(p: Pass, report: Report)
    requires
        is_in_order(p),
        reports_what_was_asked(p),
        next_pass(p, report) is Some,
    ensures
        ({
            let (q, wish) = next_pass(p, report)->0;
            &&& is_in_order(q)
            &&& reports_what_was_asked(q)
            &&& q.owed == p.owed
            &&& p.at <= q.at <= p.at + 1
            &&& wish is Finish ==> q.at == q.owed.len()
            &&& wish matches Wish::Ask(language) ==> language == q.owed[q.at as int]
            &&& wish matches Wish::Spawn(language) ==> language == q.owed[q.at as int]
        }),
{
    let (q, wish) = next_pass(p, report)->0;
    let b = if q.step is RecordingReason {
        q.at + 1
    } else {
        q.at
    } as int;
    assert forall|i: int| 0 <= i < q.completed.len() implies q.owed.take(q.at as int).contains(
        #[trigger] q.completed[i],
    ) by {
        if i < p.completed.len() {
            assert(q.completed[i] == p.completed[i]);
            lemma_take_grows(p.owed, p.at as int, q.at as int, p.completed[i]);
        } else {
            assert(q.owed.take(q.at as int)[p.at as int] == q.completed[i]);
        }
    }
    assert forall|i: int| 0 <= i < q.failed.len() implies q.owed.take(b).contains(
        (#[trigger] q.failed[i]).language,
    ) by {
        if i < p.failed.len() {
            assert(q.failed[i] == p.failed[i]);
            let a = if p.step is RecordingReason {
                p.at + 1
            } else {
                p.at
            } as int;
            lemma_take_grows(p.owed, a, b, p.failed[i].language);
        } else {
            assert(q.owed.take(b)[p.at as int] == q.failed[i].language);
        }
    }
}

/// A plugin that was started for one pass is shut down whatever came of it:
/// from the pass there is no other way on.
pub proof fn a_plugin_of_one_pass_is_shut_down(p: Pass, outcome: Outcome)
    requires
        p.once,
        p.step is Asking,
    ensures
        next_pass(p, Report::Asked(outcome)) matches Some((q, wish)) && wish == Wish::Shutdown(
            p.owed[p.at as int],
        ) && q.completed == p.completed && q.failed == p.failed,
        forall|r: Report| #[trigger] next_pass(p, r) is Some ==> r is Asked,
{
}

/// A pass that was not run is neither complete nor failed: the language stays
/// owed, and the reason is recorded.
pub proof fn a_pass_that_was_not_run_stays_owed(p: Pass)
    ensures
        concluded(p, Outcome::NotRun).0.completed == p.completed,
        concluded(p, Outcome::NotRun).0.failed == p.failed,
        concluded(p, Outcome::NotRun).1 == Wish::RecordReason(p.owed[p.at as int], NOT_RUN_REASON@),
{
}

} // verus!
