//! How far a project's index has come, what a caller that needs it waits for,
//! and what is told to the outside meanwhile.
//!
//! The status is plain state: whoever shares it between threads decides how,
//! wakes those who wait after each change of phase, and writes the files that
//! a change asks for. Times are readings of one monotonic clock.

use vstd::prelude::*;
use vstd::string::*;

use crate::number::{decimal, decimal_text, digit_char};
use crate::text::opt_text;
use crate::time::Duration;

verus! {

/// The least time between two writes of the progress file for counters alone.
pub const PROGRESS_WRITE_INTERVAL: Duration = 500_000_000;

/// How far the index is.
#[derive(Clone, Debug, PartialEq, Eq)]
pub enum Phase {
    /// Nothing has asked for the index yet.
    Unindexed,
    /// The structural graph is being built.
    Walking,
    /// The structural graph is complete.
    StructuralGraph,
    /// The embeddings are being computed.
    Embedding,
    /// Everything is there.
    Ready,
    /// Building failed, for this reason.
    Failed(String),
}

/// What a `Phase` says.
pub enum Stage {
    Unindexed,
    Walking,
    StructuralGraph,
    Embedding,
    Ready,
    Failed(Seq<char>),
}

impl View for Phase {
    type V = Stage;

    open spec fn view(&self) -> Stage {
        match self {
            Phase::Unindexed => Stage::Unindexed,
            Phase::Walking => Stage::Walking,
            Phase::StructuralGraph => Stage::StructuralGraph,
            Phase::Embedding => Stage::Embedding,
            Phase::Ready => Stage::Ready,
            Phase::Failed(message) => Stage::Failed(message@),
        }
    }
}

impl Stage {
    /// The word for a phase.
    pub open spec fn word(self) -> Seq<char> {
        match self {
            Stage::Unindexed => "unindexed"@,
            Stage::Walking => "walking"@,
            Stage::StructuralGraph => "structural"@,
            Stage::Embedding => "embedding"@,
            Stage::Ready => "ready"@,
            Stage::Failed(_) => "failed"@,
        }
    }

    /// Whether the structural graph is complete.
    pub open spec fn is_structural(self) -> bool {
        self is StructuralGraph || self is Embedding || self is Ready
    }
}

impl Phase {
    /// The word for a phase.
    pub fn word(&self) -> (r: &'static str)
        ensures
            r@ == self@.word(),
    {
        match self {
            Phase::Unindexed => "unindexed",
            Phase::Walking => "walking",
            Phase::StructuralGraph => "structural",
            Phase::Embedding => "embedding",
            Phase::Ready => "ready",
            Phase::Failed(_) => "failed",
        }
    }

    fn copy(&self) -> (r: Phase)
        ensures
            r@ == self@,
    {
        match self {
            Phase::Unindexed => Phase::Unindexed,
            Phase::Walking => Phase::Walking,
            Phase::StructuralGraph => Phase::StructuralGraph,
            Phase::Embedding => Phase::Embedding,
            Phase::Ready => Phase::Ready,
            Phase::Failed(message) => Phase::Failed(message.clone()),
        }
    }
}

/// What a caller needs of the index.
#[derive(Clone, Copy, Debug, PartialEq, Eq, Structural)]
pub enum Need {
    StructuralGraph,
    Embeddings,
}

impl Need {
    /// Whether an index at this stage is enough.
    pub open spec fn met_by(self, stage: Stage) -> bool {
        match self {
            Need::StructuralGraph => stage.is_structural(),
            Need::Embeddings => stage is Ready,
        }
    }

    /// Whether an index in this phase is enough.
    pub fn satisfied_by(self, phase: &Phase) -> (r: bool)
        ensures
            r == self.met_by(phase@),
    {
        match self {
            Need::StructuralGraph => matches!(phase, Phase::StructuralGraph | Phase::Embedding | Phase::Ready),
            Need::Embeddings => matches!(phase, Phase::Ready),
        }
    }
}

/// How waiting for the index ended.
#[derive(Clone, Debug, PartialEq, Eq)]
pub enum WaitOutcome {
    Satisfied,
    Failed(String),
    TimedOut,
}

/// What a waiting caller does next.
#[derive(Clone, Debug, PartialEq, Eq)]
pub enum WaitStep {
    /// The wait is over.
    Done(WaitOutcome),
    /// Wait for the next change of phase, at most for this long.
    Wait { at_most: Option<Duration> },
}

/// One reading of the clocks, and the process that takes it.
#[derive(Clone, Copy, Debug, PartialEq, Eq)]
pub struct Moment {
    /// The monotonic clock.
    pub now: Duration,
    /// The wall clock, in milliseconds since the epoch.
    pub wall_ms: u64,
    pub pid: u32,
}

#[derive(Clone, Debug, PartialEq, Eq)]
pub struct WalkProgress {
    pub languages_done: u32,
    pub languages_total: u32,
    pub current_language: Option<String>,
    pub items: u64,
}

#[derive(Clone, Debug, PartialEq, Eq)]
pub struct SemanticProgress {
    pub languages_done: u32,
    pub languages_total: u32,
    pub current_language: Option<String>,
}

#[derive(Clone, Copy, Debug, PartialEq, Eq)]
pub struct EmbedProgress {
    pub done: u64,
    pub total: u64,
}

/// What the progress file says.
#[derive(Clone, Debug, PartialEq, Eq)]
pub struct ProgressSnapshot {
    pub pid: u32,
    pub updated_at_ms: u64,
    pub phase: String,
    pub walk: WalkProgress,
    pub semantic: SemanticProgress,
    pub embeddings: EmbedProgress,
}

/// What has to be written after a change: the phase file, the progress file,
/// both or neither, each with its path.
#[derive(Clone, Debug)]
pub struct Writes {
    pub phase: Option<(String, String)>,
    pub progress: Option<(String, ProgressSnapshot)>,
}

/// The state of a project's index.
#[derive(Clone, Debug)]
pub struct IndexingStatus {
    pub phase: Phase,
    pub phase_since: Duration,
    pub items_ingested: u64,
    pub languages_done: u32,
    pub languages_total: u32,
    pub current_language: Option<String>,
    pub embed_done: u64,
    pub embed_total: u64,
    pub semantic_done: u32,
    pub semantic_total: u32,
    pub current_semantic_language: Option<String>,
    pub phase_file: Option<String>,
    pub progress_file: Option<String>,
    pub progress_interval: Duration,
    pub last_progress_write: Option<Duration>,
    /// Whether someone is there to be told that the index is wanted.
    pub trigger_attached: bool,
    /// Whether it has been asked for and has not failed since.
    pub requested: bool,
}

/// What an `IndexingStatus` says.
pub struct State {
    pub stage: Stage,
    pub since: Duration,
    pub items: u64,
    pub languages_done: u32,
    pub languages_total: u32,
    pub language: Option<Seq<char>>,
    pub embed_done: u64,
    pub embed_total: u64,
    pub semantic_done: u32,
    pub semantic_total: u32,
    pub semantic_language: Option<Seq<char>>,
    pub phase_file: Option<Seq<char>>,
    pub progress_file: Option<Seq<char>>,
    pub interval: Duration,
    pub last_write: Option<Duration>,
    pub attached: bool,
    pub requested: bool,
}

impl View for IndexingStatus {
    type V = State;

    open spec fn view(&self) -> State {
        State {
            stage: self.phase@,
            since: self.phase_since,
            items: self.items_ingested,
            languages_done: self.languages_done,
            languages_total: self.languages_total,
            language: opt_text(self.current_language),
            embed_done: self.embed_done,
            embed_total: self.embed_total,
            semantic_done: self.semantic_done,
            semantic_total: self.semantic_total,
            semantic_language: opt_text(self.current_semantic_language),
            phase_file: opt_text(self.phase_file),
            progress_file: opt_text(self.progress_file),
            interval: self.progress_interval,
            last_write: self.last_progress_write,
            attached: self.trigger_attached,
            requested: self.requested,
        }
    }
}

impl State {
    /// The status of a project before anything has happened.
    pub open spec fn fresh(stage: Stage, now: Duration) -> State {
        State {
            stage,
            since: now,
            items: 0,
            languages_done: 0,
            languages_total: 0,
            language: None,
            embed_done: 0,
            embed_total: 0,
            semantic_done: 0,
            semantic_total: 0,
            semantic_language: None,
            phase_file: None,
            progress_file: None,
            interval: 0,
            last_write: None,
            attached: false,
            requested: false,
        }
    }

    /// Whether the progress file is to be written now: always where that is
    /// forced, else unless it was written less than an interval ago.
    pub open spec fn due(self, force: bool, now: Duration) -> bool {
        self.progress_file is Some && (force || match self.last_write {
            Some(last) => now - last >= self.interval || (now < last && self.interval == 0),
            None => true,
        })
    }

    /// The status after the progress file was written, if it was to be.
    pub open spec fn published(self, force: bool, now: Duration) -> State {
        if self.due(force, now) {
            State { last_write: Some(now), ..self }
        } else {
            self
        }
    }

    /// The status after a change of phase.
    pub open spec fn in_phase(self, stage: Stage, now: Duration) -> State {
        State { stage, since: now, ..self }.published(true, now)
    }

    /// Whether asking for the index starts something.
    pub open spec fn activates(self) -> bool {
        self.attached && !self.requested
    }

    /// The status after the index was asked for.
    pub open spec fn asked(self, now: Duration) -> State {
        if !self.activates() {
            self
        } else {
            let s = State { requested: true, ..self };
            if self.stage is Unindexed || self.stage is Failed {
                s.in_phase(Stage::Walking, now)
            } else {
                s
            }
        }
    }

    /// The status after building the index failed.
    pub open spec fn failed(self, message: Seq<char>, now: Duration) -> State {
        State { requested: false, ..self.in_phase(Stage::Failed(message), now) }
    }
}

impl ProgressSnapshot {
    /// Whether this reports the status `s`.
    pub open spec fn reports(self, s: State, at: Moment) -> bool {
        &&& self.pid == at.pid
        &&& self.updated_at_ms == at.wall_ms
        &&& self.phase@ == s.stage.word()
        &&& self.walk.languages_done == s.languages_done
        &&& self.walk.languages_total == s.languages_total
        &&& opt_text(self.walk.current_language) == s.language
        &&& self.walk.items == s.items
        &&& self.semantic.languages_done == s.semantic_done
        &&& self.semantic.languages_total == s.semantic_total
        &&& opt_text(self.semantic.current_language) == s.semantic_language
        &&& self.embeddings.done == s.embed_done
        &&& self.embeddings.total == s.embed_total
    }
}

/// Whether `w` writes the progress of `s` where that is due, and only there.
pub open spec fn writes_progress(
    w: Option<(String, ProgressSnapshot)>,
    s: State,
    force: bool,
    at: Moment,
) -> bool {
    match w {
        Some((path, snapshot)) => s.due(force, at.now) && s.progress_file == Some(path@)
            && snapshot.reports(s, at),
        None => !s.due(force, at.now),
    }
}

/// Whether `w` writes the word for the phase of `s` to the phase file, where
/// there is one.
pub open spec fn writes_phase(w: Option<(String, String)>, s: State) -> bool {
    match w {
        Some((path, word)) => s.phase_file == Some(path@) && word@ == s.stage.word(),
        None => s.phase_file is None,
    }
}

fn copy_opt(s: &Option<String>) -> (r: Option<String>)
    ensures
        opt_text(r) == opt_text(*s),
{
    match s {
        Some(t) => Some(t.clone()),
        None => None,
    }
}

impl IndexingStatus {
    fn starting_at(phase: Phase, now: Duration) -> (r: Self)
        ensures
            r@ == State::fresh(phase@, now),
    {
        IndexingStatus {
            phase,
            phase_since: now,
            items_ingested: 0,
            languages_done: 0,
            languages_total: 0,
            current_language: None,
            embed_done: 0,
            embed_total: 0,
            semantic_done: 0,
            semantic_total: 0,
            current_semantic_language: None,
            phase_file: None,
            progress_file: None,
            progress_interval: 0,
            last_progress_write: None,
            trigger_attached: false,
            requested: false,
        }
    }

    /// A project that owes a walk nobody has asked for.
    pub fn unindexed(now: Duration) -> (r: Self)
        ensures
            r@ == State::fresh(Stage::Unindexed, now),
    {
        Self::starting_at(Phase::Unindexed, now)
    }

    /// A project that is being walked.
    pub fn walking(now: Duration) -> (r: Self)
        ensures
            r@ == State::fresh(Stage::Walking, now),
    {
        Self::starting_at(Phase::Walking, now)
    }

    /// A project whose walk is complete.
    pub fn structural(now: Duration) -> (r: Self)
        ensures
            r@ == State::fresh(Stage::StructuralGraph, now),
    {
        Self::starting_at(Phase::StructuralGraph, now)
    }

    /// The phase.
    pub fn phase(&self) -> (r: Phase)
        ensures
            r@ == self@.stage,
    {
        self.phase.copy()
    }

    /// When the phase last changed.
    pub fn phase_since(&self) -> (r: Duration)
        ensures
            r == self@.since,
    {
        self.phase_since
    }

    /// All of the progress, as one account.
    pub fn progress_snapshot(&self, at: Moment) -> (r: ProgressSnapshot)
        ensures
            r.reports(self@, at),
    {
        ProgressSnapshot {
            pid: at.pid,
            updated_at_ms: at.wall_ms,
            phase: self.phase.word().to_owned(),
            walk: WalkProgress {
                languages_done: self.languages_done,
                languages_total: self.languages_total,
                current_language: copy_opt(&self.current_language),
                items: self.items_ingested,
            },
            semantic: SemanticProgress {
                languages_done: self.semantic_done,
                languages_total: self.semantic_total,
                current_language: copy_opt(&self.current_semantic_language),
            },
            embeddings: EmbedProgress { done: self.embed_done, total: self.embed_total },
        }
    }

    /// What the phase file has to say.
    fn publish_phase_file(&self) -> (r: Option<(String, String)>)
        ensures
            writes_phase(r, self@),
    {
        match &self.phase_file {
            Some(path) => Some((path.clone(), self.phase.word().to_owned())),
            None => None,
        }
    }

    /// What the progress file has to say, if it is to be written now.
    fn publish_progress(&mut self, force: bool, at: Moment) -> (r: Option<(String, ProgressSnapshot)>)
        ensures
            final(self)@ == old(self)@.published(force, at.now),
            writes_progress(r, old(self)@, force, at),
    {
        let path: String = match &self.progress_file {
            Some(path) => path.clone(),
            None => {
                return None;
            },
        };
        if !force {
            match self.last_progress_write {
                Some(last) => {
                    let elapsed: Duration = if at.now >= last {
                        at.now - last
                    } else {
                        0
                    };
                    if elapsed < self.progress_interval {
                        return None;
                    }
                },
                None => {},
            }
        }
        let snapshot = self.progress_snapshot(at);
        self.last_progress_write = Some(at.now);
        Some((path, snapshot))
    }

    /// Moves to a phase. Those who wait have to be woken.
    pub fn set_phase(&mut self, phase: Phase, at: Moment) -> (r: Writes)
        ensures
            final(self)@ == old(self)@.in_phase(phase@, at.now),
            writes_phase(r.phase, final(self)@),
            writes_progress(
                r.progress,
                (State { stage: phase@, since: at.now, ..old(self)@ }),
                true,
                at,
            ),
    {
        self.phase = phase;
        self.phase_since = at.now;
        let phase_write = self.publish_phase_file();
        let progress = self.publish_progress(true, at);
        Writes { phase: phase_write, progress }
    }

    /// What a caller does that waits until the index is as far as it needs. It
    /// is asked again after each change of phase; `timed_out` says that the
    /// last wait ended without one.
    pub fn wait_for(&self, need: Need, deadline: Option<Duration>, now: Duration, timed_out: bool) -> (r:
        WaitStep)
        ensures
            timed_out ==> r == WaitStep::Done(WaitOutcome::TimedOut),
            !timed_out ==> match self@.stage {
                Stage::Failed(message) => r matches WaitStep::Done(WaitOutcome::Failed(m)) && m@ == message,
                stage => if need.met_by(stage) {
                    r == WaitStep::Done(WaitOutcome::Satisfied)
                } else {
                    match deadline {
                        Some(d) => if d <= now {
                            r == WaitStep::Done(WaitOutcome::TimedOut)
                        } else {
                            r == (WaitStep::Wait { at_most: Some((d - now) as Duration) })
                        },
                        None => r == (WaitStep::Wait { at_most: None }),
                    }
                },
            },
    {
        if timed_out {
            return WaitStep::Done(WaitOutcome::TimedOut);
        }
        match &self.phase {
            Phase::Failed(message) => {
                return WaitStep::Done(WaitOutcome::Failed(message.clone()));
            },
            phase => {
                if need.satisfied_by(phase) {
                    return WaitStep::Done(WaitOutcome::Satisfied);
                }
            },
        }
        match deadline {
            Some(d) => {
                if d <= now {
                    WaitStep::Done(WaitOutcome::TimedOut)
                } else {
                    WaitStep::Wait { at_most: Some(d - now) }
                }
            },
            None => WaitStep::Wait { at_most: None },
        }
    }

    /// From now on someone is there to be told that the index is wanted.
    pub fn attach_activation(&mut self)
        ensures
            final(self)@ == (State { attached: true, ..old(self)@ }),
    {
        self.trigger_attached = true;
    }

    /// From now on the phase is also told in a file, this one first.
    pub fn attach_phase_file(&mut self, path: String) -> (r: Option<(String, String)>)
        ensures
            final(self)@ == (State { phase_file: Some(path@), ..old(self)@ }),
            writes_phase(r, final(self)@),
    {
        self.phase_file = Some(path);
        self.publish_phase_file()
    }

    /// From now on the progress is also told in a file, at the usual pace.
    pub fn attach_progress_file(&mut self, path: String, at: Moment) -> (r: Option<
        (String, ProgressSnapshot),
    >)
        ensures
            ({
                let s = State {
                    progress_file: Some(path@),
                    interval: PROGRESS_WRITE_INTERVAL,
                    ..old(self)@
                };
                final(self)@ == s.published(true, at.now) && writes_progress(r, s, true, at)
            }),
    {
        self.attach_progress_file_every(path, PROGRESS_WRITE_INTERVAL, at)
    }

    /// From now on the progress is also told in a file, for counters alone at
    /// most once in an interval.
    pub fn attach_progress_file_every(&mut self, path: String, interval: Duration, at: Moment) -> (r:
        Option<(String, ProgressSnapshot)>)
        ensures
            ({
                let s = State { progress_file: Some(path@), interval, ..old(self)@ };
                final(self)@ == s.published(true, at.now) && writes_progress(r, s, true, at)
            }),
    {
        self.progress_file = Some(path);
        self.progress_interval = interval;
        self.publish_progress(true, at)
    }

    /// Asks for the index. True if this starts building it: someone has to be
    /// told, and was not told before, or building has failed since.
    pub fn request_activation(&mut self, at: Moment) -> (r: (bool, Option<Writes>))
        ensures
            r.0 == old(self)@.activates(),
            final(self)@ == old(self)@.asked(at.now),
            match r.1 {
                Some(w) => r.0 && (old(self)@.stage is Unindexed || old(self)@.stage is Failed)
                    && writes_phase(w.phase, final(self)@) && writes_progress(
                    w.progress,
                    (State { requested: true, stage: Stage::Walking, since: at.now, ..old(self)@ }),
                    true,
                    at,
                ),
                None => !r.0 || !(old(self)@.stage is Unindexed || old(self)@.stage is Failed),
            },
    {
        if self.requested || !self.trigger_attached {
            return (false, None);
        }
        self.requested = true;
        let starts = matches!(self.phase, Phase::Unindexed | Phase::Failed(_));
        if starts {
            let w = self.set_phase(Phase::Walking, at);
            (true, Some(w))
        } else {
            (true, None)
        }
    }

    /// Building the index failed: that is the phase, and the next request
    /// starts it again.
    pub fn activation_failed(&mut self, message: String, at: Moment) -> (r: Writes)
        ensures
            final(self)@ == old(self)@.failed(message@, at.now),
            writes_phase(r.phase, final(self)@),
            writes_progress(
                r.progress,
                (State { stage: Stage::Failed(message@), since: at.now, ..old(self)@ }),
                true,
                at,
            ),
    {
        let w = self.set_phase(Phase::Failed(message), at);
        self.requested = false;
        w
    }

    /// A walk over this many languages begins.
    pub fn start_walk_progress(&mut self, languages_total: u32, at: Moment) -> (r: Option<
        (String, ProgressSnapshot),
    >)
        ensures
            ({
                let s = State {
                    items: 0,
                    languages_done: 0,
                    languages_total,
                    language: None,
                    ..old(self)@
                };
                final(self)@ == s.published(true, at.now) && writes_progress(r, s, true, at)
            }),
    {
        self.items_ingested = 0;
        self.languages_done = 0;
        self.languages_total = languages_total;
        self.current_language = None;
        self.publish_progress(true, at)
    }

    /// The walk has taken in `count` more nodes and edges.
    pub fn add_items_ingested(&mut self, count: u64, at: Moment) -> (r: Option<(String, ProgressSnapshot)>)
        ensures
            ({
                let s = State { items: wrapping_sum(old(self)@.items, count), ..old(self)@ };
                final(self)@ == s.published(false, at.now) && writes_progress(r, s, false, at)
            }),
    {
        self.items_ingested = self.items_ingested.wrapping_add(count);
        self.publish_progress(false, at)
    }

    pub fn items_ingested(&self) -> (r: u64)
        ensures
            r == self@.items,
    {
        self.items_ingested
    }

    /// The walk has come to a language.
    pub fn mark_language_started(&mut self, language: &str, at: Moment) -> (r: Option<
        (String, ProgressSnapshot),
    >)
        ensures
            ({
                let s = State { language: Some(language@), ..old(self)@ };
                final(self)@ == s.published(true, at.now) && writes_progress(r, s, true, at)
            }),
    {
        self.current_language = Some(language.to_owned());
        self.publish_progress(true, at)
    }

    /// The walk is done with a language.
    pub fn mark_language_done(&mut self, at: Moment) -> (r: Option<(String, ProgressSnapshot)>)
        ensures
            ({
                let s = State { languages_done: next_count(old(self)@.languages_done), ..old(self)@ };
                final(self)@ == s.published(true, at.now) && writes_progress(r, s, true, at)
            }),
    {
        self.languages_done = self.languages_done.wrapping_add(1);
        self.publish_progress(true, at)
    }

    /// How many languages are walked, of how many, and which one is next.
    pub fn language_progress(&self) -> (r: (u32, u32, Option<String>))
        ensures
            r.0 == self@.languages_done,
            r.1 == self@.languages_total,
            opt_text(r.2) == self@.language,
    {
        (self.languages_done, self.languages_total, copy_opt(&self.current_language))
    }

    /// This many nodes need an embedding.
    pub fn set_embed_total(&mut self, total: u64, at: Moment) -> (r: Option<(String, ProgressSnapshot)>)
        ensures
            ({
                let s = State { embed_done: 0, embed_total: total, ..old(self)@ };
                final(self)@ == s.published(true, at.now) && writes_progress(r, s, true, at)
            }),
    {
        self.embed_done = 0;
        self.embed_total = total;
        self.publish_progress(true, at)
    }

    /// `count` more nodes have an embedding.
    pub fn add_embed_done(&mut self, count: u64, at: Moment) -> (r: Option<(String, ProgressSnapshot)>)
        ensures
            ({
                let s = State { embed_done: wrapping_sum(old(self)@.embed_done, count), ..old(self)@ };
                final(self)@ == s.published(false, at.now) && writes_progress(r, s, false, at)
            }),
    {
        self.embed_done = self.embed_done.wrapping_add(count);
        self.publish_progress(false, at)
    }

    pub fn embed_progress(&self) -> (r: (u64, u64))
        ensures
            r.0 == self@.embed_done,
            r.1 == self@.embed_total,
    {
        (self.embed_done, self.embed_total)
    }

    /// Semantic passes over this many languages begin.
    pub fn start_semantic_progress(&mut self, languages_total: u32, at: Moment) -> (r: Option<
        (String, ProgressSnapshot),
    >)
        ensures
            ({
                let s = State {
                    semantic_done: 0,
                    semantic_total: languages_total,
                    semantic_language: None,
                    ..old(self)@
                };
                final(self)@ == s.published(true, at.now) && writes_progress(r, s, true, at)
            }),
    {
        self.semantic_done = 0;
        self.semantic_total = languages_total;
        self.current_semantic_language = None;
        self.publish_progress(true, at)
    }

    /// The semantic pass of a language begins.
    pub fn mark_semantic_language_started(&mut self, language: &str, at: Moment) -> (r: Option<
        (String, ProgressSnapshot),
    >)
        ensures
            ({
                let s = State { semantic_language: Some(language@), ..old(self)@ };
                final(self)@ == s.published(true, at.now) && writes_progress(r, s, true, at)
            }),
    {
        self.current_semantic_language = Some(language.to_owned());
        self.publish_progress(true, at)
    }

    /// The semantic pass of the current language is over, and no language is
    /// current.
    pub fn mark_semantic_language_done(&mut self, at: Moment) -> (r: Option<(String, ProgressSnapshot)>)
        ensures
            ({
                let s = State {
                    semantic_done: next_count(old(self)@.semantic_done),
                    semantic_language: None,
                    ..old(self)@
                };
                final(self)@ == s.published(true, at.now) && writes_progress(r, s, true, at)
            }),
    {
        self.semantic_done = self.semantic_done.wrapping_add(1);
        self.current_semantic_language = None;
        self.publish_progress(true, at)
    }

    /// One line on how far the index is.
    pub fn progress_message(&self, root: &str) -> (r: String)
        ensures
            r@ == "indexing "@ + root@ + ": "@ + self@.detail(),
    {
        let mut r: String = "indexing ".to_owned();
        r.append(root);
        r.append(": ");
        r.append(self.progress_detail().as_str());
        r
    }

    /// How far the index is, without the project's name.
    pub fn progress_detail(&self) -> (r: String)
        ensures
            r@ == self@.detail(),
    {
        match &self.phase {
            Phase::Unindexed => "starting".to_owned(),
            Phase::Walking => {
                let items = group_thousands(self.items_ingested);
                let mut r: String;
                if self.languages_total > 0 && self.languages_done >= self.languages_total {
                    r = "linking imports and symbols (".to_owned();
                    r.append(items.as_str());
                    r.append(" nodes and edges walked)");
                } else if self.languages_total > 0 {
                    r = "walking ".to_owned();
                    match &self.current_language {
                        Some(language) => {
                            r.append(language.as_str());
                        },
                        None => {
                            r.append("the first language");
                        },
                    }
                    r.append(" (");
                    r.append(decimal_text(self.languages_done as u128).as_str());
                    r.append("/");
                    r.append(decimal_text(self.languages_total as u128).as_str());
                    r.append(" languages done), ");
                    r.append(items.as_str());
                    r.append(" nodes and edges so far");
                } else {
                    r = "walking, ".to_owned();
                    r.append(items.as_str());
                    r.append(" nodes and edges so far");
                }
                r
            },
            Phase::StructuralGraph => "structural index built, embedding pass not started yet".to_owned(),
            Phase::Embedding => {
                if self.embed_total == 0 {
                    "embeddings: counting what needs embedding".to_owned()
                } else {
                    let mut r: String = "embeddings ".to_owned();
                    r.append(group_thousands(self.embed_done).as_str());
                    r.append("/");
                    r.append(group_thousands(self.embed_total).as_str());
                    r
                }
            },
            Phase::Ready => "ready".to_owned(),
            Phase::Failed(message) => {
                let mut r: String = "failed: ".to_owned();
                r.append(message.as_str());
                r
            },
        }
    }
}

/// The sum of two counters, as a counter that starts over past its largest
/// value.
pub open spec fn wrapping_sum(a: u64, b: u64) -> u64 {
    ((a + b) % 0x1_0000_0000_0000_0000) as u64
}

/// The count after `n`, in a counter that starts over past its largest value.
pub open spec fn next_count(n: u32) -> u32 {
    if n == u32::MAX {
        0
    } else {
        (n + 1) as u32
    }
}

impl State {
    /// How far the index is, in words.
    pub open spec fn detail(self) -> Seq<char> {
        match self.stage {
            Stage::Unindexed => "starting"@,
            Stage::Walking => if self.languages_total > 0 && self.languages_done >= self.languages_total {
                "linking imports and symbols ("@ + grouped(self.items as nat)
                    + " nodes and edges walked)"@
            } else if self.languages_total > 0 {
                "walking "@ + (match self.language {
                    Some(language) => language,
                    None => "the first language"@,
                }) + " ("@ + decimal(self.languages_done as nat) + "/"@ + decimal(
                    self.languages_total as nat,
                ) + " languages done), "@ + grouped(self.items as nat) + " nodes and edges so far"@
            } else {
                "walking, "@ + grouped(self.items as nat) + " nodes and edges so far"@
            },
            Stage::StructuralGraph => "structural index built, embedding pass not started yet"@,
            Stage::Embedding => if self.embed_total == 0 {
                "embeddings: counting what needs embedding"@
            } else {
                "embeddings "@ + grouped(self.embed_done as nat) + "/"@ + grouped(self.embed_total as nat)
            },
            Stage::Ready => "ready"@,
            Stage::Failed(message) => "failed: "@ + message,
        }
    }
}

/// The three digits of a number below a thousand.
pub open spec fn three_digits(n: nat) -> Seq<char> {
    seq![digit_char(n / 100), digit_char(n / 10 % 10), digit_char(n % 10)]
}

/// `n` in decimal, with a comma before every group of three digits that others
/// precede.
pub open spec fn grouped(n: nat) -> Seq<char>
    decreases n,
{
    if n < 1000 {
        decimal(n)
    } else {
        grouped(n / 1000) + ","@ + three_digits(n % 1000)
    }
}

/// `n` in decimal, its digits in groups of three.
pub fn group_thousands(n: u64) -> (r: String)
    ensures
        r@ == grouped(n as nat),
    decreases n,
{
    if n < 1000 {
        decimal_text(n as u128)
    } else {
        let mut r = group_thousands(n / 1000);
        let last: u64 = n % 1000;
        r.append(",");
        let ghost before = r@;
        r.push((48 + (last / 100) as u8) as char);
        r.push((48 + (last / 10 % 10) as u8) as char);
        r.push((48 + (last % 10) as u8) as char);
        proof {
            assert(r@ =~= before + three_digits(last as nat));
        }
        r
    }
}

// ---------------------------------------------------------------------------
// Laws
// ---------------------------------------------------------------------------
/// `s` without its commas.
pub open spec fn without_commas(s: Seq<char>) -> Seq<char>
    decreases s.len(),
{
    if s.len() == 0 {
        s
    } else if s.last() == ',' {
        without_commas(s.drop_last())
    } else {
        without_commas(s.drop_last()).push(s.last())
    }
}

proof fn lemma_without_commas_appended(a: Seq<char>, b: Seq<char>)
    ensures
        without_commas(a + b) == without_commas(a) + without_commas(b),
    decreases b.len(),
{
    if b.len() == 0 {
        assert(a + b =~= a);
        assert(without_commas(a) + without_commas(b) =~= without_commas(a));
    } else {
        assert((a + b).drop_last() =~= a + b.drop_last());
        assert((a + b).last() == b.last());
        lemma_without_commas_appended(a, b.drop_last());
        assert(without_commas(a + b) =~= without_commas(a) + without_commas(b));
    }
}

proof fn lemma_digits_have_no_commas(s: Seq<char>)
    requires
        crate::number::all_digits(s),
    ensures
        without_commas(s) == s,
    decreases s.len(),
{
    if s.len() > 0 {
        assert(crate::number::is_digit(s[s.len() - 1]));
        assert forall|i: int| 0 <= i < s.drop_last().len() implies crate::number::is_digit(
            #[trigger] s.drop_last()[i],
        ) by {
            assert(crate::number::is_digit(s[i]));
        }
        lemma_digits_have_no_commas(s.drop_last());
        assert(s.drop_last().push(s.last()) =~= s);
    }
}

/// Grouping adds commas and changes nothing else.
pub proof fn grouping_only_adds_commas(n: nat)
    ensures
        without_commas(grouped(n)) == decimal(n),
    decreases n,
{
    if n < 1000 {
        crate::number::lemma_decimal(n);
        lemma_digits_have_no_commas(decimal(n));
    } else {
        grouping_only_adds_commas(n / 1000);
        let last = three_digits(n % 1000);
        reveal_strlit(",");
        assert(","@ =~= seq![',']);
        assert(without_commas(","@) =~= seq![]) by {
            let none = ","@.drop_last();
            assert(none.len() == 0);
            assert(without_commas(none) == none);
        }
        lemma_without_commas_appended(grouped(n / 1000) + ","@, last);
        lemma_without_commas_appended(grouped(n / 1000), ","@);
        assert(crate::number::all_digits(last));
        lemma_digits_have_no_commas(last);
        assert(n / 10 / 10 / 10 == n / 1000);
        assert(n % 1000 / 100 == n / 100 % 10) by (nonlinear_arith)
            requires
                n >= 0,
        ;
        assert(n % 1000 / 10 % 10 == n / 10 % 10) by (nonlinear_arith)
            requires
                n >= 0,
        ;
        assert(n % 1000 % 10 == n % 10);
        assert(n / 10 / 10 % 10 == n / 100 % 10);
        assert(decimal(n) == decimal(n / 10).push(digit_char(n % 10)));
        assert(decimal(n / 10) == decimal(n / 10 / 10).push(digit_char(n / 10 % 10)));
        assert(decimal(n / 10 / 10) == decimal(n / 10 / 10 / 10).push(digit_char(n / 10 / 10 % 10)));
        assert(without_commas(grouped(n)) =~= decimal(n));
    }
}

/// The index is built once: a request that starts it is the only one that does
/// until building fails, and after that the next request starts it again.
pub proof fn only_the_first_request_activates(s: State, message: Seq<char>, now: Duration, later: Duration)
    requires
        s.activates(),
    ensures
        !s.asked(now).activates(),
        s.asked(now).asked(later) == s.asked(now),
        s.asked(now).failed(message, later).activates(),
        s.asked(now).failed(message, later).stage == Stage::Failed(message),
{
}

/// A request never takes back what has been built: it leaves an index that is
/// at least structural in its phase.
pub proof fn a_request_keeps_a_built_index(s: State, now: Duration)
    requires
        s.stage.is_structural(),
    ensures
        s.asked(now).stage == s.stage,
{
}

/// An index that is enough for embeddings is enough for everything.
pub proof fn embeddings_need_a_structural_index(stage: Stage)
    requires
        Need::Embeddings.met_by(stage),
    ensures
        Need::StructuralGraph.met_by(stage),
{
}

/// Every change of phase is told at once: whatever was held back before, the
/// progress file is written, if there is one.
pub proof fn a_change_of_phase_is_never_held_back(s: State, stage: Stage, now: Duration)
    requires
        s.progress_file is Some,
    ensures
        (State { stage, since: now, ..s }).due(true, now),
        s.in_phase(stage, now).last_write == Some(now),
{
}

/// Counters alone are held back until an interval has passed since the last
/// write.
pub proof fn counters_are_held_back(s: State, now: Duration)
    requires
        s.progress_file is Some,
        s.last_write matches Some(last) && last <= now,
    ensures
        s.due(false, now) <==> now - s.last_write->0 >= s.interval,
{
}

} // verus!
