//! What holds of the status of an index: of its phases, of what is published of
//! them and of the numbers in it.

use vstd::prelude::*;

use crate::indexing_status::{
    Moment, Need, ProgressSnapshot, Stage, State, grouped, next_count, three_digits, wrapping_sum,
    writes_phase, writes_progress,
};
use crate::number::{decimal, is_digit, lemma_decimal};
use crate::text::opt_text;
use crate::time::Duration;

verus! {

// ---------------------------------------------------------------------------
// Phases
// ---------------------------------------------------------------------------
/// How far along a phase is; one that failed is nowhere.
pub open spec fn rank(stage: Stage) -> int {
    match stage {
        Stage::Failed(_) => -1,
        Stage::Unindexed => 0,
        Stage::Walking => 1,
        Stage::StructuralGraph => 2,
        Stage::Embedding => 3,
        Stage::Ready => 4,
    }
}

/// A need is met from some phase on and stays met in every later one: what
/// needs the graph from the structural graph on, what needs the embeddings only
/// in an index that is ready.
pub proof fn a_need_is_met_from_some_phase_on(stage: Stage, later: Stage, need: Need)
    ensures
        Need::StructuralGraph.met_by(stage) <==> rank(stage) >= 2,
        Need::Embeddings.met_by(stage) <==> rank(stage) >= 4,
        need.met_by(stage) && rank(stage) <= rank(later) ==> need.met_by(later),
{
}

/// Each phase has a word of its own.
pub proof fn each_phase_has_its_own_word(one: Stage, other: Stage)
    ensures
        one.word() == other.word() <==> rank(one) == rank(other),
        one.word() == "unindexed"@ <==> one is Unindexed,
        one.word() == "walking"@ <==> one is Walking,
        one.word() == "structural"@ <==> one is StructuralGraph,
        one.word() == "embedding"@ <==> one is Embedding,
        one.word() == "ready"@ <==> one is Ready,
        one.word() == "failed"@ <==> one is Failed,
{
    reveal_strlit("unindexed");
    reveal_strlit("walking");
    reveal_strlit("structural");
    reveal_strlit("embedding");
    reveal_strlit("ready");
    reveal_strlit("failed");
    let words = seq!["unindexed"@, "walking"@, "structural"@, "embedding"@, "ready"@, "failed"@];
    assert(words[0][0] == 'u' && words[1][0] == 'w' && words[2][0] == 's' && words[3][0] == 'e');
    assert(words[4][0] == 'r' && words[5][0] == 'f');
}

// ---------------------------------------------------------------------------
// What changes a status
// ---------------------------------------------------------------------------
/// Whether two statuses differ in nothing but the phase, since when it is, what
/// was asked for and when it was last published.
pub open spec fn has_same_counters(s: State, t: State) -> bool {
    &&& t.items == s.items
    &&& t.languages_done == s.languages_done
    &&& t.languages_total == s.languages_total
    &&& t.language == s.language
    &&& t.embed_done == s.embed_done
    &&& t.embed_total == s.embed_total
    &&& t.semantic_done == s.semantic_done
    &&& t.semantic_total == s.semantic_total
    &&& t.semantic_language == s.semantic_language
    &&& t.phase_file == s.phase_file
    &&& t.progress_file == s.progress_file
    &&& t.interval == s.interval
    &&& t.attached == s.attached
}

/// A change of phase is a change of phase, from now on, and of nothing else: no
/// counter is touched, and no request is forgotten. It is published where there
/// is a file for it.
pub proof fn a_change_of_phase_changes_nothing_else(s: State, stage: Stage, now: Duration)
    ensures
        ({
            let t = s.in_phase(stage, now);
            &&& t.stage == stage
            &&& t.since == now
            &&& has_same_counters(s, t)
            &&& t.requested == s.requested
            &&& t.last_write == if s.progress_file is Some {
                Some(now)
            } else {
                s.last_write
            }
        }),
{
}

/// A request sets a build going exactly where one can be and none is; it is
/// then told as a walk where nothing is built, and as what it is where
/// something is. Any other request changes nothing.
pub proof fn a_request_sets_one_build_going(s: State, now: Duration)
    ensures
        ({
            let t = s.asked(now);
            &&& s.activates() <==> s.attached && !s.requested
            &&& !s.activates() ==> t == s
            &&& s.activates() ==> t.requested && has_same_counters(s, t)
            &&& s.activates() && rank(s.stage) <= 0 ==> t.stage is Walking && t.since == now
            &&& s.activates() && rank(s.stage) > 0 ==> t == (State { requested: true, ..s })
        }),
{
}

/// A build that failed is told with its reason, and can be asked for again;
/// nothing that was counted is lost.
pub proof fn a_failure_keeps_what_was_counted(s: State, message: Seq<char>, now: Duration)
    ensures
        ({
            let t = s.failed(message, now);
            &&& t.stage == Stage::Failed(message)
            &&& t.since == now
            &&& !t.requested
            &&& has_same_counters(s, t)
            &&& s.attached ==> t.activates() && t.asked(now).stage is Walking
        }),
{
}

// ---------------------------------------------------------------------------
// What is published
// ---------------------------------------------------------------------------
/// Nothing is published without a file. With one, what has to be told is told
/// at once; counters are told where nothing was yet, or the interval has passed
/// since; and publishing changes nothing but when that was.
pub proof fn counters_are_told_once_in_an_interval(s: State, force: bool, now: Duration)
    ensures
        s.progress_file is None ==> !s.due(force, now),
        s.progress_file is Some && force ==> s.due(force, now),
        s.progress_file is Some && s.last_write is None ==> s.due(force, now),
        s.progress_file is Some && s.last_write is Some && !force && s.interval > 0 ==> (s.due(force, now)
            <==> now >= s.last_write->0 + s.interval),
        s.progress_file is Some && s.interval == 0 ==> s.due(force, now),
        s.published(force, now) == (State { last_write: s.published(force, now).last_write, ..s }),
        s.published(force, now).last_write == if s.due(force, now) {
            Some(now)
        } else {
            s.last_write
        },
{
}

/// What is published says of each counter what it is, of the phase its word,
/// and of the daemon which one it is and when that was.
pub proof fn what_is_published_is_the_status(p: ProgressSnapshot, s: State, at: Moment)
    requires
        p.reports(s, at),
    ensures
        p.pid == at.pid,
        p.updated_at_ms == at.wall_ms,
        p.phase@ == s.stage.word(),
        p.walk.languages_done == s.languages_done,
        p.walk.languages_total == s.languages_total,
        p.walk.items == s.items,
        opt_text(p.walk.current_language) == s.language,
        p.semantic.languages_done == s.semantic_done,
        p.semantic.languages_total == s.semantic_total,
        opt_text(p.semantic.current_language) == s.semantic_language,
        p.embeddings.done == s.embed_done,
        p.embeddings.total == s.embed_total,
{
}

/// A write goes to the file that is attached, and is made exactly where one is
/// and it is due.
pub proof fn a_write_goes_to_the_attached_file(
    phase: Option<(String, String)>,
    progress: Option<(String, ProgressSnapshot)>,
    s: State,
    force: bool,
    at: Moment,
)
    ensures
        writes_phase(phase, s) ==> (phase is Some <==> s.phase_file is Some),
        writes_phase(phase, s) && phase is Some ==> s.phase_file == Some((phase->0).0@) && (phase->0).1@
            == s.stage.word(),
        writes_progress(progress, s, force, at) ==> (progress is Some <==> s.due(force, at.now)),
        writes_progress(progress, s, force, at) && progress is Some ==> s.progress_file == Some(
            (progress->0).0@,
        ) && (progress->0).1.reports(s, at),
{
}

// ---------------------------------------------------------------------------
// Numbers
// ---------------------------------------------------------------------------
/// In a grouped number a comma stands before every third digit from the end,
/// and nowhere else.
pub proof fn commas_stand_before_every_third_digit(n: nat, i: int)
    requires
        0 <= i < grouped(n).len(),
    ensures
        grouped(n)[i] == ',' <==> (grouped(n).len() - i) % 4 == 0,
        grouped(n).len() > 0,
    decreases n,
{
    let g = grouped(n);
    if n < 1000 {
        lemma_decimal(n);
        assert(is_digit(decimal(n)[i]));
        lemma_short(n);
    } else {
        let before = grouped(n / 1000);
        reveal_strlit(",");
        let b = before.len() as int;
        assert(g.len() == b + 4);
        if i < b {
            commas_stand_before_every_third_digit(n / 1000, i);
            assert(g[i] == before[i]);
            assert((g.len() - i) % 4 == (b - i) % 4);
        } else if i == b {
            assert(g[i] == ","@[0]);
        } else {
            assert(g[i] == three_digits(n % 1000)[i - b - 1]);
        }
    }
}

proof fn lemma_short(n: nat)
    requires
        n < 1000,
    ensures
        decimal(n).len() <= 3,
{
    reveal_with_fuel(decimal, 4);
}

/// Counters start over past the largest number, and until then simply count.
pub proof fn counters_start_over(a: u64, b: u64, n: u32)
    ensures
        a + b <= u64::MAX ==> wrapping_sum(a, b) == a + b,
        a + b > u64::MAX ==> wrapping_sum(a, b) == a + b - 0x1_0000_0000_0000_0000,
        n < u32::MAX ==> next_count(n) == n + 1,
        n == u32::MAX ==> next_count(n) == 0,
{
}

/// What is told of an index that is being embedded is how many are done and how
/// many there are; of a walk, which language it is at, how many are done and how
/// many there are, until the last is; and of a failure its reason.
pub proof fn progress_is_told_in_numbers(s: State)
    ensures
        s.stage is Embedding && s.embed_total > 0 ==> s.detail() == "embeddings "@ + (grouped(
            s.embed_done as nat,
        ) + "/"@ + grouped(s.embed_total as nat)),
        s.stage is Walking && s.languages_done < s.languages_total && s.language is Some ==> s.detail()
            == "walking "@ + s.language->0 + " ("@ + (decimal(s.languages_done as nat) + "/"@ + decimal(
            s.languages_total as nat,
        )) + " languages done), "@ + grouped(s.items as nat) + " nodes and edges so far"@,
        s.stage is Walking && s.languages_total > 0 && s.languages_done >= s.languages_total ==> s.detail()
            == "linking imports and symbols ("@ + grouped(s.items as nat) + " nodes and edges walked)"@,
        s.stage matches Stage::Failed(message) ==> s.detail() == "failed: "@ + message,
{
    if s.stage is Embedding && s.embed_total > 0 {
        assert(s.detail() =~= "embeddings "@ + (grouped(s.embed_done as nat) + "/"@ + grouped(
            s.embed_total as nat,
        )));
    }
    if s.stage is Walking && s.languages_done < s.languages_total && s.language is Some {
        assert(s.detail() =~= "walking "@ + s.language->0 + " ("@ + (decimal(s.languages_done as nat)
            + "/"@ + decimal(s.languages_total as nat)) + " languages done), "@ + grouped(s.items as nat)
            + " nodes and edges so far"@);
    }
}

} // verus!
