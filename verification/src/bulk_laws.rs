//! What holds of a whole bulk index: of each item of a stream, of the walk of a
//! language, and of the walk over all of them.

use vstd::prelude::*;

use crate::bulk_index::{
    BulkIndexSummary, Item, LanguageAsk, LanguageAt, LanguageReport, Taken, WalkAsk, WalkReport, WalkStep,
    Walking, next_language, next_walk, takes, turned_to,
};

verus! {

// ---------------------------------------------------------------------------
// A stream
// ---------------------------------------------------------------------------
/// Each item of a stream is taken for what it is: a node is kept behind the
/// nodes before it and counted, an edge likewise; a line that is neither is only
/// counted; and the end of what can be read changes nothing. A file counts as
/// parsed with its own node. What waits is committed, all of it, exactly when
/// it has become a whole batch.
pub proof fn each_item_is_taken_for_what_it_is<N, E>(t: Taken<N, E>, item: Item<N, E>)
    requires
        t.nodes.len() + t.edges.len() < 2_000,
        t.summary.nodes < usize::MAX,
        t.summary.edges < usize::MAX,
        t.summary.skipped_lines < usize::MAX,
    ensures
        ({
            let u = takes(t, item);
            let nodes = t.committed_nodes + t.nodes;
            let edges = t.committed_edges + t.edges;
            &&& u.committed_nodes + u.nodes == (match item {
                Item::Node { kind, file_path, record } => nodes.push(record),
                _ => nodes,
            })
            &&& u.committed_edges + u.edges == (match item {
                Item::Edge { record } => edges.push(record),
                _ => edges,
            })
            &&& u.summary.nodes == t.summary.nodes + if item is Node {
                1int
            } else {
                0
            }
            &&& u.summary.edges == t.summary.edges + if item is Edge {
                1int
            } else {
                0
            }
            &&& u.summary.skipped_lines == t.summary.skipped_lines + if item is Malformed {
                1int
            } else {
                0
            }
            &&& u.summary.linked_imports == t.summary.linked_imports
            &&& u.summary.linked_symbols == t.summary.linked_symbols
            &&& forall|path: Seq<char>| #[trigger]
                u.walked.contains(path) <==> t.walked.contains(path) || (item is Node && item->kind@ == "File"@
                    && item->file_path@ == path)
            &&& u.nodes.len() + u.edges.len() == if t.nodes.len() + t.edges.len() == 1_999 && (
            item is Node || item is Edge) {
                0
            } else {
                t.nodes.len() + t.edges.len() + if item is Node || item is Edge {
                    1int
                } else {
                    0
                }
            }
            &&& u.nodes.len() + u.edges.len() > 0 ==> u.committed_nodes == t.committed_nodes
                && u.committed_edges == t.committed_edges
        }),
{
    let u = takes(t, item);
    let nodes = t.committed_nodes + t.nodes;
    let edges = t.committed_edges + t.edges;
    match item {
        Item::Node { kind, file_path, record } => {
            assert(u.committed_nodes + u.nodes =~= nodes.push(record));
            assert(u.committed_edges + u.edges =~= edges);
        },
        Item::Edge { record } => {
            assert(u.committed_edges + u.edges =~= edges.push(record));
            assert(u.committed_nodes + u.nodes =~= nodes);
        },
        _ => {},
    }
}

// ---------------------------------------------------------------------------
// A language
// ---------------------------------------------------------------------------
/// What walking a language asks for, report after report.
pub open spec fn language_asks(
    language: Seq<char>,
    command: Seq<char>,
    at: LanguageAt,
    reports: Seq<LanguageReport>,
) -> Seq<LanguageAsk>
    decreases reports.len(),
{
    if reports.len() == 0 {
        seq![]
    } else {
        match next_language(language, command, at, reports[0]) {
            Some((then, ask)) => seq![ask] + language_asks(language, command, then, reports.drop_first()),
            None => language_asks(language, command, at, reports.drop_first()),
        }
    }
}

/// Where walking a language stands after these reports.
pub open spec fn language_after(
    language: Seq<char>,
    command: Seq<char>,
    at: LanguageAt,
    reports: Seq<LanguageReport>,
) -> LanguageAt
    decreases reports.len(),
{
    if reports.len() == 0 {
        at
    } else {
        match next_language(language, command, at, reports[0]) {
            Some((then, _)) => language_after(language, command, then, reports.drop_first()),
            None => language_after(language, command, at, reports.drop_first()),
        }
    }
}

/// What was asked for last. The process is asked for before anything is
/// reported.
pub open spec fn last_language_ask(before: LanguageAsk, asks: Seq<LanguageAsk>) -> LanguageAsk {
    if asks.len() == 0 {
        before
    } else {
        asks.last()
    }
}

/// What was asked for before the ask at `i`.
pub open spec fn language_ask_before(before: LanguageAsk, asks: Seq<LanguageAsk>, i: int) -> LanguageAsk {
    if i == 0 {
        before
    } else {
        asks[i - 1]
    }
}

/// Whether a walk that waits here has asked for this last.
pub open spec fn language_waits_for(at: LanguageAt, last: LanguageAsk) -> bool {
    match at {
        LanguageAt::Spawning => last is Spawn,
        LanguageAt::Ingesting => last is Ingest,
        LanguageAt::Killing(_) => last is Kill,
        LanguageAt::Waiting => last is Wait,
        LanguageAt::Recording => last is Record,
        LanguageAt::Over => last is Finish,
    }
}

/// What an ask may come after: what was asked for right before it.
pub open spec fn language_may_follow(ask: LanguageAsk, before: LanguageAsk) -> bool {
    match ask {
        LanguageAsk::Spawn => false,
        LanguageAsk::Ingest => before is Spawn,
        LanguageAsk::Kill => before is Ingest,
        LanguageAsk::Wait => before is Ingest,
        LanguageAsk::Record => before is Wait,
        LanguageAsk::Finish(None) => before is Record,
        LanguageAsk::Finish(Some(_)) => before is Spawn || before is Kill || before is Wait || before is Record,
    }
}

proof fn lemma_language(
    language: Seq<char>,
    command: Seq<char>,
    at: LanguageAt,
    reports: Seq<LanguageReport>,
    before: LanguageAsk,
)
    requires
        language_waits_for(at, before),
    ensures
        language_waits_for(
            language_after(language, command, at, reports),
            last_language_ask(before, language_asks(language, command, at, reports)),
        ),
        forall|i: int|
            0 <= i < language_asks(language, command, at, reports).len() ==> language_may_follow(
                #[trigger] language_asks(language, command, at, reports)[i],
                language_ask_before(before, language_asks(language, command, at, reports), i),
            ),
    decreases reports.len(),
{
    let asks = language_asks(language, command, at, reports);
    if reports.len() > 0 {
        match next_language(language, command, at, reports[0]) {
            Some((then, ask)) => {
                lemma_language(language, command, then, reports.drop_first(), ask);
                let rest = language_asks(language, command, then, reports.drop_first());
                assert forall|i: int| 0 <= i < asks.len() implies language_may_follow(
                    #[trigger] asks[i],
                    language_ask_before(before, asks, i),
                ) by {
                    if i > 0 {
                        assert(asks[i] == rest[i - 1]);
                        assert(language_ask_before(before, asks, i) == language_ask_before(ask, rest, i - 1));
                    }
                }
            },
            None => {
                lemma_language(language, command, at, reports.drop_first(), before);
            },
        }
    }
}

/// A language counts as walked, and the walk ends well, only after its stream
/// was taken in, its process was waited for and that was recorded, in this
/// order and whatever is reported; a process whose stream failed is killed.
pub proof fn a_language_is_walked_in_order(
    language: Seq<char>,
    command: Seq<char>,
    reports: Seq<LanguageReport>,
    i: int,
)
    requires
        0 <= i < language_asks(language, command, LanguageAt::Spawning, reports).len(),
    ensures
        language_may_follow(
            language_asks(language, command, LanguageAt::Spawning, reports)[i],
            language_ask_before(
                LanguageAsk::Spawn,
                language_asks(language, command, LanguageAt::Spawning, reports),
                i,
            ),
        ),
{
    lemma_language(language, command, LanguageAt::Spawning, reports, LanguageAsk::Spawn);
}

/// What each report makes of a walk is settled by what was asked for last: what
/// went well leads on, and what did not ends the walk, in these words. A stream
/// that failed ends it too, once its process is gone.
pub proof fn a_language_is_given_up_for_what_failed(
    language: Seq<char>,
    command: Seq<char>,
    reports: Seq<LanguageReport>,
    why: Seq<char>,
)
    ensures
        ({
            let at = language_after(language, command, LanguageAt::Spawning, reports);
            let last = last_language_ask(
                LanguageAsk::Spawn,
                language_asks(language, command, LanguageAt::Spawning, reports),
            );
            let spawned = next_language(language, command, at, LanguageReport::Spawned(Some(why)));
            let ingested = next_language(language, command, at, LanguageReport::Ingested(Some(why)));
            let exited = next_language(language, command, at, LanguageReport::Exited(Some(why)));
            let waited = next_language(language, command, at, LanguageReport::WaitFailed(why));
            let recorded = next_language(language, command, at, LanguageReport::Recorded(Some(why)));
            &&& spawned is Some <==> last is Spawn
            &&& ingested is Some <==> last is Ingest
            &&& exited is Some <==> last is Wait
            &&& waited is Some <==> last is Wait
            &&& recorded is Some <==> last is Record
            &&& last is Spawn ==> (spawned->0).1 == LanguageAsk::Finish(
                Some(
                    "failed to spawn the "@ + language + " plugin's bulk index ("@ + command + "): "@ + why,
                ),
            )
            &&& last is Ingest ==> (ingested->0).1 is Kill && next_language(
                language,
                command,
                (ingested->0).0,
                LanguageReport::Killed,
            ) is Some && (next_language(language, command, (ingested->0).0, LanguageReport::Killed)->0).1
                == LanguageAsk::Finish(Some(why))
            &&& last is Wait ==> (exited->0).1 == LanguageAsk::Finish(
                Some("the "@ + language + " plugin's bulk index exited with "@ + why),
            )
            &&& last is Wait ==> (waited->0).1 == LanguageAsk::Finish(
                Some("failed to wait for the bulk-index plugin process: "@ + why),
            )
            &&& last is Record ==> (recorded->0).1 == LanguageAsk::Finish(
                Some("failed to record that "@ + language + " was bulk-indexed: "@ + why),
            )
        }),
{
    lemma_language(language, command, LanguageAt::Spawning, reports, LanguageAsk::Spawn);
}

/// A language that meets no failure is walked to the end.
pub proof fn an_undisturbed_language_is_walked(language: Seq<char>, command: Seq<char>)
    ensures
        language_asks(
            language,
            command,
            LanguageAt::Spawning,
            seq![
                LanguageReport::Spawned(None),
                LanguageReport::Ingested(None),
                LanguageReport::Exited(None),
                LanguageReport::Recorded(None),
            ],
        ) == seq![LanguageAsk::Ingest, LanguageAsk::Wait, LanguageAsk::Record, LanguageAsk::Finish(None)],
{
    reveal_with_fuel(language_asks, 5);
}

// ---------------------------------------------------------------------------
// All languages
// ---------------------------------------------------------------------------
/// What a walk over all languages asks for, report after report.
pub open spec fn walk_asks(w: Walking, reports: Seq<WalkReport>) -> Seq<WalkAsk>
    decreases reports.len(),
{
    if reports.len() == 0 {
        seq![]
    } else {
        match next_walk(w, reports[0]) {
            Some((v, ask)) => seq![ask] + walk_asks(v, reports.drop_first()),
            None => walk_asks(w, reports.drop_first()),
        }
    }
}

/// A walk over these languages that is about to turn to the first.
pub open spec fn walk_beginning(languages: Seq<Seq<char>>, summary: BulkIndexSummary) -> Walking {
    Walking { languages, at: 0, step: WalkStep::Over, summary }
}

/// That each language was walked, with what was counted up to then.
pub open spec fn all_walked(summaries: Seq<BulkIndexSummary>) -> Seq<WalkReport> {
    Seq::new(summaries.len(), |i: int| WalkReport::Walked(summaries[i]))
}

/// Each of these languages, to be walked.
pub open spec fn each_walked(languages: Seq<Seq<char>>) -> Seq<WalkAsk> {
    Seq::new(languages.len(), |i: int| WalkAsk::Walk(languages[i]))
}

proof fn lemma_walked(w: Walking, summaries: Seq<BulkIndexSummary>, rest: Seq<WalkReport>)
    requires
        w.at + summaries.len() == w.languages.len(),
    ensures
        ({
            let (now, first) = turned_to(w);
            let last = if summaries.len() == 0 {
                w.summary
            } else {
                summaries.last()
            };
            let end = Walking { at: w.languages.len(), step: WalkStep::Linking, summary: last, ..w };
            seq![first] + walk_asks(now, all_walked(summaries) + rest) == each_walked(
                w.languages.skip(w.at as int),
            ) + (seq![WalkAsk::Link] + walk_asks(end, rest))
        }),
    decreases summaries.len(),
{
    let (now, first) = turned_to(w);
    let left = w.languages.skip(w.at as int);
    if summaries.len() == 0 {
        assert(all_walked(summaries) + rest =~= rest);
        assert(each_walked(left) =~= seq![]);
        assert(seq![first] + walk_asks(now, rest) =~= each_walked(left) + (seq![WalkAsk::Link] + walk_asks(
            now,
            rest,
        )));
    } else {
        let reports = all_walked(summaries) + rest;
        let w2 = Walking { at: w.at + 1, step: WalkStep::Walking, summary: summaries[0], ..w };
        let left2 = w.languages.skip(w.at as int + 1);
        assert(reports.drop_first() =~= all_walked(summaries.drop_first()) + rest);
        assert(reports[0] == WalkReport::Walked(summaries[0]));
        lemma_walked(w2, summaries.drop_first(), rest);
        assert(turned_to(w2) == next_walk(now, reports[0])->0);
        assert(each_walked(left) =~= seq![first] + each_walked(left2));
        let (now2, first2) = turned_to(w2);
        let last = summaries.last();
        assert(summaries.drop_first().len() > 0 ==> summaries.drop_first().last() == last);
        let end = Walking { at: w.languages.len(), step: WalkStep::Linking, summary: last, ..w };
        let tail = seq![WalkAsk::Link] + walk_asks(end, rest);
        assert(walk_asks(now, reports) == seq![first2] + walk_asks(
            now2,
            all_walked(summaries.drop_first()) + rest,
        ));
        assert(seq![first] + (each_walked(left2) + tail) =~= (seq![first] + each_walked(left2)) + tail);
    }
}

/// A walk that meets no failure walks every language, in their order and each
/// once, then links what was walked, once, and then records the baselines; what
/// it reports in the end is what was counted with the last language, together
/// with what was linked.
pub proof fn an_undisturbed_walk_walks_every_language(
    languages: Seq<Seq<char>>,
    none: BulkIndexSummary,
    summaries: Seq<BulkIndexSummary>,
    imports: usize,
    symbols: usize,
)
    requires
        summaries.len() == languages.len(),
    ensures
        ({
            let (start, first) = turned_to(walk_beginning(languages, none));
            let reports = all_walked(summaries) + seq![
                WalkReport::Linked(imports, symbols),
                WalkReport::BaselinesDone,
            ];
            let counted = if summaries.len() == 0 {
                none
            } else {
                summaries.last()
            };
            seq![first] + walk_asks(start, reports) == each_walked(languages) + seq![
                WalkAsk::Link,
                WalkAsk::RecordBaselines,
                WalkAsk::Done(
                    BulkIndexSummary {
                        nodes: counted.nodes,
                        edges: counted.edges,
                        skipped_lines: counted.skipped_lines,
                        linked_imports: imports,
                        linked_symbols: symbols,
                    },
                ),
            ]
        }),
{
    let w = walk_beginning(languages, none);
    let rest = seq![WalkReport::Linked(imports, symbols), WalkReport::BaselinesDone];
    lemma_walked(w, summaries, rest);
    let counted = if summaries.len() == 0 {
        none
    } else {
        summaries.last()
    };
    let end = Walking { at: languages.len(), step: WalkStep::Linking, summary: counted, ..w };
    assert(languages.skip(0) =~= languages);
    reveal_with_fuel(walk_asks, 3);
    let done = WalkAsk::Done(
        BulkIndexSummary { linked_imports: imports, linked_symbols: symbols, ..counted },
    );
    assert(rest.drop_first() =~= seq![WalkReport::BaselinesDone]);
    assert(walk_asks(end, rest) =~= seq![WalkAsk::RecordBaselines, done]);
    assert(seq![WalkAsk::Link] + walk_asks(end, rest) =~= seq![
        WalkAsk::Link,
        WalkAsk::RecordBaselines,
        done,
    ]);
}

/// A walk fails with the first language that does, or with the linking, and
/// asks for nothing after that; the baselines fail no walk.
pub proof fn a_walk_fails_with_what_failed(w: Walking, why: Seq<char>, report: WalkReport)
    ensures
        ({
            let failed = next_walk(w, WalkReport::Failed(why));
            &&& failed is Some <==> w.step == WalkStep::Walking || w.step == WalkStep::Linking
            &&& failed is Some ==> (failed->0).1 == WalkAsk::Failed(why)
            &&& failed is Some ==> next_walk((failed->0).0, report) is None
        }),
{
}

} // verus!
