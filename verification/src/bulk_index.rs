//! Filling an index from nothing: each language's plugin walks the project and
//! streams what it found, which is committed in batches; then everything is
//! linked.
//!
//! A language that fails fails the walk as a whole: an index that left a
//! language out would look complete.

use vstd::prelude::*;
use vstd::string::*;

use crate::manifest::{languages, PluginManifest};
use crate::number::{parse_number, parsed};
use crate::order::{sort_texts, sorted};
use crate::text::{opt_text, opt_view, same, trim, trimmed, views};
use crate::text_set::TextSet;

verus! {

pub const BULK_INDEX_FLAG: &'static str = "--bulk-index";

pub const BULK_STDIN_LIFELINE_ENV: &'static str = "G_MESH_BULK_STDIN_LIFELINE";

/// How many nodes and edges are committed at once.
pub const BATCH_ITEMS: usize = 2_000;

/// The kind of node by which a plugin says that it parsed a file.
pub const FILE_NODE_KIND: &'static str = "File";

pub const WALK_DELAY_ENV: &'static str = "G_MESH_BULK_INDEX_DELAY_MS";

pub const WALK_HOLD_FILE_ENV: &'static str = "G_MESH_BULK_INDEX_HOLD_FILE";

/// What a walk took in.
#[derive(Clone, Copy, Debug, PartialEq, Eq, Structural)]
pub struct BulkIndexSummary {
    pub nodes: usize,
    pub edges: usize,
    pub skipped_lines: usize,
    pub linked_imports: usize,
    pub linked_symbols: usize,
}

impl Default for BulkIndexSummary {
    fn default() -> (r: Self)
        ensures
            r.nodes == 0,
            r.edges == 0,
            r.skipped_lines == 0,
            r.linked_imports == 0,
            r.linked_symbols == 0,
    {
        BulkIndexSummary { nodes: 0, edges: 0, skipped_lines: 0, linked_imports: 0, linked_symbols: 0 }
    }
}

// ---------------------------------------------------------------------------
// One stream
// ---------------------------------------------------------------------------
/// One item of a plugin's stream.
#[derive(Debug)]
pub enum Item<N, E> {
    Node { kind: String, file_path: String, record: N },
    Edge { record: E },
    /// A line that cannot be read as an item.
    Malformed,
    /// The stream itself cannot be read any further.
    ReadFailed,
}

/// What is to be committed at once.
#[derive(Debug)]
pub struct Batch<N, E> {
    pub nodes: Vec<N>,
    pub edges: Vec<E>,
}

/// What is to be done after an item.
#[derive(Debug)]
pub enum Ingested<N, E> {
    /// Go on.
    Continue,
    /// Commit this, then go on.
    Commit { batch: Batch<N, E> },
    /// Give the walk up.
    Stop,
}

/// What of a stream has been taken in and not been committed, and what has
/// been counted.
#[derive(Debug)]
pub struct Ingest<N, E> {
    pub batch: Batch<N, E>,
    pub summary: BulkIndexSummary,
    /// The files the plugins said they parsed.
    pub walked_files: TextSet,
}

/// What is counted after one more item.
pub open spec fn counted<N, E>(s: BulkIndexSummary, item: Item<N, E>) -> BulkIndexSummary {
    match item {
        Item::Node { .. } => BulkIndexSummary { nodes: (s.nodes + 1) as usize, ..s },
        Item::Edge { .. } => BulkIndexSummary { edges: (s.edges + 1) as usize, ..s },
        Item::Malformed => BulkIndexSummary { skipped_lines: (s.skipped_lines + 1) as usize, ..s },
        Item::ReadFailed => s,
    }
}

/// The nodes that wait after one more item.
pub open spec fn nodes_with<N, E>(nodes: Seq<N>, item: Item<N, E>) -> Seq<N> {
    match item {
        Item::Node { kind, file_path, record } => nodes.push(record),
        _ => nodes,
    }
}

/// The edges that wait after one more item.
pub open spec fn edges_with<N, E>(edges: Seq<E>, item: Item<N, E>) -> Seq<E> {
    match item {
        Item::Edge { record } => edges.push(record),
        _ => edges,
    }
}

/// The files that have been parsed after one more item.
pub open spec fn walked_with<N, E>(walked: Set<Seq<char>>, item: Item<N, E>) -> Set<Seq<char>> {
    match item {
        Item::Node { kind, file_path, record } => if kind@ == FILE_NODE_KIND@ {
            walked.insert(file_path@)
        } else {
            walked
        },
        _ => walked,
    }
}

impl<N, E> Ingest<N, E> {
    /// Whether what waits is less than a batch.
    pub open spec fn wf(self) -> bool {
        &&& self.batch.nodes@.len() + self.batch.edges@.len() < BATCH_ITEMS
        &&& self.walked_files.wf()
    }

    /// Begins a stream; `summary` and `walked_files` are those of the streams
    /// before it.
    pub fn start(summary: BulkIndexSummary, walked_files: TextSet) -> (r: Self)
        requires
            walked_files.wf(),
        ensures
            r.wf(),
            r.batch.nodes@.len() == 0,
            r.batch.edges@.len() == 0,
            r.summary == summary,
            r.walked_files == walked_files,
    {
        Ingest { batch: Batch { nodes: Vec::new(), edges: Vec::new() }, summary, walked_files }
    }

    fn take_batch(&mut self) -> (r: Batch<N, E>)
        ensures
            r.nodes@ == old(self).batch.nodes@,
            r.edges@ == old(self).batch.edges@,
            final(self).batch.nodes@.len() == 0,
            final(self).batch.edges@.len() == 0,
            final(self).summary == old(self).summary,
            final(self).walked_files == old(self).walked_files,
    {
        let mut nodes: Vec<N> = Vec::new();
        let mut edges: Vec<E> = Vec::new();
        nodes.append(&mut self.batch.nodes);
        edges.append(&mut self.batch.edges);
        proof {
            assert(nodes@ =~= old(self).batch.nodes@);
            assert(edges@ =~= old(self).batch.edges@);
        }
        Batch { nodes, edges }
    }

    /// Takes in one item. A malformed one is counted and otherwise ignored; a
    /// stream that cannot be read is over.
    pub fn ingest(&mut self, item: Item<N, E>) -> (r: Ingested<N, E>)
        requires
            old(self).wf(),
            old(self).summary.nodes < usize::MAX,
            old(self).summary.edges < usize::MAX,
            old(self).summary.skipped_lines < usize::MAX,
        ensures
            final(self).wf(),
            final(self).summary == counted(old(self).summary, item),
            final(self).walked_files@ == walked_with(old(self).walked_files@, item),
            ({
                let nodes = nodes_with(old(self).batch.nodes@, item);
                let edges = edges_with(old(self).batch.edges@, item);
                if item is ReadFailed {
                    r is Stop && final(self).batch.nodes@ == nodes && final(self).batch.edges@ == edges
                } else if nodes.len() + edges.len() >= BATCH_ITEMS {
                    &&& r matches Ingested::Commit { batch } && batch.nodes@ == nodes && batch.edges@
                        == edges
                    &&& final(self).batch.nodes@.len() == 0
                    &&& final(self).batch.edges@.len() == 0
                } else {
                    r is Continue && final(self).batch.nodes@ == nodes && final(self).batch.edges@ == edges
                }
            }),
    {
        match item {
            Item::Node { kind, file_path, record } => {
                if same(kind.as_str(), FILE_NODE_KIND) {
                    self.walked_files.insert(file_path);
                }
                self.batch.nodes.push(record);
                self.summary.nodes = self.summary.nodes + 1;
            },
            Item::Edge { record } => {
                self.batch.edges.push(record);
                self.summary.edges = self.summary.edges + 1;
            },
            Item::Malformed => {
                self.summary.skipped_lines = self.summary.skipped_lines + 1;
                return Ingested::Continue;
            },
            Item::ReadFailed => {
                return Ingested::Stop;
            },
        }
        if self.batch.nodes.len() + self.batch.edges.len() >= BATCH_ITEMS {
            let batch = self.take_batch();
            Ingested::Commit { batch }
        } else {
            Ingested::Continue
        }
    }

    /// The stream is over: what is still to be committed, if anything is, and
    /// what was counted.
    pub fn finish(self) -> (r: (Option<Batch<N, E>>, BulkIndexSummary, TextSet))
        requires
            self.wf(),
        ensures
            match r.0 {
                Some(batch) => batch.nodes@ == self.batch.nodes@ && batch.edges@ == self.batch.edges@
                    && batch.nodes@.len() + batch.edges@.len() > 0,
                None => self.batch.nodes@.len() == 0 && self.batch.edges@.len() == 0,
            },
            r.1 == self.summary,
            r.2 == self.walked_files,
    {
        if self.batch.nodes.len() == 0 && self.batch.edges.len() == 0 {
            (None, self.summary, self.walked_files)
        } else {
            (Some(self.batch), self.summary, self.walked_files)
        }
    }
}

/// What a stream that is read to its end comes to: the nodes and edges in the
/// batches so far and in what waits, how much was counted, and which files
/// were parsed.
pub struct Taken<N, E> {
    pub committed_nodes: Seq<N>,
    pub committed_edges: Seq<E>,
    pub nodes: Seq<N>,
    pub edges: Seq<E>,
    pub summary: BulkIndexSummary,
    pub walked: Set<Seq<char>>,
}

/// What one more item does to a stream.
pub open spec fn takes<N, E>(t: Taken<N, E>, item: Item<N, E>) -> Taken<N, E> {
    let nodes = nodes_with(t.nodes, item);
    let edges = edges_with(t.edges, item);
    let full = nodes.len() + edges.len() >= BATCH_ITEMS;
    Taken {
        committed_nodes: if full {
            t.committed_nodes + nodes
        } else {
            t.committed_nodes
        },
        committed_edges: if full {
            t.committed_edges + edges
        } else {
            t.committed_edges
        },
        nodes: if full {
            seq![]
        } else {
            nodes
        },
        edges: if full {
            seq![]
        } else {
            edges
        },
        summary: counted(t.summary, item),
        walked: walked_with(t.walked, item),
    }
}

/// What a whole stream does.
pub open spec fn takes_all<N, E>(t: Taken<N, E>, items: Seq<Item<N, E>>) -> Taken<N, E>
    decreases items.len(),
{
    if items.len() == 0 {
        t
    } else {
        takes(takes_all(t, items.drop_last()), items.last())
    }
}

/// The nodes of a stream, in order.
pub open spec fn all_nodes<N, E>(items: Seq<Item<N, E>>) -> Seq<N>
    decreases items.len(),
{
    if items.len() == 0 {
        seq![]
    } else {
        nodes_with(all_nodes(items.drop_last()), items.last())
    }
}

/// The edges of a stream, in order.
pub open spec fn all_edges<N, E>(items: Seq<Item<N, E>>) -> Seq<E>
    decreases items.len(),
{
    if items.len() == 0 {
        seq![]
    } else {
        edges_with(all_edges(items.drop_last()), items.last())
    }
}

/// How many items of a stream are malformed.
pub open spec fn malformed<N, E>(items: Seq<Item<N, E>>) -> nat
    decreases items.len(),
{
    if items.len() == 0 {
        0
    } else {
        malformed(items.drop_last()) + if items.last() is Malformed {
            1nat
        } else {
            0nat
        }
    }
}

/// Whether an item is the node of the file with this path.
pub open spec fn is_file<N, E>(item: Item<N, E>, path: Seq<char>) -> bool {
    item matches Item::Node { kind, file_path, .. } && kind@ == FILE_NODE_KIND@ && file_path@ == path
}

/// Batches lose nothing, add nothing and keep the order: after what a stream
/// begins with, what was committed, followed by what waits, is every node and
/// every edge of the stream. The counts grow by exactly the nodes, the edges
/// and the malformed items, and the files that were parsed by exactly those
/// with a file's node in the stream. No batch is larger than allowed.
pub proof fn batches_hold_the_whole_stream<N, E>(from: Taken<N, E>, items: Seq<Item<N, E>>)
    requires
        from.nodes.len() + from.edges.len() < BATCH_ITEMS,
        from.summary.nodes + items.len() <= usize::MAX,
        from.summary.edges + items.len() <= usize::MAX,
        from.summary.skipped_lines + items.len() <= usize::MAX,
    ensures
        ({
            let t = takes_all(from, items);
            &&& t.committed_nodes + t.nodes == from.committed_nodes + from.nodes + all_nodes(items)
            &&& t.committed_edges + t.edges == from.committed_edges + from.edges + all_edges(items)
            &&& t.nodes.len() + t.edges.len() < BATCH_ITEMS
            &&& t.summary.nodes == from.summary.nodes + all_nodes(items).len()
            &&& t.summary.edges == from.summary.edges + all_edges(items).len()
            &&& t.summary.skipped_lines == from.summary.skipped_lines + malformed(items)
            &&& t.summary.linked_imports == from.summary.linked_imports
            &&& t.summary.linked_symbols == from.summary.linked_symbols
            &&& forall|path: Seq<char>| #[trigger]
                t.walked.contains(path) <==> from.walked.contains(path) || exists|i: int|
                    0 <= i < items.len() && is_file(#[trigger] items[i], path)
            &&& all_nodes(items).len() <= items.len()
            &&& all_edges(items).len() <= items.len()
            &&& malformed(items) <= items.len()
        }),
    decreases items.len(),
{
    let t = takes_all(from, items);
    if items.len() == 0 {
        assert(t.committed_nodes + t.nodes =~= from.committed_nodes + from.nodes + all_nodes(items));
        assert(t.committed_edges + t.edges =~= from.committed_edges + from.edges + all_edges(items));
    } else {
        let front = items.drop_last();
        let last = items.last();
        batches_hold_the_whole_stream(from, front);
        let b = takes_all(from, front);
        let nodes = nodes_with(b.nodes, last);
        let edges = edges_with(b.edges, last);
        let n0 = from.committed_nodes + from.nodes;
        let e0 = from.committed_edges + from.edges;
        assert(b.committed_nodes + nodes =~= nodes_with(b.committed_nodes + b.nodes, last));
        assert(b.committed_edges + edges =~= edges_with(b.committed_edges + b.edges, last));
        assert(t.committed_nodes + t.nodes =~= b.committed_nodes + nodes);
        assert(t.committed_edges + t.edges =~= b.committed_edges + edges);
        assert(nodes_with(n0 + all_nodes(front), last) =~= n0 + all_nodes(items));
        assert(edges_with(e0 + all_edges(front), last) =~= e0 + all_edges(items));
        assert forall|path: Seq<char>| #[trigger]
            t.walked.contains(path) <==> from.walked.contains(path) || exists|i: int|
                0 <= i < items.len() && is_file(#[trigger] items[i], path) by {
            assert(t.walked.contains(path) <==> b.walked.contains(path) || is_file(last, path));
            if b.walked.contains(path) && !from.walked.contains(path) {
                let i = choose|i: int| 0 <= i < front.len() && is_file(#[trigger] front[i], path);
                assert(is_file(items[i], path));
            }
            if is_file(last, path) {
                assert(is_file(items[items.len() - 1], path));
            }
            if exists|i: int| 0 <= i < items.len() && is_file(#[trigger] items[i], path) {
                let i = choose|i: int| 0 <= i < items.len() && is_file(#[trigger] items[i], path);
                if i < front.len() {
                    assert(is_file(front[i], path));
                }
            }
        }
    }
}

// ---------------------------------------------------------------------------
// One language
// ---------------------------------------------------------------------------
/// What the walk of one language waits for.
#[derive(Clone, Debug)]
pub enum LanguageStep {
    Spawning,
    Ingesting,
    /// The stream failed; the process that writes it is being ended.
    Killing { error: String },
    Waiting,
    Recording,
    Over,
}

/// What a `LanguageStep` says.
pub enum LanguageAt {
    Spawning,
    Ingesting,
    Killing(Seq<char>),
    Waiting,
    Recording,
    Over,
}

impl View for LanguageStep {
    type V = LanguageAt;

    open spec fn view(&self) -> LanguageAt {
        match self {
            LanguageStep::Spawning => LanguageAt::Spawning,
            LanguageStep::Ingesting => LanguageAt::Ingesting,
            LanguageStep::Killing { error } => LanguageAt::Killing(error@),
            LanguageStep::Waiting => LanguageAt::Waiting,
            LanguageStep::Recording => LanguageAt::Recording,
            LanguageStep::Over => LanguageAt::Over,
        }
    }
}

/// What is reported to the walk of one language; each with the error, if there
/// was one.
#[derive(Clone, Debug)]
pub enum LanguageNews {
    Spawned { error: Option<String> },
    Ingested { error: Option<String> },
    Killed,
    /// The process exited, well or with this status.
    Exited { failure: Option<String> },
    /// It could not be waited for.
    WaitFailed { error: String },
    Recorded { error: Option<String> },
}

/// What a `LanguageNews` says.
pub enum LanguageReport {
    Spawned(Option<Seq<char>>),
    Ingested(Option<Seq<char>>),
    Killed,
    Exited(Option<Seq<char>>),
    WaitFailed(Seq<char>),
    Recorded(Option<Seq<char>>),
}

impl View for LanguageNews {
    type V = LanguageReport;

    open spec fn view(&self) -> LanguageReport {
        match self {
            LanguageNews::Spawned { error } => LanguageReport::Spawned(opt_text(*error)),
            LanguageNews::Ingested { error } => LanguageReport::Ingested(opt_text(*error)),
            LanguageNews::Killed => LanguageReport::Killed,
            LanguageNews::Exited { failure } => LanguageReport::Exited(opt_text(*failure)),
            LanguageNews::WaitFailed { error } => LanguageReport::WaitFailed(error@),
            LanguageNews::Recorded { error } => LanguageReport::Recorded(opt_text(*error)),
        }
    }
}

/// What the walk of one language asks for.
#[derive(Clone, Debug)]
pub enum LanguageAct {
    /// Start the plugin on the whole project.
    Spawn,
    /// Take in its stream to the end.
    Ingest,
    /// Kill it and wait for it.
    Kill,
    /// Wait for it to exit.
    Wait,
    /// Record that the language has been walked, and by which build.
    Record,
    /// The walk of this language is over; with an error if there is one.
    Finish { error: Option<String> },
}

/// What a `LanguageAct` says.
pub enum LanguageAsk {
    Spawn,
    Ingest,
    Kill,
    Wait,
    Record,
    Finish(Option<Seq<char>>),
}

impl View for LanguageAct {
    type V = LanguageAsk;

    open spec fn view(&self) -> LanguageAsk {
        match self {
            LanguageAct::Spawn => LanguageAsk::Spawn,
            LanguageAct::Ingest => LanguageAsk::Ingest,
            LanguageAct::Kill => LanguageAsk::Kill,
            LanguageAct::Wait => LanguageAsk::Wait,
            LanguageAct::Record => LanguageAsk::Record,
            LanguageAct::Finish { error } => LanguageAsk::Finish(opt_text(*error)),
        }
    }
}

/// The walk is over, with this error.
pub open spec fn given_up(error: Seq<char>) -> Option<(LanguageAt, LanguageAsk)> {
    Some((LanguageAt::Over, LanguageAsk::Finish(Some(error))))
}

/// What the walk of `language`, by the plugin `command`, makes of what is
/// reported to it. A report it does not wait for changes nothing.
pub open spec fn next_language(
    language: Seq<char>,
    command: Seq<char>,
    at: LanguageAt,
    report: LanguageReport,
) -> Option<(LanguageAt, LanguageAsk)> {
    match (at, report) {
        (LanguageAt::Spawning, LanguageReport::Spawned(error)) => match error {
            None => Some((LanguageAt::Ingesting, LanguageAsk::Ingest)),
            Some(why) => given_up(
                "failed to spawn the "@ + language + " plugin's bulk index ("@ + command + "): "@ + why,
            ),
        },
        (LanguageAt::Ingesting, LanguageReport::Ingested(error)) => match error {
            None => Some((LanguageAt::Waiting, LanguageAsk::Wait)),
            Some(why) => Some((LanguageAt::Killing(why), LanguageAsk::Kill)),
        },
        (LanguageAt::Killing(why), LanguageReport::Killed) => given_up(why),
        (LanguageAt::Waiting, LanguageReport::Exited(failure)) => match failure {
            None => Some((LanguageAt::Recording, LanguageAsk::Record)),
            Some(status) => given_up(
                "the "@ + language + " plugin's bulk index exited with "@ + status,
            ),
        },
        (LanguageAt::Waiting, LanguageReport::WaitFailed(why)) => given_up(
            "failed to wait for the bulk-index plugin process: "@ + why,
        ),
        (LanguageAt::Recording, LanguageReport::Recorded(error)) => match error {
            None => Some((LanguageAt::Over, LanguageAsk::Finish(None))),
            Some(why) => given_up(
                "failed to record that "@ + language + " was bulk-indexed: "@ + why,
            ),
        },
        _ => None,
    }
}

/// The walk of one language.
#[derive(Debug)]
pub struct LanguageWalk {
    pub language: String,
    pub command: String,
    pub step: LanguageStep,
}

/// An error with what it happened in.
fn in_context(context: &str, why: &str) -> (r: String)
    ensures
        r@ == context@ + why@,
{
    let mut r: String = context.to_owned();
    r.append(why);
    r
}

impl LanguageWalk {
    /// Begins to walk a language. A plugin that has never been built is not
    /// started: `hint` says so.
    pub fn walk_one_language(manifest: &PluginManifest, hint: Option<&str>) -> (r: (Self, LanguageAct))
        ensures
            r.0.language@ == manifest.language@,
            r.0.command@ == manifest.command@,
            match opt_view(hint) {
                Some(h) => r.0.step@ == LanguageAt::Over && r.1@ == LanguageAsk::Finish(
                    Some("failed to spawn the "@ + manifest.language@ + " plugin's bulk index: "@ + h),
                ),
                None => r.0.step@ == LanguageAt::Spawning && r.1@ == LanguageAsk::Spawn,
            },
    {
        let language = manifest.language.clone();
        let command = manifest.command.clone();
        match hint {
            Some(h) => {
                let mut error: String = "failed to spawn the ".to_owned();
                error.append(language.as_str());
                error.append(" plugin's bulk index: ");
                error.append(h);
                (
                    LanguageWalk { language, command, step: LanguageStep::Over },
                    LanguageAct::Finish { error: Some(error) },
                )
            },
            None => (LanguageWalk { language, command, step: LanguageStep::Spawning }, LanguageAct::Spawn),
        }
    }

    /// Takes in what is reported, and says what is asked for next; nothing
    /// where that was not waited for.
    pub fn hear(&mut self, news: LanguageNews) -> (r: Option<LanguageAct>)
        ensures
            final(self).language@ == old(self).language@,
            final(self).command@ == old(self).command@,
            match next_language(old(self).language@, old(self).command@, old(self).step@, news@) {
                Some((at, ask)) => final(self).step@ == at && r is Some && r->0@ == ask,
                None => final(self).step@ == old(self).step@ && r is None,
            },
    {
        let mut given: Option<String> = None;
        match (&self.step, news) {
            (LanguageStep::Spawning, LanguageNews::Spawned { error }) => match error {
                None => {
                    self.step = LanguageStep::Ingesting;
                    return Some(LanguageAct::Ingest);
                },
                Some(why) => {
                    let mut text: String = "failed to spawn the ".to_owned();
                    text.append(self.language.as_str());
                    text.append(" plugin's bulk index (");
                    text.append(self.command.as_str());
                    text.append("): ");
                    text.append(why.as_str());
                    given = Some(text);
                },
            },
            (LanguageStep::Ingesting, LanguageNews::Ingested { error }) => match error {
                None => {
                    self.step = LanguageStep::Waiting;
                    return Some(LanguageAct::Wait);
                },
                Some(why) => {
                    self.step = LanguageStep::Killing { error: why };
                    return Some(LanguageAct::Kill);
                },
            },
            (LanguageStep::Killing { error }, LanguageNews::Killed) => {
                given = Some(error.clone());
            },
            (LanguageStep::Waiting, LanguageNews::Exited { failure }) => match failure {
                None => {
                    self.step = LanguageStep::Recording;
                    return Some(LanguageAct::Record);
                },
                Some(status) => {
                    let mut text: String = "the ".to_owned();
                    text.append(self.language.as_str());
                    text.append(" plugin's bulk index exited with ");
                    text.append(status.as_str());
                    given = Some(text);
                },
            },
            (LanguageStep::Waiting, LanguageNews::WaitFailed { error }) => {
                given = Some(
                    in_context(
                        "failed to wait for the bulk-index plugin process: ",
                        error.as_str(),
                    ),
                );
            },
            (LanguageStep::Recording, LanguageNews::Recorded { error }) => match error {
                None => {},
                Some(why) => {
                    let mut text: String = "failed to record that ".to_owned();
                    text.append(self.language.as_str());
                    text.append(" was bulk-indexed: ");
                    text.append(why.as_str());
                    given = Some(text);
                },
            },
            _ => {
                return None;
            },
        }
        self.step = LanguageStep::Over;
        Some(LanguageAct::Finish { error: given })
    }
}

/// A process whose stream failed is ended before the walk is given up: nothing
/// is left writing where nobody reads.
pub proof fn a_failed_stream_ends_its_process(language: Seq<char>, command: Seq<char>, why: Seq<char>)
    ensures
        next_language(language, command, LanguageAt::Ingesting, LanguageReport::Ingested(Some(why)))
            == Some((LanguageAt::Killing(why), LanguageAsk::Kill)),
        forall|r: LanguageReport| #[trigger]
            next_language(language, command, LanguageAt::Killing(why), r) is Some ==> r
                == LanguageReport::Killed,
{
}

/// A language counts as walked only once its stream has been taken in to the
/// end and its process has exited well.
pub proof fn only_a_finished_language_is_recorded(
    language: Seq<char>,
    command: Seq<char>,
    at: LanguageAt,
    report: LanguageReport,
)
    requires
        next_language(language, command, at, report) is Some,
        (next_language(language, command, at, report)->0).1 == LanguageAsk::Record,
    ensures
        at == LanguageAt::Waiting,
        report == LanguageReport::Exited(None),
{
}

// ---------------------------------------------------------------------------
// All languages
// ---------------------------------------------------------------------------
/// What a walk over all languages waits for.
#[derive(Clone, Copy, Debug, PartialEq, Eq, Structural)]
pub enum WalkStep {
    Walking,
    Linking,
    RecordingBaselines,
    Over,
}

/// What is reported to a walk over all languages.
#[derive(Clone, Debug)]
pub enum WalkNews {
    /// A language has been walked; this is what all of them took in so far.
    Walked { summary: BulkIndexSummary },
    Linked { imports: usize, symbols: usize },
    /// What was asked for failed.
    Failed { error: String },
    /// The baselines are recorded, or could not be: the walk is complete
    /// without them.
    BaselinesDone,
}

/// What a walk over all languages asks for.
#[derive(Debug)]
pub enum WalkAct {
    /// Walk this language.
    Walk { language: String },
    /// Link what was walked.
    Link,
    /// Record when each walked file was seen.
    RecordBaselines,
    /// The walk is over.
    Finish { result: Result<BulkIndexSummary, String> },
}

/// What a `WalkAct` says.
pub enum WalkAsk {
    Walk(Seq<char>),
    Link,
    RecordBaselines,
    Done(BulkIndexSummary),
    Failed(Seq<char>),
}

impl View for WalkAct {
    type V = WalkAsk;

    open spec fn view(&self) -> WalkAsk {
        match self {
            WalkAct::Walk { language } => WalkAsk::Walk(language@),
            WalkAct::Link => WalkAsk::Link,
            WalkAct::RecordBaselines => WalkAsk::RecordBaselines,
            WalkAct::Finish { result } => match result {
                Ok(summary) => WalkAsk::Done(*summary),
                Err(error) => WalkAsk::Failed(error@),
            },
        }
    }
}

/// What is reported, as it is understood.
pub enum WalkReport {
    Walked(BulkIndexSummary),
    Linked(usize, usize),
    Failed(Seq<char>),
    BaselinesDone,
}

impl View for WalkNews {
    type V = WalkReport;

    open spec fn view(&self) -> WalkReport {
        match self {
            WalkNews::Walked { summary } => WalkReport::Walked(*summary),
            WalkNews::Linked { imports, symbols } => WalkReport::Linked(*imports, *symbols),
            WalkNews::Failed { error } => WalkReport::Failed(error@),
            WalkNews::BaselinesDone => WalkReport::BaselinesDone,
        }
    }
}

/// A walk over all languages.
#[derive(Debug)]
pub struct BulkWalk {
    pub languages: Vec<String>,
    /// Which of them is being walked.
    pub at: usize,
    pub step: WalkStep,
    pub summary: BulkIndexSummary,
}

/// What a `BulkWalk` says.
pub struct Walking {
    pub languages: Seq<Seq<char>>,
    pub at: nat,
    pub step: WalkStep,
    pub summary: BulkIndexSummary,
}

impl View for BulkWalk {
    type V = Walking;

    open spec fn view(&self) -> Walking {
        Walking {
            languages: views(self.languages@),
            at: self.at as nat,
            step: self.step,
            summary: self.summary,
        }
    }
}

/// Turns to the language at `w.at`, or to linking after the last.
pub open spec fn turned_to(w: Walking) -> (Walking, WalkAsk) {
    if w.at < w.languages.len() {
        (Walking { step: WalkStep::Walking, ..w }, WalkAsk::Walk(w.languages[w.at as int]))
    } else {
        (Walking { step: WalkStep::Linking, ..w }, WalkAsk::Link)
    }
}

/// What a walk makes of what is reported to it: one language after the other,
/// then linking, then the baselines. A failure of a language or of linking is
/// the end of the whole walk.
pub open spec fn next_walk(w: Walking, report: WalkReport) -> Option<(Walking, WalkAsk)> {
    match (w.step, report) {
        (WalkStep::Walking, WalkReport::Walked(summary)) => Some(
            turned_to(Walking { at: w.at + 1, summary, ..w }),
        ),
        (WalkStep::Linking, WalkReport::Linked(imports, symbols)) => Some(
            (
                Walking {
                    step: WalkStep::RecordingBaselines,
                    summary: BulkIndexSummary {
                        linked_imports: imports,
                        linked_symbols: symbols,
                        ..w.summary
                    },
                    ..w
                },
                WalkAsk::RecordBaselines,
            ),
        ),
        (WalkStep::Walking, WalkReport::Failed(error)) => Some(
            (Walking { step: WalkStep::Over, ..w }, WalkAsk::Failed(error)),
        ),
        (WalkStep::Linking, WalkReport::Failed(error)) => Some(
            (Walking { step: WalkStep::Over, ..w }, WalkAsk::Failed(error)),
        ),
        (WalkStep::RecordingBaselines, WalkReport::BaselinesDone) => Some(
            (Walking { step: WalkStep::Over, ..w }, WalkAsk::Done(w.summary)),
        ),
        _ => None,
    }
}

/// How many languages a walk is told to be over: as many as can be counted.
pub fn progress_total(languages: usize) -> (r: u32)
    ensures
        r == (if languages <= u32::MAX {
            languages as u32
        } else {
            u32::MAX
        }),
{
    if languages <= u32::MAX as usize {
        languages as u32
    } else {
        u32::MAX
    }
}

impl BulkWalk {
    /// Whether a walk under way stands at one of the languages.
    pub open spec fn wf(self) -> bool {
        self@.step == WalkStep::Walking ==> self@.at < self@.languages.len()
    }

    /// Begins a walk over the languages of the plugins that were found, in
    /// their order.
    pub fn run_with_progress(manifests: &Vec<PluginManifest>) -> (r: (Self, WalkAct))
        ensures
            r.0.wf(),
            (r.0@, r.1@) == turned_to(
                Walking {
                    languages: sorted(languages(manifests@)),
                    at: 0,
                    step: WalkStep::Over,
                    summary: BulkIndexSummary {
                        nodes: 0,
                        edges: 0,
                        skipped_lines: 0,
                        linked_imports: 0,
                        linked_symbols: 0,
                    },
                },
            ),
    {
        let mut names: Vec<String> = Vec::new();
        let mut i: usize = 0;
        while i < manifests.len()
            invariant
                i <= manifests.len(),
                names@.len() == i,
                forall|j: int| 0 <= j < i ==> (#[trigger] names@[j])@ == manifests@[j].language@,
            decreases manifests.len() - i,
        {
            names.push(manifests[i].language.clone());
            i += 1;
        }
        proof {
            assert(views(names@) =~= languages(manifests@));
        }
        let mut walk = BulkWalk {
            languages: sort_texts(&names),
            at: 0,
            step: WalkStep::Over,
            summary: BulkIndexSummary::default(),
        };
        let act = walk.turn();
        (walk, act)
    }

    fn turn(&mut self) -> (r: WalkAct)
        ensures
            final(self).wf(),
            (final(self)@, r@) == turned_to(old(self)@),
    {
        if self.at < self.languages.len() {
            proof {
                assert(self@.languages[self.at as int] == self.languages@[self.at as int]@);
            }
            self.step = WalkStep::Walking;
            WalkAct::Walk { language: self.languages[self.at].clone() }
        } else {
            self.step = WalkStep::Linking;
            WalkAct::Link
        }
    }

    /// Takes in what is reported, and says what is asked for next; nothing
    /// where that was not waited for.
    pub fn hear(&mut self, news: WalkNews) -> (r: Option<WalkAct>)
        requires
            old(self).wf(),
        ensures
            final(self).wf(),
            match next_walk(old(self)@, news@) {
                Some((w, ask)) => final(self)@ == w && r is Some && r->0@ == ask,
                None => final(self)@ == old(self)@ && r is None,
            },
    {
        proof {
            assert(self@.languages.len() == self.languages.len());
        }
        match (self.step, news) {
            (WalkStep::Walking, WalkNews::Walked { summary }) => {
                self.at = self.at + 1;
                self.summary = summary;
                Some(self.turn())
            },
            (WalkStep::Linking, WalkNews::Linked { imports, symbols }) => {
                self.step = WalkStep::RecordingBaselines;
                self.summary.linked_imports = imports;
                self.summary.linked_symbols = symbols;
                Some(WalkAct::RecordBaselines)
            },
            (WalkStep::Walking, WalkNews::Failed { error }) => {
                self.step = WalkStep::Over;
                Some(WalkAct::Finish { result: Err(error) })
            },
            (WalkStep::Linking, WalkNews::Failed { error }) => {
                self.step = WalkStep::Over;
                Some(WalkAct::Finish { result: Err(error) })
            },
            (WalkStep::RecordingBaselines, WalkNews::BaselinesDone) => {
                self.step = WalkStep::Over;
                Some(WalkAct::Finish { result: Ok(self.summary) })
            },
            _ => None,
        }
    }
}

/// A walk that is done has walked every language, and linked what it walked: it
/// gets to linking only past the last language, to the baselines only from
/// linking, and to a summary only from there.
pub proof fn a_finished_walk_left_no_language_out(w: Walking, report: WalkReport)
    requires
        w.step == WalkStep::Walking ==> w.at < w.languages.len(),
        w.step == WalkStep::Linking || w.step == WalkStep::RecordingBaselines ==> w.at == w.languages.len(),
        next_walk(w, report) is Some,
    ensures
        ({
            let (v, ask) = next_walk(w, report)->0;
            &&& v.languages == w.languages
            &&& v.step == WalkStep::Walking ==> v.at < v.languages.len()
            &&& v.step == WalkStep::Linking || v.step == WalkStep::RecordingBaselines ==> v.at
                == v.languages.len()
            &&& ask is Done ==> w.step == WalkStep::RecordingBaselines && v.at == v.languages.len()
            &&& ask matches WalkAsk::Walk(language) ==> language == v.languages[v.at as int]
        }),
{
}

// ---------------------------------------------------------------------------
// Holding a finished walk open
// ---------------------------------------------------------------------------
/// What a finished walk waits for before it is reported.
#[derive(Clone, Debug)]
pub enum Hold {
    Nothing,
    /// Until this file is gone.
    WhileFileExists { path: String },
    ForMillis { millis: u64 },
}

/// What a finished walk waits for: the file that one variable names, or else
/// the time that another one gives.
pub fn hold_the_walk_open(hold_file: Option<&str>, delay: Option<&str>) -> (r: Hold)
    ensures
        match (opt_view(hold_file), opt_view(delay)) {
            (Some(path), _) if path.len() > 0 => r matches Hold::WhileFileExists { path: p } && p@ == path,
            (_, Some(text)) => match parsed(trimmed(text), u64::MAX as nat) {
                Some(n) => r matches Hold::ForMillis { millis } && millis == n,
                None => r is Nothing,
            },
            (_, None) => r is Nothing,
        },
{
    match hold_file {
        Some(path) => {
            if !path.is_empty() {
                return Hold::WhileFileExists { path: path.to_owned() };
            }
        },
        None => {},
    }
    match delay {
        Some(text) => match parse_number(trim(text).as_str(), u64::MAX as u128) {
            Some(n) => Hold::ForMillis { millis: n as u64 },
            None => Hold::Nothing,
        },
        None => Hold::Nothing,
    }
}

} // verus!
