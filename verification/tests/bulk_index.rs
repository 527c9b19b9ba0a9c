use g_mesh::bulk_index::{
    hold_the_walk_open, progress_total, BulkIndexSummary, BulkWalk, Hold, Ingest, Ingested, Item,
    LanguageAct, LanguageNews, LanguageWalk, WalkAct, WalkNews, BATCH_ITEMS,
};
use g_mesh::manifest::{Capabilities, PluginManifest, WorkspaceConfig};
use g_mesh::text_set::TextSet;

type Stream = Vec<Item<String, String>>;

fn node(id: &str) -> Item<String, String> {
    Item::Node { kind: "Function".to_string(), file_path: "src/a.ts".to_string(), record: id.to_string() }
}

fn file_node(path: &str) -> Item<String, String> {
    Item::Node { kind: "File".to_string(), file_path: path.to_string(), record: path.to_string() }
}

fn edge(id: &str) -> Item<String, String> {
    Item::Edge { record: id.to_string() }
}

/// What is committed of a stream, in order, with its summary and files.
fn ingest(stream: Stream) -> (Vec<String>, Vec<String>, BulkIndexSummary, Vec<String>) {
    let mut nodes = Vec::new();
    let mut edges = Vec::new();
    let mut ingest = Ingest::start(BulkIndexSummary::default(), TextSet::new());
    for item in stream {
        match ingest.ingest(item) {
            Ingested::Continue => {}
            Ingested::Commit { batch } => {
                assert_eq!(batch.nodes.len() + batch.edges.len(), BATCH_ITEMS);
                nodes.extend(batch.nodes);
                edges.extend(batch.edges);
            }
            Ingested::Stop => panic!("the stream can be read"),
        }
    }
    let (rest, summary, walked) = ingest.finish();
    if let Some(batch) = rest {
        nodes.extend(batch.nodes);
        edges.extend(batch.edges);
    }
    (nodes, edges, summary, walked.items)
}

fn manifest(language: &str) -> PluginManifest {
    PluginManifest {
        language: language.to_string(),
        protocol_version: 1,
        plugin_version: String::new(),
        command: "/bin/plugin".to_string(),
        args: Vec::new(),
        extensions: Vec::new(),
        fingerprint_ignore: Vec::new(),
        manifest_dir: String::new(),
        capabilities: Capabilities::default(),
        workspace: WorkspaceConfig::default(),
    }
}

#[test]
fn a_whole_stream_lands_in_sqlite() {
    let (nodes, edges, summary, _) = ingest(vec![node("n1"), node("n2"), edge("e1")]);
    assert_eq!(
        summary,
        BulkIndexSummary { nodes: 2, edges: 1, skipped_lines: 0, linked_imports: 0, linked_symbols: 0 }
    );
    assert_eq!(nodes, vec!["n1", "n2"]);
    assert_eq!(edges, vec!["e1"]);
}

#[test]
fn a_malformed_line_is_counted_and_skipped_without_losing_the_rest() {
    let (nodes, _, summary, _) = ingest(vec![node("n1"), Item::Malformed, node("n2")]);
    assert_eq!(
        summary,
        BulkIndexSummary { nodes: 2, edges: 0, skipped_lines: 1, linked_imports: 0, linked_symbols: 0 }
    );
    assert_eq!(nodes.len(), 2, "lines after a bad one must still be committed");
}

#[test]
fn a_stream_longer_than_one_batch_commits_all_of_it() {
    let total = BATCH_ITEMS + 5;
    let mut stream: Stream = (0..total).map(|i| node(&format!("n{i}"))).collect();
    stream.push(edge("e1"));

    let (nodes, edges, summary, _) = ingest(stream);

    assert_eq!(summary.nodes, total);
    assert_eq!(summary.edges, 1);
    assert_eq!(nodes.len(), total);
    assert_eq!(nodes[total - 1], format!("n{}", total - 1));
    assert_eq!(edges.len(), 1);
}

#[test]
fn an_empty_stream_is_a_no_op() {
    let (nodes, _, summary, walked) = ingest(Vec::new());
    assert_eq!(summary, BulkIndexSummary::default());
    assert!(nodes.is_empty());
    assert!(walked.is_empty());
}

#[test]
fn a_stream_that_cannot_be_read_is_over() {
    let mut ingest: Ingest<String, String> = Ingest::start(BulkIndexSummary::default(), TextSet::new());
    assert!(matches!(ingest.ingest(Item::ReadFailed), Ingested::Stop));
}

#[test]
fn only_file_nodes_say_which_files_were_parsed() {
    let (_, _, _, walked) =
        ingest(vec![file_node("src/z.ts"), node("n"), file_node("src/a.ts"), file_node("src/z.ts")]);
    assert_eq!(walked, vec!["src/a.ts", "src/z.ts"], "each once, in order");
}

#[test]
fn discovering_two_languages_walks_both_and_sums_their_contributions() {
    let (mut walk, act) = BulkWalk::run_with_progress(&vec![manifest("beta"), manifest("alpha")]);
    assert!(matches!(act, WalkAct::Walk { language } if language == "alpha"));

    let mut ingest: Ingest<u8, u8> = Ingest::start(BulkIndexSummary::default(), TextSet::new());
    for _ in 0..2 {
        ingest.ingest(Item::Node { kind: "Function".to_string(), file_path: String::new(), record: 0 });
    }
    ingest.ingest(Item::Edge { record: 0 });
    let (_, summary, walked) = ingest.finish();
    let next = walk.hear(WalkNews::Walked { summary });
    assert!(matches!(next, Some(WalkAct::Walk { language }) if language == "beta"));

    let mut ingest: Ingest<u8, u8> = Ingest::start(summary, walked);
    for _ in 0..2 {
        ingest.ingest(Item::Node { kind: "Function".to_string(), file_path: String::new(), record: 0 });
    }
    ingest.ingest(Item::Edge { record: 0 });
    let (_, summary, _) = ingest.finish();
    assert!(matches!(walk.hear(WalkNews::Walked { summary }), Some(WalkAct::Link)));
    assert!(matches!(
        walk.hear(WalkNews::Linked { imports: 3, symbols: 1 }),
        Some(WalkAct::RecordBaselines)
    ));
    match walk.hear(WalkNews::BaselinesDone) {
        Some(WalkAct::Finish { result: Ok(summary) }) => {
            assert_eq!(summary.nodes, 4, "both languages' nodes must be counted, not just one's");
            assert_eq!(summary.edges, 2, "both languages' edges must be counted, not just one's");
            assert_eq!(summary.skipped_lines, 0);
            assert_eq!((summary.linked_imports, summary.linked_symbols), (3, 1));
        }
        other => panic!("{other:?}"),
    }
}

#[test]
fn a_single_discovered_language_is_walked_same_as_before_the_registry_took_over() {
    let (mut walk, act) = BulkWalk::run_with_progress(&vec![manifest("solo")]);
    assert!(matches!(act, WalkAct::Walk { language } if language == "solo"));
    let mut ingest: Ingest<u8, u8> = Ingest::start(BulkIndexSummary::default(), TextSet::new());
    for _ in 0..2 {
        ingest.ingest(Item::Node { kind: "Function".to_string(), file_path: String::new(), record: 0 });
    }
    ingest.ingest(Item::Edge { record: 0 });
    let (rest, summary, _) = ingest.finish();
    let batch = rest.expect("what was read must be committed");
    assert_eq!(batch.nodes.len(), 2);
    assert_eq!(batch.edges.len(), 1);
    assert!(matches!(walk.hear(WalkNews::Walked { summary }), Some(WalkAct::Link)));
    walk.hear(WalkNews::Linked { imports: 0, symbols: 0 });
    match walk.hear(WalkNews::BaselinesDone) {
        Some(WalkAct::Finish { result: Ok(summary) }) => {
            assert_eq!(summary.nodes, 2);
            assert_eq!(summary.edges, 1);
        }
        other => panic!("{other:?}"),
    }
}

#[test]
fn an_empty_discovery_walks_nothing_and_is_not_an_error() {
    let (mut walk, act) = BulkWalk::run_with_progress(&Vec::new());
    assert!(matches!(act, WalkAct::Link));
    walk.hear(WalkNews::Linked { imports: 0, symbols: 0 });
    match walk.hear(WalkNews::BaselinesDone) {
        Some(WalkAct::Finish { result: Ok(summary) }) => assert_eq!(summary, BulkIndexSummary::default()),
        other => panic!("{other:?}"),
    }
}

#[test]
fn one_languages_failure_fails_the_whole_walk() {
    let (mut walk, _) = BulkWalk::run_with_progress(&vec![manifest("alpha"), manifest("beta")]);
    match walk.hear(WalkNews::Failed { error: "alpha broke".to_string() }) {
        Some(WalkAct::Finish { result: Err(error) }) => assert_eq!(error, "alpha broke"),
        other => panic!("{other:?}"),
    }
    assert!(walk.hear(WalkNews::Walked { summary: BulkIndexSummary::default() }).is_none());
    assert_eq!(progress_total(3), 3);
    assert_eq!(progress_total(usize::MAX), u32::MAX);
}

#[test]
fn a_language_is_walked_read_waited_for_and_recorded() {
    let (mut walk, act) = LanguageWalk::walk_one_language(&manifest("solo"), None);
    assert!(matches!(act, LanguageAct::Spawn));
    assert!(matches!(walk.hear(LanguageNews::Spawned { error: None }), Some(LanguageAct::Ingest)));
    assert!(matches!(walk.hear(LanguageNews::Ingested { error: None }), Some(LanguageAct::Wait)));
    assert!(matches!(walk.hear(LanguageNews::Exited { failure: None }), Some(LanguageAct::Record)));
    assert!(matches!(
        walk.hear(LanguageNews::Recorded { error: None }),
        Some(LanguageAct::Finish { error: None })
    ));
}

#[test]
fn every_way_a_language_can_fail_is_told() {
    let error = |act: Option<LanguageAct>| match act {
        Some(LanguageAct::Finish { error: Some(error) }) => error,
        other => panic!("{other:?}"),
    };
    let (_, unbuilt) = LanguageWalk::walk_one_language(&manifest("solo"), Some("run make"));
    assert_eq!(error(Some(unbuilt)), "failed to spawn the solo plugin's bulk index: run make");

    let begin = || LanguageWalk::walk_one_language(&manifest("solo"), None).0;
    let mut walk = begin();
    assert_eq!(
        error(walk.hear(LanguageNews::Spawned { error: Some("denied".to_string()) })),
        "failed to spawn the solo plugin's bulk index (/bin/plugin): denied"
    );
    let mut walk = begin();
    walk.hear(LanguageNews::Spawned { error: None });
    assert!(matches!(
        walk.hear(LanguageNews::Ingested { error: Some("broken pipe".to_string()) }),
        Some(LanguageAct::Kill)
    ));
    assert_eq!(error(walk.hear(LanguageNews::Killed)), "broken pipe");
    let mut walk = begin();
    walk.hear(LanguageNews::Spawned { error: None });
    walk.hear(LanguageNews::Ingested { error: None });
    let mut waiting = LanguageWalk { language: walk.language.clone(), command: String::new(), step: walk.step.clone() };
    assert_eq!(
        error(walk.hear(LanguageNews::Exited { failure: Some("exit status: 1".to_string()) })),
        "the solo plugin's bulk index exited with exit status: 1"
    );
    assert_eq!(
        error(waiting.hear(LanguageNews::WaitFailed { error: "gone".to_string() })),
        "failed to wait for the bulk-index plugin process: gone"
    );
    let mut walk = begin();
    walk.hear(LanguageNews::Spawned { error: None });
    walk.hear(LanguageNews::Ingested { error: None });
    walk.hear(LanguageNews::Exited { failure: None });
    assert_eq!(
        error(walk.hear(LanguageNews::Recorded { error: Some("full".to_string()) })),
        "failed to record that solo was bulk-indexed: full"
    );
}

#[test]
fn a_finished_walk_is_held_open_by_a_file_or_else_for_a_time() {
    assert!(matches!(hold_the_walk_open(None, None), Hold::Nothing));
    assert!(matches!(hold_the_walk_open(Some(""), Some(" 20 ")), Hold::ForMillis { millis: 20 }));
    assert!(matches!(hold_the_walk_open(None, Some("soon")), Hold::Nothing));
    assert!(matches!(hold_the_walk_open(Some("/gate"), Some("20")), Hold::WhileFileExists { path } if path == "/gate"));
}

#[test]
fn a_stream_adds_to_what_the_streams_before_it_came_to() {
    let mut before = TextSet::new();
    before.insert("src/m.ts".to_string());
    let counted = BulkIndexSummary { nodes: 7, edges: 3, skipped_lines: 2, linked_imports: 1, linked_symbols: 4 };
    let mut ingest: Ingest<String, String> = Ingest::start(counted, before);
    for item in [file_node("src/z.ts"), Item::Malformed, edge("e"), Item::Malformed, file_node("src/a.ts")] {
        ingest.ingest(item);
    }
    let (rest, summary, walked) = ingest.finish();
    assert_eq!(
        summary,
        BulkIndexSummary { nodes: 9, edges: 4, skipped_lines: 4, linked_imports: 1, linked_symbols: 4 }
    );
    assert_eq!(walked.items, vec!["src/a.ts", "src/m.ts", "src/z.ts"]);
    assert_eq!(rest.unwrap().nodes, vec!["src/z.ts", "src/a.ts"]);
}
