use g_mesh::indexing_status::{
    group_thousands, EmbedProgress, IndexingStatus, Moment, Need, Phase, ProgressSnapshot, WaitOutcome,
    WaitStep,
};
use g_mesh::time::{from_millis, from_secs};

const START: Moment = Moment { now: 0, wall_ms: 1_000, pid: 77 };

fn at_millis(millis: u64) -> Moment {
    Moment { now: from_millis(millis), wall_ms: 1_000 + millis, pid: 77 }
}

#[test]
fn a_project_that_owes_a_walk_starts_at_walking_and_not_yet_structural() {
    let status = IndexingStatus::walking(0);
    assert_eq!(status.phase(), Phase::Walking);
}

#[test]
fn an_unindexed_project_satisfies_no_need() {
    let status = IndexingStatus::unindexed(0);
    assert_eq!(status.phase(), Phase::Unindexed);
    let deadline = from_millis(20);
    assert_eq!(
        status.wait_for(Need::StructuralGraph, Some(deadline), 0, false),
        WaitStep::Wait { at_most: Some(deadline) }
    );
    assert_eq!(
        status.wait_for(Need::StructuralGraph, Some(deadline), deadline, true),
        WaitStep::Done(WaitOutcome::TimedOut)
    );
}

#[test]
fn a_request_with_no_activation_attached_changes_nothing() {
    let mut status = IndexingStatus::unindexed(0);
    assert!(!status.request_activation(START).0);
    assert_eq!(status.phase(), Phase::Unindexed);
}

#[test]
fn only_the_first_request_triggers_and_it_moves_to_walking() {
    let mut status = IndexingStatus::unindexed(0);
    status.attach_activation();

    assert!(status.request_activation(START).0);
    assert_eq!(status.phase(), Phase::Walking);
    assert!(!status.request_activation(START).0);
    assert!(!status.request_activation(START).0);
}

#[test]
fn a_request_on_a_walked_project_triggers_without_leaving_structural() {
    let mut status = IndexingStatus::structural(0);
    status.attach_activation();

    assert!(status.request_activation(START).0);
    assert_eq!(status.phase(), Phase::StructuralGraph);
}

#[test]
fn a_failed_activation_is_retried_by_the_next_request() {
    let mut status = IndexingStatus::unindexed(0);
    status.attach_activation();
    assert!(status.request_activation(START).0);

    status.activation_failed("the plugin is missing".to_string(), START);
    assert_eq!(status.phase(), Phase::Failed("the plugin is missing".to_string()));

    assert!(status.request_activation(START).0);
    assert_eq!(status.phase(), Phase::Walking);
    assert!(!status.request_activation(START).0);
}

#[test]
fn a_project_with_a_complete_walk_starts_at_structural() {
    let status = IndexingStatus::structural(0);
    assert_eq!(status.phase(), Phase::StructuralGraph);
}

#[test]
fn every_clone_sees_the_same_transition() {
    let mut status = IndexingStatus::walking(0);
    status.set_phase(Phase::StructuralGraph, at_millis(1));
    assert_eq!(status.clone().phase(), Phase::StructuralGraph);
}

#[test]
fn wait_for_structural_resolves_at_structural_and_at_embedding() {
    for phase in [Phase::StructuralGraph, Phase::Embedding, Phase::Ready] {
        let mut status = IndexingStatus::walking(0);
        status.set_phase(phase, START);
        assert_eq!(
            status.wait_for(Need::StructuralGraph, None, 0, false),
            WaitStep::Done(WaitOutcome::Satisfied)
        );
    }
}

#[test]
fn wait_for_embeddings_resolves_only_at_ready() {
    let mut status = IndexingStatus::walking(0);
    status.set_phase(Phase::StructuralGraph, START);
    status.set_phase(Phase::Embedding, START);
    assert_eq!(status.wait_for(Need::Embeddings, None, 0, false), WaitStep::Wait { at_most: None });

    status.set_phase(Phase::Ready, START);
    assert_eq!(status.wait_for(Need::Embeddings, None, 0, false), WaitStep::Done(WaitOutcome::Satisfied));
}

#[test]
fn a_failed_phase_resolves_both_needs_with_its_message() {
    let mut status = IndexingStatus::walking(0);
    status.set_phase(Phase::Failed("the plugin crashed".to_string()), START);
    for need in [Need::StructuralGraph, Need::Embeddings] {
        assert_eq!(
            status.wait_for(need, None, 0, false),
            WaitStep::Done(WaitOutcome::Failed("the plugin crashed".to_string()))
        );
    }
}

#[test]
fn a_deadline_returns_timed_out_once_it_passes_with_nothing_satisfied() {
    let status = IndexingStatus::walking(0);
    let deadline = Some(from_millis(20));
    assert_eq!(
        status.wait_for(Need::StructuralGraph, deadline, 0, false),
        WaitStep::Wait { at_most: Some(from_millis(20)) }
    );
    assert_eq!(
        status.wait_for(Need::StructuralGraph, deadline, from_millis(20), true),
        WaitStep::Done(WaitOutcome::TimedOut)
    );
}

#[test]
fn a_deadline_already_in_the_past_times_out_without_waiting() {
    let status = IndexingStatus::walking(0);
    assert_eq!(
        status.wait_for(Need::StructuralGraph, Some(from_millis(5)), from_millis(25), false),
        WaitStep::Done(WaitOutcome::TimedOut)
    );
}

#[test]
fn wait_for_resolves_as_soon_as_the_phase_transitions_even_with_a_deadline() {
    let mut status = IndexingStatus::walking(0);
    let deadline = Some(from_secs(10));
    assert_eq!(
        status.wait_for(Need::StructuralGraph, deadline, 0, false),
        WaitStep::Wait { at_most: Some(from_secs(10)) }
    );
    status.set_phase(Phase::StructuralGraph, at_millis(20));
    assert_eq!(
        status.wait_for(Need::StructuralGraph, deadline, from_millis(20), false),
        WaitStep::Done(WaitOutcome::Satisfied)
    );
    assert_eq!(status.phase_since(), from_millis(20));
}

#[test]
fn the_progress_file_throttles_counter_updates_and_every_phase_change_flushes_them() {
    let mut status = IndexingStatus::structural(0);
    let (path, read) = status
        .attach_progress_file_every("/s/index.progress".to_string(), from_secs(3600), START)
        .expect("attaching writes at once");
    assert_eq!(path, "/s/index.progress");
    assert_eq!(read.pid, 77);
    assert_eq!(read.updated_at_ms, 1_000);
    assert_eq!(read.phase, "structural");

    status.set_phase(Phase::Embedding, START);
    let (_, read) = status.set_embed_total(200, START).expect("a new total is told at once");
    assert_eq!(read.embeddings, EmbedProgress { done: 0, total: 200 });
    assert!(
        status.add_embed_done(50, at_millis(10)).is_none(),
        "a counter update inside the interval must not write"
    );

    let writes = status.set_phase(Phase::Ready, at_millis(11));
    let snapshot: ProgressSnapshot = writes.progress.expect("a change of phase is told at once").1;
    assert_eq!(snapshot.phase, "ready");
    assert_eq!(snapshot.embeddings, EmbedProgress { done: 50, total: 200 });
}

#[test]
fn a_counter_update_past_the_interval_is_written() {
    let mut status = IndexingStatus::walking(0);
    assert!(status.attach_progress_file("/s/index.progress".to_string(), START).is_some());
    assert!(status.add_items_ingested(1, at_millis(499)).is_none());
    let (_, read) = status.add_items_ingested(1, at_millis(500)).expect("half a second has passed");
    assert_eq!(read.walk.items, 2);
    assert!(status.add_items_ingested(1, at_millis(600)).is_none());
}

#[test]
fn the_phase_file_says_the_word_for_the_phase() {
    let mut status = IndexingStatus::unindexed(0);
    assert_eq!(
        status.attach_phase_file("/s/index.phase".to_string()),
        Some(("/s/index.phase".to_string(), "unindexed".to_string()))
    );
    let writes = status.set_phase(Phase::Failed("x".to_string()), START);
    assert_eq!(writes.phase, Some(("/s/index.phase".to_string(), "failed".to_string())));
    assert!(writes.progress.is_none(), "there is no progress file");
}

#[test]
fn the_semantic_pass_counts_languages_and_names_only_the_running_one() {
    let mut status = IndexingStatus::structural(0);
    status.start_semantic_progress(2, START);
    status.mark_semantic_language_started("python", START);
    let running = status.progress_snapshot(START).semantic;
    assert_eq!(running.current_language.as_deref(), Some("python"));
    assert_eq!((running.languages_done, running.languages_total), (0, 2));
    status.mark_semantic_language_done(START);
    let between = status.progress_snapshot(START).semantic;
    assert_eq!(between.current_language, None);
    assert_eq!(between.languages_done, 1);
}

#[test]
fn group_thousands_groups_by_three_from_the_right() {
    assert_eq!(group_thousands(0), "0");
    assert_eq!(group_thousands(999), "999");
    assert_eq!(group_thousands(1_000), "1,000");
    assert_eq!(group_thousands(48_210), "48,210");
    assert_eq!(group_thousands(1_234_567), "1,234,567");
}

#[test]
fn the_largest_number_is_grouped_too() {
    assert_eq!(group_thousands(u64::MAX), "18,446,744,073,709,551,615");
    assert_eq!(group_thousands(1_000_007), "1,000,007");
}

#[test]
fn progress_message_renders_the_real_counters_per_stage() {
    let root = "/abs/root";
    let mut status = IndexingStatus::walking(0);
    status.start_walk_progress(4, START);
    status.mark_language_done(START);
    status.mark_language_done(START);
    status.mark_language_started("rust", START);
    status.add_items_ingested(48_210, START);
    assert_eq!(
        status.progress_message(root),
        "indexing /abs/root: walking rust (2/4 languages done), 48,210 nodes and edges so far"
    );

    status.mark_language_done(START);
    status.mark_language_done(START);
    assert_eq!(status.progress_detail(), "linking imports and symbols (48,210 nodes and edges walked)");

    status.start_walk_progress(1, START);
    status.mark_language_started("typescript", START);
    assert_eq!(
        status.progress_detail(),
        "walking typescript (0/1 languages done), 0 nodes and edges so far"
    );

    status.set_phase(Phase::Embedding, START);
    assert_eq!(status.progress_detail(), "embeddings: counting what needs embedding");
    status.set_embed_total(40_113, START);
    status.add_embed_done(12_400, START);
    assert_eq!(status.progress_message(root), "indexing /abs/root: embeddings 12,400/40,113");
    assert_eq!(status.embed_progress(), (12_400, 40_113));
}

#[test]
fn progress_is_told_in_every_other_stage_too() {
    let mut status = IndexingStatus::unindexed(0);
    assert_eq!(status.progress_detail(), "starting");
    status.set_phase(Phase::Walking, START);
    assert_eq!(status.progress_detail(), "walking, 0 nodes and edges so far");
    status.start_walk_progress(2, START);
    assert_eq!(
        status.progress_detail(),
        "walking the first language (0/2 languages done), 0 nodes and edges so far"
    );
    assert_eq!(status.language_progress(), (0, 2, None));
    status.set_phase(Phase::StructuralGraph, START);
    assert_eq!(status.progress_detail(), "structural index built, embedding pass not started yet");
    status.set_phase(Phase::Ready, START);
    assert_eq!(status.progress_detail(), "ready");
    status.set_phase(Phase::Failed("no".to_string()), START);
    assert_eq!(status.progress_detail(), "failed: no");
    assert_eq!(status.items_ingested(), 0);
}
