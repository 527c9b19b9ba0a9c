use g_mesh::activation::{ActivationCtx, BuildAct, BuildNews, BuildPhase, BuildStep};
use g_mesh::candidates::{Mode, SingleReason};
use g_mesh::startup::{owed, Owed, StartAct, StartNews, StartStep, Startup};

fn phase(act: Option<BuildAct>) -> BuildPhase {
    match act {
        Some(BuildAct::SetPhase { phase }) => phase,
        other => panic!("{other:?}"),
    }
}

#[test]
fn an_owed_walk_is_built_from_the_watcher_to_the_embeddings() {
    let mut ctx = ActivationCtx::new(true, false, false);
    assert_eq!(phase(ctx.hear(BuildNews::Triggered)), BuildPhase::Walking);
    assert!(matches!(ctx.hear(BuildNews::Done), Some(BuildAct::RegisterWatcher)));
    assert!(matches!(ctx.hear(BuildNews::Done), Some(BuildAct::BulkIndex)));
    assert_eq!(phase(ctx.hear(BuildNews::Done)), BuildPhase::StructuralGraph);
    assert!(matches!(ctx.hear(BuildNews::Done), Some(BuildAct::RecordWalk)));
    assert!(matches!(ctx.hear(BuildNews::Done), Some(BuildAct::NoteActivity)));
    assert!(!ctx.needs_walk);
    assert!(matches!(
        ctx.hear(BuildNews::Done),
        Some(BuildAct::SemanticPass { context: "the freshly built index" })
    ));
    assert!(matches!(ctx.hear(BuildNews::Done), Some(BuildAct::StartConsumer)));
    assert_eq!(phase(ctx.hear(BuildNews::Done)), BuildPhase::Embedding);
    assert!(matches!(ctx.hear(BuildNews::Done), Some(BuildAct::Backfill)));
    assert_eq!(phase(ctx.hear(BuildNews::Panicked { what: "oom".to_string() })), BuildPhase::Ready);
    assert!(matches!(ctx.hear(BuildNews::Done), Some(BuildAct::Finish)));
    assert_eq!(ctx.step, BuildStep::Over);
    assert!(ctx.hear(BuildNews::Triggered).is_none(), "it is built once");
}

#[test]
fn a_failed_walk_is_begun_again_with_the_watcher_it_has() {
    let mut ctx = ActivationCtx::new(true, false, false);
    ctx.hear(BuildNews::Triggered);
    ctx.hear(BuildNews::Done);
    ctx.hear(BuildNews::Done);
    match ctx.hear(BuildNews::Failed { error: "no plugin".to_string() }) {
        Some(BuildAct::Fail { message }) => {
            assert_eq!(message, "failed to build the project's initial index: no plugin")
        }
        other => panic!("{other:?}"),
    }
    assert_eq!(phase(ctx.hear(BuildNews::Triggered)), BuildPhase::Walking);
    assert!(matches!(ctx.hear(BuildNews::Done), Some(BuildAct::BulkIndex)), "the watcher is kept");
    match ctx.hear(BuildNews::Panicked { what: "index out of bounds".to_string() }) {
        Some(BuildAct::Fail { message }) => {
            assert_eq!(message, "the index build panicked: index out of bounds")
        }
        other => panic!("{other:?}"),
    }
}

#[test]
fn every_failure_of_a_build_is_told_in_its_own_words() {
    let failure = |steps: usize| {
        let mut ctx = ActivationCtx::new(true, false, false);
        ctx.hear(BuildNews::Triggered);
        for _ in 0..steps {
            ctx.hear(BuildNews::Done);
        }
        match ctx.hear(BuildNews::Failed { error: "why".to_string() }) {
            Some(BuildAct::Fail { message }) => message,
            other => panic!("{other:?}"),
        }
    };
    assert_eq!(failure(1), "failed to start the file watcher: why");
    assert_eq!(failure(4), "failed to record that the project was indexed: why");
}

#[test]
fn an_interrupted_pass_is_retried_once_and_a_complete_index_only_embeds() {
    let mut retry = ActivationCtx::new(false, true, true);
    assert!(matches!(
        retry.hear(BuildNews::Triggered),
        Some(BuildAct::SemanticPass { context: "the previously-interrupted index" })
    ));
    assert!(matches!(retry.hear(BuildNews::Done), Some(BuildAct::StartConsumer)));
    assert!(!retry.needs_semantic_pass_retry);

    let mut complete = ActivationCtx::new(false, false, false);
    assert_eq!(phase(complete.hear(BuildNews::Triggered)), BuildPhase::Embedding);
}

#[test]
fn a_pass_is_owed_only_where_the_walk_is_complete() {
    assert_eq!(owed(false, false), Owed { needs_bulk_index: true, needs_semantic_pass_retry: false });
    assert_eq!(owed(false, true), Owed { needs_bulk_index: true, needs_semantic_pass_retry: false });
    assert_eq!(owed(true, false), Owed { needs_bulk_index: false, needs_semantic_pass_retry: true });
    assert_eq!(owed(true, true), Owed { needs_bulk_index: false, needs_semantic_pass_retry: false });
}

fn up_to_the_index() -> Startup {
    let (mut startup, act) = Startup::run();
    assert!(matches!(act, StartAct::TakeLock));
    assert!(matches!(startup.hear(StartNews::LockTaken), Some(StartAct::PublishStamp)));
    let unpublished = StartNews::Failed { error: "read-only".to_string() };
    assert!(matches!(startup.hear(unpublished), Some(StartAct::Detect)), "a stamp is not worth failing over");
    let single = StartNews::Detected { mode: Mode::Single(SingleReason::RootMarker) };
    assert!(matches!(startup.hear(single), Some(StartAct::Discover)));
    assert!(matches!(startup.hear(StartNews::Done), Some(StartAct::OpenIndex)));
    startup
}

fn serving(walked: bool, passed: bool) -> (Startup, Option<StartAct>) {
    let mut startup = up_to_the_index();
    let opened =
        StartNews::IndexOpened { bulk_index_completed: walked, semantic_pass_completed: passed };
    assert!(matches!(startup.hear(opened), Some(StartAct::Canonicalize)));
    assert!(matches!(startup.hear(StartNews::Done), Some(StartAct::Bind { clear_markers: true })));
    assert!(matches!(startup.hear(StartNews::Done), Some(StartAct::WritePid)));
    match startup.hear(StartNews::Done) {
        Some(StartAct::PublishPhase { front: false, unindexed }) => assert_eq!(unindexed, !walked),
        other => panic!("{other:?}"),
    }
    assert!(matches!(startup.hear(StartNews::Done), Some(StartAct::RecordOwner)));
    assert!(matches!(startup.hear(StartNews::Done), Some(StartAct::ReadConfig)));
    assert!(matches!(startup.hear(StartNews::Done), Some(StartAct::Serve)));
    let next = startup.hear(StartNews::Done);
    (startup, next)
}

#[test]
fn a_project_that_owes_a_walk_starts_without_a_watcher() {
    let (mut startup, next) = serving(false, false);
    assert!(matches!(
        next,
        Some(StartAct::StartActivation { owed: Owed { needs_bulk_index: true, .. }, watcher: false })
    ));
    assert!(matches!(startup.hear(StartNews::Done), Some(StartAct::Supervise)));
    let ended = StartNews::Failed { error: "accept failed".to_string() };
    assert!(matches!(startup.hear(ended), Some(StartAct::ReleaseLock)));
    match startup.hear(StartNews::Done) {
        Some(StartAct::Exit { error }) => assert_eq!(error.as_deref(), Some("accept failed")),
        other => panic!("{other:?}"),
    }
}

#[test]
fn a_watcher_is_held_back_for_an_owed_pass_and_read_otherwise() {
    let (mut retry, next) = serving(true, false);
    assert!(matches!(next, Some(StartAct::StartWatcher)));
    assert!(matches!(
        retry.hear(StartNews::Done),
        Some(StartAct::StartActivation {
            owed: Owed { needs_bulk_index: false, needs_semantic_pass_retry: true },
            watcher: true
        })
    ));

    let (mut complete, next) = serving(true, true);
    assert!(matches!(next, Some(StartAct::StartWatcher)));
    assert!(matches!(complete.hear(StartNews::Done), Some(StartAct::StartConsumer)));
    assert!(matches!(complete.hear(StartNews::Done), Some(StartAct::StartActivation { watcher: false, .. })));
}

#[test]
fn a_folder_of_projects_is_served_by_a_front() {
    let (mut startup, _) = Startup::run();
    startup.hear(StartNews::LockTaken);
    startup.hear(StartNews::Done);
    let multi = StartNews::Detected { mode: Mode::Multi };
    assert!(matches!(startup.hear(multi), Some(StartAct::Canonicalize)));
    assert!(matches!(startup.hear(StartNews::Done), Some(StartAct::Bind { clear_markers: false })));
    assert!(matches!(startup.hear(StartNews::Done), Some(StartAct::WritePid)));
    assert!(matches!(startup.hear(StartNews::Done), Some(StartAct::PublishPhase { front: true, .. })));
    assert!(matches!(startup.hear(StartNews::Done), Some(StartAct::RecordOwner)));
    assert!(matches!(startup.hear(StartNews::Done), Some(StartAct::Serve)));
    assert!(matches!(startup.hear(StartNews::Done), Some(StartAct::Supervise)));
    assert!(matches!(startup.hear(StartNews::Done), Some(StartAct::ReleaseLock)));
    assert!(matches!(startup.hear(StartNews::Done), Some(StartAct::Exit { error: None })));
}

#[test]
fn a_daemon_without_the_lock_only_leaves_and_a_failure_ends_a_start() {
    let (mut busy, _) = Startup::run();
    assert!(matches!(busy.hear(StartNews::LockBusy), Some(StartAct::StandDown)));
    assert!(matches!(busy.hear(StartNews::Done), Some(StartAct::Exit { error: None })));
    assert_eq!(busy.step, StartStep::Over);

    let mut broken = up_to_the_index();
    match broken.hear(StartNews::Failed { error: "corrupt".to_string() }) {
        Some(StartAct::Exit { error }) => assert_eq!(error.as_deref(), Some("corrupt")),
        other => panic!("{other:?}"),
    }
    assert!(broken.hear(StartNews::Done).is_none());
}

#[test]
fn a_file_that_describes_the_daemon_may_go_unwritten() {
    let failed = || StartNews::Failed { error: "read-only".to_string() };
    let mut startup = up_to_the_index();
    startup.hear(StartNews::IndexOpened { bulk_index_completed: true, semantic_pass_completed: true });
    startup.hear(StartNews::Done);
    assert!(matches!(startup.hear(StartNews::Done), Some(StartAct::WritePid)));
    assert!(matches!(startup.hear(failed()), Some(StartAct::PublishPhase { .. })));
    assert!(matches!(startup.hear(failed()), Some(StartAct::RecordOwner)));
    assert!(matches!(startup.hear(failed()), Some(StartAct::ReadConfig)));
    match startup.hear(failed()) {
        Some(StartAct::Exit { error }) => assert_eq!(error.as_deref(), Some("read-only")),
        other => panic!("{other:?}"),
    }
}

#[test]
fn a_lock_that_cannot_be_let_go_changes_nothing_about_how_it_ended() {
    let (mut startup, _) = serving(false, false);
    startup.hear(StartNews::Done);
    startup.hear(StartNews::Failed { error: "accept failed".to_string() });
    match startup.hear(StartNews::Failed { error: "io".to_string() }) {
        Some(StartAct::Exit { error }) => assert_eq!(error.as_deref(), Some("accept failed")),
        other => panic!("{other:?}"),
    }
}
