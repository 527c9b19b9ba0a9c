use g_mesh::manifest::{semantic_pass_capable_languages, Capabilities, PluginManifest, WorkspaceConfig};
use g_mesh::semantic::{
    indexed_file_count, PassAct, PassNews, PassRun, Passed, SemanticPassRun, NOT_RUN_REASON,
};

fn texts(items: &[&str]) -> Vec<String> {
    items.iter().map(|s| s.to_string()).collect()
}

fn recorded() -> PassNews {
    PassNews::Recorded { error: None }
}

fn failed(reason: &str) -> PassNews {
    PassNews::Asked { passed: Passed::Failed { reason: reason.to_string() } }
}

fn ran() -> PassNews {
    PassNews::Asked { passed: Passed::Ran }
}

#[test]
fn two_capable_languages_each_get_their_own_semantic_pass_at() {
    let (mut run, act) = PassRun::run_with_registry(texts(&["alpha", "beta"]));
    assert!(matches!(act, PassAct::Ask { language } if language == "alpha"));
    assert!(matches!(run.hear(ran()), Some(PassAct::RecordCompletion { language }) if language == "alpha"));
    assert!(matches!(run.hear(recorded()), Some(PassAct::Ask { language }) if language == "beta"));
    assert!(matches!(run.hear(ran()), Some(PassAct::RecordCompletion { language }) if language == "beta"));
    assert!(matches!(run.hear(recorded()), Some(PassAct::Reconcile)));
    assert!(matches!(run.hear(recorded()), Some(PassAct::Finish)));
    assert_eq!(run.run.completed, texts(&["alpha", "beta"]));
    assert!(run.run.failed.is_empty());
    assert!(run.run.any_ran());
    assert!(run.hear(recorded()).is_none(), "it is over");
}

#[test]
fn only_the_semantic_pass_capable_language_receives_the_request() {
    let manifest = |language: &str, semantic_pass: bool| PluginManifest {
        language: language.to_string(),
        protocol_version: 1,
        plugin_version: String::new(),
        command: "true".to_string(),
        args: Vec::new(),
        extensions: Vec::new(),
        fingerprint_ignore: Vec::new(),
        manifest_dir: String::new(),
        capabilities: Capabilities { semantic_pass, ..Capabilities::default() },
        workspace: WorkspaceConfig::default(),
    };
    let capable = semantic_pass_capable_languages(&vec![manifest("beta", false), manifest("alpha", true)]);
    let (mut run, act) = PassRun::run_with_registry(capable);
    assert!(matches!(act, PassAct::Ask { language } if language == "alpha"), "the capable language is asked");
    assert!(matches!(run.hear(ran()), Some(PassAct::RecordCompletion { .. })));
    assert!(matches!(run.hear(recorded()), Some(PassAct::Reconcile)), "and no other");
    assert!(matches!(run.hear(recorded()), Some(PassAct::Finish)));
    assert_eq!(run.run.completed, texts(&["alpha"]));
    assert!(run.run.failed.is_empty());
}

#[test]
fn an_interrupted_pass_for_one_language_is_retried_without_rerunning_the_other() {
    let (mut first, _) = PassRun::run_with_registry(texts(&["alpha", "beta"]));
    match first.hear(failed("semanticPass timed out")) {
        Some(PassAct::RecordReason { language, reason }) => {
            assert_eq!(language, "alpha");
            assert_eq!(reason, "semanticPass timed out");
        }
        other => panic!("{other:?}"),
    }
    assert!(matches!(first.hear(recorded()), Some(PassAct::Ask { language }) if language == "beta"));
    first.hear(ran());
    first.hear(recorded());
    first.hear(recorded());
    assert_eq!(first.run.completed, texts(&["beta"]), "beta must have completed normally");
    assert_eq!(
        first.run.failed,
        vec![("alpha".to_string(), "semanticPass timed out".to_string())],
        "alpha must be reported as failed, not silently dropped"
    );

    let (mut second, act) = PassRun::run_with_registry(texts(&["alpha"]));
    assert!(matches!(act, PassAct::Ask { language } if language == "alpha"));
    second.hear(ran());
    second.hear(recorded());
    assert_eq!(second.run.completed, texts(&["alpha"]));
}

#[test]
fn an_incomplete_pass_records_the_plugins_reason_until_a_pass_completes() {
    const REASON: &str = "the language server refused a question about src/a.alpha-src (internal error)";
    let (mut first, _) = PassRun::run_with_registry(texts(&["alpha"]));
    match first.hear(failed(REASON)) {
        Some(PassAct::RecordReason { language, reason }) => {
            assert_eq!(language, "alpha");
            assert!(reason.contains(REASON), "the plugin's own reason is recorded");
        }
        other => panic!("{other:?}"),
    }
    first.hear(recorded());
    assert!(first.run.completed.is_empty(), "an incomplete pass is not a completed one");
    assert_eq!(first.run.failed[0].0, "alpha");

    let (mut second, _) = PassRun::run_with_registry(texts(&["alpha"]));
    assert!(matches!(second.hear(ran()), Some(PassAct::RecordCompletion { .. })));
    second.hear(recorded());
    assert_eq!(second.run.completed, texts(&["alpha"]));
    assert!(second.run.failed.is_empty());
}

#[test]
fn a_pass_not_run_because_the_plugin_is_asleep_is_recorded_with_its_reason() {
    let (mut run, _) = PassRun::run_with_registry(texts(&["alpha"]));
    match run.hear(PassNews::Asked { passed: Passed::NotRun }) {
        Some(PassAct::RecordReason { language, reason }) => {
            assert_eq!(language, "alpha");
            assert_eq!(reason, NOT_RUN_REASON);
            assert!(reason.contains("asleep or memory-suspended"));
        }
        other => panic!("{other:?}"),
    }
    run.hear(recorded());
    assert!(run.run.completed.is_empty());
    assert!(run.run.failed.is_empty(), "a pass that did not run is not a failed one");
    assert!(!run.run.any_ran());
}

#[test]
fn a_completion_that_cannot_be_written_is_recorded_as_the_reason() {
    let (mut run, _) = PassRun::run_with_registry(texts(&["alpha"]));
    run.hear(ran());
    match run.hear(PassNews::Recorded { error: Some("the disk is full".to_string()) }) {
        Some(PassAct::RecordReason { language, reason }) => {
            assert_eq!(language, "alpha");
            assert_eq!(reason, "the disk is full");
        }
        other => panic!("{other:?}"),
    }
    assert!(run.run.completed.is_empty());
    assert_eq!(run.run.failed.len(), 1);
}

#[test]
fn a_run_with_nothing_owed_still_reconciles() {
    let (mut run, act) = PassRun::run_with_registry(Vec::new());
    assert!(matches!(act, PassAct::Reconcile));
    assert!(matches!(run.hear(recorded()), Some(PassAct::Finish)));
}

#[test]
fn a_plugin_of_one_pass_is_shut_down_whatever_came_of_it() {
    let (mut run, act) = PassRun::run_once(texts(&["alpha", "beta"]));
    assert!(matches!(act, PassAct::Spawn { language } if language == "alpha"));
    match run.hear(PassNews::Spawned { error: Some("no such file".to_string()) }) {
        Some(PassAct::RecordReason { reason, .. }) => {
            assert_eq!(reason, "failed to start the alpha plugin: no such file")
        }
        other => panic!("{other:?}"),
    }
    assert!(matches!(run.hear(recorded()), Some(PassAct::Spawn { language }) if language == "beta"));
    assert!(matches!(run.hear(PassNews::Spawned { error: None }), Some(PassAct::Ask { .. })));
    assert!(matches!(run.hear(failed("no")), Some(PassAct::Shutdown { language }) if language == "beta"));
    assert!(matches!(run.hear(PassNews::ShutDown), Some(PassAct::RecordReason { .. })));
    run.hear(recorded());
    run.hear(recorded());
    assert_eq!(run.run.failed.len(), 2);
}

#[test]
fn a_run_is_told_in_one_line_for_each_language() {
    let run = SemanticPassRun {
        completed: texts(&["go"]),
        failed: vec![("rust".to_string(), "timed out".to_string())],
    };
    assert_eq!(
        run.log("the freshly built index"),
        texts(&[
            "g-mesh: go semantic pass over the freshly built index complete",
            "g-mesh: the rust semantic pass over the freshly built index failed (timed out) - its edges keep \
             whatever the structural pass resolved"
        ])
    );
}

#[test]
fn a_count_that_cannot_be_had_is_none() {
    assert_eq!(indexed_file_count(Some(658)), 658);
    assert_eq!(indexed_file_count(Some(-1)), 0);
    assert_eq!(indexed_file_count(None), 0);
}
