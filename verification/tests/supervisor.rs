use g_mesh::manifest::{Capabilities, PluginManifest, WorkspaceConfig};
use g_mesh::path::PathStyle;
use g_mesh::supervisor::{replayed, Applied, Freshen, OnChange, OnSample, PluginSupervisor, Replay};
use g_mesh::time::from_millis;

fn supervisor_with(idle_ms: Option<u64>, limit_mb: Option<u64>) -> PluginSupervisor {
    let mut capabilities = Capabilities::default();
    capabilities.semantic_pass = true;
    let manifest = PluginManifest {
        language: "heavy".to_string(),
        protocol_version: 1,
        plugin_version: String::new(),
        command: "true".to_string(),
        args: Vec::new(),
        extensions: Vec::new(),
        fingerprint_ignore: Vec::new(),
        manifest_dir: "/plugins/heavy".to_string(),
        capabilities,
        workspace: WorkspaceConfig::default(),
    };
    let idle = idle_ms.map(from_millis);
    let pid_file = "/state/plugin-heavy.pid".to_string();
    let (supervisor, record) = PluginSupervisor::start(manifest, pid_file, PathStyle::Unix, idle, limit_mb, 500, 77, 0);
    assert_eq!(record.path, "/state/plugin-heavy.pid");
    assert_eq!(record.temporary, "/state/plugin-heavy.77.tmp");
    assert_eq!(record.contents, "500\n");
    supervisor
}

#[test]
fn a_supervisor_wakes_the_plugin_its_own_manifest_names() {
    let mut supervisor = supervisor_with(None, None);
    assert_eq!(supervisor.language(), "heavy");
    assert_eq!(supervisor.manifest().command, "true");
    let first_pid = supervisor.pid().expect("a freshly started plugin is awake");

    assert_eq!(supervisor.sleep_now(), Some(first_pid));
    assert_eq!(supervisor.pid(), None, "a sleeping supervisor has no process");

    assert!(matches!(supervisor.file_changed("app.heavy-src".to_string(), 0), OnChange::Queued));
    assert!(supervisor.has_pending());
    assert_eq!(supervisor.pid(), None, "queueing must not wake anything");

    assert!(matches!(supervisor.replay_pending(0), Replay::Wake));
    assert!(supervisor.has_pending(), "a plugin that fails to start leaves the queue intact");
    assert_eq!(supervisor.woken(501, 77).contents, "501\n");
    match supervisor.replay_pending(0) {
        Replay::Send { files, semantic } => {
            assert_eq!(files, vec!["app.heavy-src".to_string()]);
            assert!(semantic);
        }
        other => panic!("{other:?}"),
    }
    assert!(!supervisor.has_pending());
    assert!(matches!(supervisor.replay_pending(0), Replay::Nothing));
    assert_eq!(supervisor.pid(), Some(501));
}

#[test]
fn a_timed_out_file_change_is_queued_and_a_failed_one_is_dropped() {
    let mut supervisor = supervisor_with(None, None);
    assert!(matches!(supervisor.file_changed("a".to_string(), 0), OnChange::Apply { semantic: true, .. }));
    supervisor.file_change_ended("a".to_string(), Applied::Failed);
    supervisor.file_change_ended("a".to_string(), Applied::Committed);
    assert!(!supervisor.has_pending());
    supervisor.file_change_ended("a".to_string(), Applied::TimedOut);
    supervisor.file_change_ended("a".to_string(), Applied::TimedOut);
    assert!(supervisor.has_pending(), "the timed-out file must stay queued as dirty, not be dropped");
    assert_eq!(supervisor.pending_len(), 1);
}

#[test]
fn one_unreadable_file_does_not_cost_the_others_their_replay() {
    assert_eq!(replayed(&vec![Applied::Committed, Applied::Failed, Applied::Committed, Applied::TimedOut]), 2);
    assert_eq!(replayed(&Vec::new()), 0);
}

#[test]
fn with_no_memory_limit_configured_an_oversized_plugin_is_left_alone() {
    let supervisor = supervisor_with(None, None);
    assert_eq!(supervisor.check_memory_limit(), None, "nothing is sampled without a limit");
    assert_eq!(supervisor.pid(), Some(500));
    assert!(!supervisor.is_semantic_suspended());
}

#[test]
fn a_plugin_over_its_memory_limit_is_put_to_sleep_and_its_language_suspended() {
    let mut supervisor = supervisor_with(None, Some(100));
    assert!(!supervisor.is_semantic_suspended(), "not suspended before the first sample");
    assert!(matches!(supervisor.memory_sampled(Some(500)), OnSample::Confirm));
    supervisor.memory_confirmed(500, Some(480), 77);

    assert_eq!(supervisor.pid(), None, "a plugin over its memory limit must be put to sleep");
    assert!(supervisor.is_semantic_suspended(), "its language's semantic passes must be suspended");

    supervisor.file_changed("app.heavy-src".to_string(), 0);
    assert!(supervisor.has_pending());
    assert!(matches!(supervisor.replay_pending(0), Replay::Wake));
    supervisor.woken(501, 77);
    match supervisor.replay_pending(0) {
        Replay::Send { files, semantic } => {
            assert_eq!(files.len(), 1, "structural work still happens");
            assert!(!semantic, "a suspended language must never receive a semanticPass request");
        }
        other => panic!("{other:?}"),
    }
    assert!(supervisor.is_semantic_suspended(), "suspension persists across the wake");
    assert!(
        !supervisor.semantic_pass(0),
        "a suspended language's whole-project semantic pass must not run either"
    );
    assert!(matches!(
        supervisor.ensure_fresh(true, 0),
        Freshen::Reindex { semantic: false }
    ));
}

#[test]
fn an_unconfirmed_over_limit_sample_leaves_the_plugin_running() {
    let mut supervisor = supervisor_with(None, Some(100));
    assert_eq!(supervisor.check_memory_limit(), Some(500));
    assert!(matches!(supervisor.memory_sampled(Some(500)), OnSample::Confirm));
    assert!(matches!(supervisor.memory_confirmed(500, Some(40), 77), OnSample::KeepRunning));
    assert_eq!(supervisor.pid(), Some(500), "a transient over-limit instant must not put it to sleep");
    assert!(!supervisor.is_semantic_suspended(), "nor suspend its language");
}

#[test]
fn a_confirmed_over_limit_sample_suspends_the_language() {
    let mut supervisor = supervisor_with(None, Some(100));
    assert!(matches!(supervisor.memory_sampled(Some(500)), OnSample::Confirm));
    match supervisor.memory_confirmed(500, Some(480), 77) {
        OnSample::Suspend { pid, marker, reason } => {
            assert_eq!(pid, 500);
            assert_eq!(marker.path, "/state/plugin-heavy.suspended");
            assert_eq!(marker.path, supervisor.suspended_marker_path());
            assert_eq!(marker.contents, format!("{reason}\n"));
            assert_eq!(
                reason,
                "memoryLimitMb 100MB exceeded - measured 500MB across its process tree and confirmed at 480MB by \
                 a second sample"
            );
        }
        other => panic!("{other:?}"),
    }
    assert_eq!(supervisor.pid(), None, "a confirmed overage must put the plugin to sleep");
    assert_eq!(supervisor.check_memory_limit(), None);
}

#[test]
fn a_reading_under_the_limit_costs_a_single_sample() {
    let mut supervisor = supervisor_with(None, Some(100));
    assert!(matches!(supervisor.memory_sampled(Some(40)), OnSample::KeepRunning));
    assert!(matches!(supervisor.memory_sampled(Some(100)), OnSample::KeepRunning), "the limit itself is within");
    assert_eq!(supervisor.pid(), Some(500), "and the plugin is left running");
    assert!(!supervisor.is_semantic_suspended());
}

#[test]
fn a_sample_that_cannot_be_taken_is_logged_once() {
    let mut supervisor = supervisor_with(None, Some(100));
    assert!(matches!(supervisor.memory_sampled(None), OnSample::Unavailable { log: true }));
    assert!(matches!(supervisor.memory_confirmed(1, None, 77), OnSample::Unavailable { log: false }));
}

#[test]
fn only_an_idle_plugin_sleeps_on_its_timer() {
    let mut supervisor = supervisor_with(Some(10), None);
    assert_eq!(supervisor.sleep_if_idle(from_millis(9)), None);
    assert!(supervisor.semantic_pass(from_millis(9)));
    assert_eq!(supervisor.sleep_if_idle(from_millis(18)), None, "the pass was activity");
    assert_eq!(supervisor.sleep_if_idle(from_millis(19)), Some(500));
    assert_eq!(supervisor.sleep_if_idle(from_millis(99)), None, "it sleeps already");
    assert!(!supervisor.semantic_pass(from_millis(99)), "a plugin that sleeps is not woken for a pass");
    assert_eq!(supervisor_with(None, None).sleep_if_idle(from_millis(1_000_000)), None);
}

#[test]
fn a_stale_file_wakes_the_plugin_and_a_current_one_does_not() {
    let mut supervisor = supervisor_with(None, None);
    assert_eq!(supervisor.ensure_fresh(false, 0), Freshen::AlreadyFresh);
    assert_eq!(supervisor.ensure_fresh(true, 0), Freshen::Reindex { semantic: true });
    supervisor.sleep_now();
    assert_eq!(supervisor.ensure_fresh(true, 0), Freshen::Wake);
    assert_eq!(supervisor.ensure_fresh(false, 0), Freshen::AlreadyFresh);
}
