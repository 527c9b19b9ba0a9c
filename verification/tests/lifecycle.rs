use g_mesh::lifecycle::{
    front_core_idle, is_definitely_gone, orphan_check, parse_timeout, release_state_files, CoreActivity,
    DirtyQueue, Duty, Heard, IdleTimeouts, Looked, Monitor, Orphaned, Watch, DEFAULT_CORE_IDLE,
    DEFAULT_PLUGIN_IDLE, FRONT_CORE_IDLE, MAX_TICK, MIN_TICK,
};
use g_mesh::path::PathStyle;
use g_mesh::time::{from_millis, from_secs};

#[test]
fn an_unset_timeout_reads_as_its_documented_default() {
    assert_eq!(parse_timeout(None, DEFAULT_PLUGIN_IDLE), Some(DEFAULT_PLUGIN_IDLE));
}

#[test]
fn a_default_config_resolves_to_the_documented_defaults() {
    let resolved = IdleTimeouts::from_config(60, 24, None, None);
    assert_eq!(resolved, IdleTimeouts::default());
    assert_eq!(resolved.plugin, Some(DEFAULT_PLUGIN_IDLE));
    assert_eq!(resolved.core, Some(DEFAULT_CORE_IDLE));
}

#[test]
fn a_configured_plugin_idle_timeout_overrides_the_default() {
    let resolved = IdleTimeouts::from_config(5, 24, None, None);
    assert_eq!(resolved.plugin, Some(from_secs(5 * 60)));
    assert_eq!(resolved.core, Some(DEFAULT_CORE_IDLE));
}

#[test]
fn a_configured_core_idle_timeout_overrides_the_default() {
    let resolved = IdleTimeouts::from_config(60, 2, None, None);
    assert_eq!(resolved.core, Some(from_secs(2 * 60 * 60)));
    assert_eq!(resolved.plugin, Some(DEFAULT_PLUGIN_IDLE));
}

#[test]
fn the_env_override_still_wins_over_a_configured_value() {
    let resolved = IdleTimeouts::from_config(5, 24, Some("250"), None);
    assert_eq!(resolved.plugin, Some(from_millis(250)));
}

#[test]
fn a_configured_value_too_large_to_count_is_the_largest_that_can_be() {
    let resolved = IdleTimeouts::from_config(u64::MAX, u64::MAX, None, None);
    assert_eq!(resolved.plugin, Some(from_secs(u64::MAX)));
    assert_eq!(resolved.core, Some(from_secs(u64::MAX)));
}

#[test]
fn a_zero_timeout_turns_the_timer_off() {
    assert_eq!(parse_timeout(Some("0"), DEFAULT_CORE_IDLE), None);
}

#[test]
fn a_number_is_read_as_milliseconds() {
    assert_eq!(parse_timeout(Some(" 250 "), DEFAULT_CORE_IDLE), Some(from_millis(250)));
}

#[test]
fn an_unparseable_timeout_falls_back_to_the_default() {
    assert_eq!(parse_timeout(Some("10 minutes"), DEFAULT_PLUGIN_IDLE), Some(DEFAULT_PLUGIN_IDLE));
    assert_eq!(parse_timeout(Some("-1"), DEFAULT_PLUGIN_IDLE), Some(DEFAULT_PLUGIN_IDLE));
    assert_eq!(parse_timeout(Some(""), DEFAULT_PLUGIN_IDLE), Some(DEFAULT_PLUGIN_IDLE));
}

#[test]
fn the_front_has_a_timer_of_its_own() {
    assert_eq!(front_core_idle(None), Some(FRONT_CORE_IDLE));
    assert_eq!(front_core_idle(Some("7")), Some(from_millis(7)));
    assert_eq!(front_core_idle(Some("0")), None);
}

#[test]
fn the_monitor_tick_is_clamped_at_both_ends() {
    let production = IdleTimeouts::default();
    assert_eq!(production.tick(), MAX_TICK, "a quarter of an hour is too coarse to be useful");

    let tiny = IdleTimeouts { plugin: Some(from_millis(4)), core: Some(DEFAULT_CORE_IDLE) };
    assert_eq!(tiny.tick(), MIN_TICK, "a short test timeout must not become a spin loop");

    let test_sized = IdleTimeouts { plugin: Some(from_millis(800)), core: Some(DEFAULT_CORE_IDLE) };
    assert_eq!(test_sized.tick(), from_millis(200));
}

#[test]
fn both_timers_off_still_yields_a_sane_tick() {
    assert_eq!(IdleTimeouts { plugin: None, core: None }.tick(), MAX_TICK);
}

#[test]
fn the_dirty_queue_keeps_first_sighting_order_and_drops_repeats() {
    let mut queue = DirtyQueue::default();
    assert!(queue.is_empty());

    queue.push("src/a.ts".to_string());
    queue.push("src/b.ts".to_string());
    queue.push("src/a.ts".to_string());
    assert!(!queue.is_empty());
    assert_eq!(queue.len(), 2);

    assert_eq!(queue.drain(), vec!["src/a.ts".to_string(), "src/b.ts".to_string()]);
    assert!(queue.is_empty(), "a drained queue starts the next sleep empty");

    queue.push("src/a.ts".to_string());
    assert_eq!(queue.drain(), vec!["src/a.ts".to_string()]);
}

#[test]
fn a_project_root_and_executable_that_both_exist_are_not_an_orphan() {
    let exe = Some(("/bin/g-mesh".to_string(), Looked::Present));
    assert_eq!(orphan_check("/project", Looked::Present, exe), None);
}

#[test]
fn a_deleted_project_root_is_an_orphan() {
    let exe = Some(("/bin/g-mesh".to_string(), Looked::Present));
    let gone = Orphaned::ProjectRootGone("/project".to_string());
    assert_eq!(orphan_check("/project", Looked::NotFound, exe), Some(gone.clone()));
    assert!(gone.message().contains("/project"), "the reason must name the root it judged");
    assert_eq!(gone.message(), "the project root /project no longer exists");
}

#[test]
fn a_deleted_executable_is_an_orphan_even_with_the_project_root_intact() {
    let exe = "/bin/g-mesh".to_string();
    assert_eq!(orphan_check("/project", Looked::Present, Some((exe.clone(), Looked::Present))), None);

    let gone = orphan_check("/project", Looked::Present, Some((exe.clone(), Looked::NotFound)));
    assert_eq!(gone, Some(Orphaned::ExecutableGone(exe)));
    assert_eq!(
        gone.unwrap().message(),
        "the executable this daemon was started from (/bin/g-mesh) no longer exists"
    );
}

#[test]
fn an_unresolvable_executable_is_never_treated_as_a_missing_one() {
    assert_eq!(orphan_check("/project", Looked::Present, None), None);
    let unknown = Some(("/bin/g-mesh".to_string(), Looked::Unknown));
    assert_eq!(orphan_check("/project", Looked::Present, unknown), None);
}

#[test]
fn a_root_that_is_gone_is_reported_ahead_of_an_executable_that_is_also_gone() {
    let exe = Some(("/project/target/debug/g-mesh".to_string(), Looked::NotFound));
    assert_eq!(
        orphan_check("/project", Looked::NotFound, exe),
        Some(Orphaned::ProjectRootGone("/project".to_string()))
    );
}

#[test]
fn only_a_positively_absent_path_reads_as_gone() {
    assert!(!is_definitely_gone(Looked::Present), "a directory that exists is not gone");
    assert!(!is_definitely_gone(Looked::Unknown));
    assert!(is_definitely_gone(Looked::NotFound));
}

#[test]
fn a_disabled_core_timeout_never_reports_an_idle_core() {
    let core = CoreActivity::new(0);
    assert_eq!(core.idle_beyond(None, from_millis(5)), None);
}

#[test]
fn an_unattended_core_reports_idle_once_its_timeout_elapses() {
    let core = CoreActivity::new(0);
    assert_eq!(core.idle_beyond(Some(from_secs(60)), 0), None, "it has only just started");

    let idle = core.idle_beyond(Some(from_millis(10)), from_millis(20)).expect("nothing is attached");
    assert_eq!(idle, from_millis(20), "reported idle time must be the real one");
}

#[test]
fn a_live_connection_holds_the_core_open_however_quiet_it_is() {
    let mut core = CoreActivity::new(0);
    let guard = core.connection_opened(0);

    assert_eq!(
        core.idle_beyond(Some(from_millis(1)), from_millis(20)),
        None,
        "a client is attached, so the core is not idle no matter how long it has been silent"
    );

    core.connection_closed(guard, from_millis(20));
    assert_eq!(core.idle_beyond(Some(from_millis(10)), from_millis(20)), None);
    assert!(core.idle_beyond(Some(from_millis(10)), from_millis(40)).is_some());
}

#[test]
fn a_request_restarts_the_idle_clock() {
    let mut core = CoreActivity::new(0);
    core.request(from_millis(20));
    assert_eq!(core.idle_beyond(Some(from_millis(15)), from_millis(20)), None);
}

#[test]
fn a_daemon_takes_every_file_of_its_own_along() {
    let pids = vec!["/s/plugin-go.pid".to_string()];
    assert_eq!(
        release_state_files("/s", &pids, PathStyle::Unix),
        vec![
            "/s/daemon.pid",
            "/s/plugin-go.pid",
            "/s/daemon.build",
            "/s/index.phase",
            "/s/index.progress",
            "/s/daemon.sock"
        ]
    );
    assert_eq!(release_state_files("C:\\s", &Vec::new(), PathStyle::Windows).len(), 4);
}

#[test]
fn a_tick_goes_from_the_orphan_to_the_plugins_to_the_core() {
    let (mut monitor, first) = Monitor::supervise(IdleTimeouts::default());
    assert_eq!(first, Duty::AwaitTick { tick: MAX_TICK });
    assert_eq!(monitor.hear(Heard::Tick), Some(Duty::CheckOrphan));
    assert_eq!(monitor.hear(Heard::Orphan(None)), Some(Duty::SleepIdlePlugins));
    assert_eq!(monitor.hear(Heard::Done), Some(Duty::CheckPluginMemory));
    assert_eq!(monitor.hear(Heard::Done), Some(Duty::CheckCoreIdle));
    assert_eq!(monitor.hear(Heard::Idle(None)), Some(Duty::AwaitTick { tick: MAX_TICK }));
    assert_eq!(monitor.hear(Heard::Done), None, "nothing waits for that");
    assert_eq!(
        monitor.hear(Heard::AcceptPanicked),
        Some(Duty::Exit { error: Some("the daemon's MCP accept loop panicked".to_string()) })
    );
    assert_eq!(monitor.at, Watch::Over);
}

#[test]
fn an_orphan_stops_its_plugins_and_takes_its_files_before_it_exits() {
    let (mut monitor, _) = Monitor::supervise(IdleTimeouts::default());
    monitor.hear(Heard::Tick);
    let gone = Orphaned::ProjectRootGone("/project".to_string());
    assert_eq!(
        monitor.hear(Heard::Orphan(Some(gone))),
        Some(Duty::StopPlugins { reason: "the core has been orphaned and is shutting down".to_string() })
    );
    assert_eq!(monitor.hear(Heard::Done), Some(Duty::ReleaseFiles));
    assert_eq!(monitor.hear(Heard::Done), Some(Duty::Exit { error: None }));
}

#[test]
fn an_idle_core_shuts_down_and_an_accept_loop_that_fails_ends_it() {
    let (mut monitor, _) = Monitor::supervise(IdleTimeouts::default());
    monitor.hear(Heard::Tick);
    monitor.hear(Heard::Orphan(None));
    monitor.hear(Heard::Done);
    monitor.hear(Heard::Done);
    assert_eq!(
        monitor.hear(Heard::Idle(Some(1))),
        Some(Duty::StopPlugins { reason: "the core is shutting down".to_string() })
    );

    let (mut failing, _) = Monitor::supervise(IdleTimeouts::default());
    assert_eq!(
        failing.hear(Heard::AcceptEnded { error: Some("gone".to_string()) }),
        Some(Duty::Exit { error: Some("gone".to_string()) })
    );
}

#[test]
fn the_last_of_several_connections_starts_the_idle_clock() {
    let mut core = CoreActivity::new(0);
    let timeout = Some(from_millis(10));
    let one = core.connection_opened(0);
    let other = core.connection_opened(0);
    core.connection_closed(one, from_millis(5));
    assert_eq!(core.idle_beyond(timeout, from_millis(1_000_000)), None, "one is still attached");
    core.connection_closed(other, from_millis(1_000_000));
    assert_eq!(core.idle_beyond(timeout, from_millis(1_000_009)), None);
    assert_eq!(core.idle_beyond(timeout, from_millis(1_000_010)), Some(from_millis(10)));
    core.live_connections = usize::MAX;
    core.connection_opened(0);
    assert_eq!(core.live_connections, 0, "the counter starts over");
}
