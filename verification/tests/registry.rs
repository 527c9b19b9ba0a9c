use g_mesh::delivery::{Act, Delivered, News, PluginProcess, Sent};
use g_mesh::fingerprint::BuildEntry;
use g_mesh::generation::{indexer_version, plugins_digest};
use g_mesh::manifest::{discover, Capabilities, DiscoveredPlugins, PluginManifest, WorkspaceConfig};
use g_mesh::path::PathStyle;
use g_mesh::plugin::RoundTripTimeouts;
use g_mesh::registry::{
    clear_stale_suspension_markers, discovered_pid_files, discovered_suspended_marker_paths,
    discovered_suspended_markers, file_name_of, waited_failure, workspace_languages, FreshRoute, GetOrSpawn,
    PluginRegistry, Route, StateEntry,
};
use g_mesh::supervisor::{OnChange, PluginSupervisor, Replay};
use g_mesh::time::from_millis;
use sha2::Digest;

const CORE: &str = "7";

fn texts(items: &[&str]) -> Vec<String> {
    items.iter().map(|s| s.to_string()).collect()
}

fn manifest(language: &str, extensions: &[String]) -> PluginManifest {
    PluginManifest {
        language: language.to_string(),
        protocol_version: 1,
        plugin_version: "0.0.0".to_string(),
        command: "true".to_string(),
        args: Vec::new(),
        extensions: extensions.to_vec(),
        fingerprint_ignore: Vec::new(),
        manifest_dir: format!("/plugins/{language}"),
        capabilities: Capabilities::default(),
        workspace: WorkspaceConfig::default(),
    }
}

fn discovery_over(languages: &[&str]) -> DiscoveredPlugins {
    discover(languages.iter().map(|l| manifest(l, &[format!(".{l}-src")])).collect(), PathStyle::Unix).unwrap()
}

fn over(discovered: DiscoveredPlugins) -> PluginRegistry {
    PluginRegistry::new("/project", "/state".to_string(), PathStyle::Unix, discovered, None, None)
}

fn registry_over(languages: &[&str]) -> PluginRegistry {
    over(discovery_over(languages))
}

fn registry_over_workspace(
    language: &str,
    extension: &str,
    watch_files: &[&str],
    exclude_dirs: &[&str],
) -> PluginRegistry {
    let mut m = manifest(language, &[extension.to_string()]);
    m.workspace.watch_files = texts(watch_files);
    m.workspace.exclude_dirs = texts(exclude_dirs);
    over(discover(vec![m], PathStyle::Unix).unwrap())
}

/// Has a language's plugin started, as `pid`.
fn start(registry: &mut PluginRegistry, language: &str, pid: u32) {
    match registry.get_or_spawn(language) {
        GetOrSpawn::Spawn { manifest, pid_file } => {
            let m = registry.discovered.manifests[manifest].clone();
            let (idle, limit) = (registry.idle_timeout, registry.memory_limit_mb);
            let (supervisor, _) =
                PluginSupervisor::start(m, pid_file, PathStyle::Unix, idle, limit, pid, 1, 0);
            registry.settle(language, Ok(supervisor));
        }
        other => panic!("expected to be told to start {language}, got {other:?}"),
    }
}

fn build(source: &str) -> Option<Vec<BuildEntry>> {
    Some(vec![BuildEntry::File { name: "plugin.js".to_string(), bytes: source.as_bytes().to_vec() }])
}

#[test]
fn the_generation_names_the_core_pipeline_and_a_digest_of_every_plugin() {
    let discovered = discovery_over(&["python", "go"]);
    let builds = vec![build("python"), build("go")];

    let version = indexer_version(CORE, &discovered, &builds, PathStyle::Unix);
    let (core, plugins) = version.split_once('+').expect("both halves must be present");

    assert_eq!(core, CORE);
    assert!(plugins.chars().all(|c| c.is_ascii_hexdigit()), "{plugins} must be hex");
    assert!(!plugins.is_empty(), "the plugin half must be a real digest");
    assert_eq!(indexer_version(CORE, &discovered, &builds, PathStyle::Unix), version);
}

#[test]
fn scanning_the_same_plugins_roots_in_either_order_is_the_same_generation() {
    let forwards = discovery_over(&["python", "go"]);
    let backwards = discovery_over(&["go", "python"]);

    assert_eq!(forwards.manifests.len(), 2, "both roots must have contributed");
    assert_eq!(
        indexer_version(CORE, &backwards, &vec![build("g"), build("p")], PathStyle::Unix),
        indexer_version(CORE, &forwards, &vec![build("p"), build("g")], PathStyle::Unix)
    );
}

#[test]
fn the_generation_does_not_depend_on_hash_map_iteration_order() {
    let languages = ["python", "go", "rust", "ruby", "elixir", "zig", "nim", "ocaml"];
    let reversed: Vec<&str> = languages.iter().rev().copied().collect();
    let builds: Vec<_> = languages.iter().map(|l| build(l)).collect();
    let reversed_builds: Vec<_> = reversed.iter().map(|l| build(l)).collect();

    assert_eq!(
        indexer_version(CORE, &discovery_over(&reversed), &reversed_builds, PathStyle::Unix),
        indexer_version(CORE, &discovery_over(&languages), &builds, PathStyle::Unix)
    );
}

#[test]
fn rebuilding_either_languages_plugin_changes_the_generation() {
    let discovered = discovery_over(&["python", "go"]);
    let before = indexer_version(CORE, &discovered, &vec![build("p"), build("g")], PathStyle::Unix);

    let after_python = indexer_version(CORE, &discovered, &vec![build("p2"), build("g")], PathStyle::Unix);
    assert_ne!(after_python, before, "a rebuilt python plugin must move the generation");

    let after_go = indexer_version(CORE, &discovered, &vec![build("p2"), build("g2")], PathStyle::Unix);
    assert_ne!(after_go, after_python, "and so must a rebuilt go plugin");
    assert_ne!(after_go, before);
}

#[test]
fn re_emitting_a_plugin_unchanged_leaves_the_generation_alone() {
    let discovered = discovery_over(&["python", "go"]);
    let before = indexer_version(CORE, &discovered, &vec![build("p"), build("g")], PathStyle::Unix);
    assert_eq!(indexer_version(CORE, &discovered, &vec![build("p"), build("g")], PathStyle::Unix), before);
}

#[test]
fn adding_a_second_language_changes_the_generation_without_disturbing_the_first() {
    let only_python = indexer_version(CORE, &discovery_over(&["python"]), &vec![build("p")], PathStyle::Unix);
    let both = indexer_version(CORE, &discovery_over(&["python", "go"]), &vec![build("p"), build("g")], PathStyle::Unix);
    let python_again = indexer_version(CORE, &discovery_over(&["python"]), &vec![build("p")], PathStyle::Unix);

    assert_ne!(both, only_python);
    assert_eq!(python_again, only_python);
}

#[test]
fn a_discovery_that_found_nothing_still_produces_a_well_formed_generation() {
    let empty = indexer_version(CORE, &DiscoveredPlugins::default(), &Vec::new(), PathStyle::Unix);
    let (core, plugins) = empty.split_once('+').expect("both halves must be present");
    assert_eq!(core, CORE);
    assert!(plugins.chars().all(|c| c.is_ascii_hexdigit()), "{plugins} must be hex");
    assert_ne!(empty, indexer_version(CORE, &discovery_over(&["python"]), &vec![build("p")], PathStyle::Unix));
    assert_eq!(empty, "7+e3b0c44298fc1c14", "the digest of nothing");
}

#[test]
fn the_digest_is_of_languages_and_builds_in_the_order_of_the_languages() {
    let expected: String =
        sha2::Sha256::digest(b"go\0g1\0python\0p1\0").iter().take(8).map(|b| format!("{b:02x}")).collect();
    let pairs = vec![("python".to_string(), "p1".to_string()), ("go".to_string(), "g1".to_string())];
    assert_eq!(plugins_digest(&pairs), expected);
}

#[test]
fn routing_resolves_an_extension_to_its_language_and_ignores_case() {
    let registry = registry_over(&["python"]);

    assert_eq!(registry.language_for("src/app.python-src"), Some("python"));
    assert_eq!(registry.language_for("src/App.PYTHON-SRC"), Some("python"));
    assert_eq!(registry.language_for("README.md"), None);
    assert_eq!(registry.language_for("Makefile"), None);
    assert!(registry.has_manifest("python"));
    assert!(!registry.has_manifest("go"));
    assert_eq!(registry.project_root(), "/project");
}

#[test]
fn entry_points_unions_every_discovered_manifests_own_list_deduplicated() {
    let mut typescript = manifest("typescript", &[]);
    typescript.workspace.entry_points = texts(&["index"]);
    let mut also_index = manifest("also_index", &[]);
    also_index.workspace.entry_points = texts(&["index"]);
    let mut rust = manifest("rust", &[]);
    rust.workspace.entry_points = texts(&["mod.rs", "main.rs", "lib.rs"]);
    let registry = over(discover(vec![typescript, also_index, rust], PathStyle::Unix).unwrap());

    assert_eq!(
        registry.entry_points(),
        texts(&["index", "lib.rs", "main.rs", "mod.rs"]),
        "sorted, deduplicated union of every discovered manifest's own entry_points"
    );
}

#[test]
fn capabilities_are_told_by_language() {
    let mut go = manifest("go", &[]);
    go.capabilities.semantic_pass = true;
    let registry = over(discover(vec![manifest("ruby", &[]), go], PathStyle::Unix).unwrap());
    let told = registry.receiver_call_capabilities();
    assert_eq!(told.len(), 2);
    assert_eq!(told[1].0, "go");
    assert!(told[1].1.semantic_pass && !told[0].1.semantic_pass);
    assert_eq!(registry.semantic_pass_languages(), texts(&["go"]));
}

#[test]
fn a_file_no_plugin_claims_is_skipped_without_spawning_anything() {
    let mut registry = registry_over(&["python"]);

    for file in ["README.md", "docs/design.md", "Makefile"] {
        assert!(matches!(registry.file_changed(file), Route::Unclaimed { .. }));
    }

    assert!(registry.supervisors.is_empty(), "a file nothing claims must not bring a plugin up");
}

#[test]
fn an_unclaimed_extension_is_reported_once_however_many_files_share_it() {
    let mut registry = registry_over(&["python"]);

    let first = registry.unroutable_notice("README.md");
    assert!(first.is_some(), "the first unclaimed file of its kind must be reported");
    assert!(first.unwrap().contains(".md"), "the message must name the extension");

    for i in 0..50 {
        assert_eq!(
            registry.unroutable_notice(&format!("docs/page-{i}.md")),
            None,
            "every later .md file must be silent"
        );
    }

    assert!(registry.unroutable_notice("notes.txt").is_some());
    assert_eq!(registry.unroutable_notice("other.txt"), None);

    assert_eq!(
        registry.unroutable_notice("Makefile").unwrap(),
        "g-mesh daemon: no installed plugin claims files without an extension (first seen: Makefile) - changes \
         to them are not indexed; further extensionless files will not be reported again"
    );
    assert_eq!(registry.unroutable_notice("Dockerfile"), None);
}

#[test]
fn the_second_file_of_a_language_reuses_the_first_files_plugin() {
    let mut registry = registry_over(&["python"]);
    start(&mut registry, "python", 41);
    assert!(matches!(registry.get_or_spawn("python"), GetOrSpawn::Running));
    assert_eq!(registry.supervisors.len(), 1);
    assert_eq!(registry.supervisor_mut("python").unwrap().pid(), Some(41), "still the same process");
}

#[test]
fn each_language_gets_its_own_supervisor_and_its_own_process() {
    let mut registry = registry_over(&["python", "go"]);
    start(&mut registry, "python", 41);
    start(&mut registry, "go", 42);

    assert_eq!(registry.supervisor_mut("python").unwrap().language(), "python");
    assert_eq!(registry.supervisor_mut("go").unwrap().language(), "go");
    assert_eq!(registry.supervisor_mut("go").unwrap().pid(), Some(42));
    assert_eq!(registry.active_supervisors(), texts(&["python", "go"]));
}

#[test]
fn a_reader_is_not_held_up_by_an_in_progress_spawn() {
    let mut registry = registry_over(&["python"]);
    assert!(matches!(registry.get_or_spawn("python"), GetOrSpawn::Spawn { .. }));

    assert_eq!(
        registry.active_supervisors().len(),
        0,
        "a language whose spawn has not finished is not an active supervisor yet"
    );
    assert!(!registry.has_pending(), "a supervisor that does not exist yet has nothing queued");
    assert_eq!(registry.in_flight(), texts(&["python"]));
    assert!(registry.supervisor_mut("python").is_none());
}

#[test]
fn racing_callers_for_one_language_still_spawn_exactly_one_process() {
    let mut registry = registry_over(&["python"]);
    assert!(matches!(registry.get_or_spawn("python"), GetOrSpawn::Spawn { .. }));
    for _ in 0..3 {
        assert!(matches!(registry.get_or_spawn("python"), GetOrSpawn::Wait));
    }
}

#[test]
fn two_languages_spawn_at_the_same_time_rather_than_one_after_the_other() {
    let mut registry = registry_over(&["python", "go"]);
    assert!(matches!(registry.get_or_spawn("python"), GetOrSpawn::Spawn { .. }));
    assert!(matches!(registry.get_or_spawn("go"), GetOrSpawn::Spawn { .. }));
    assert_eq!(registry.in_flight().len(), 2);
}

#[test]
fn a_failed_spawn_memoizes_nothing_and_answers_everyone_waiting_on_it() {
    let mut registry = registry_over(&["python"]);
    assert!(matches!(registry.get_or_spawn("python"), GetOrSpawn::Spawn { .. }));
    registry.settle("python", Err("it never shook hands".to_string()));
    assert!(
        registry.supervisors.is_empty(),
        "a failed spawn - reservation and all - must leave the map exactly as it found it"
    );
    assert_eq!(
        waited_failure("python", "it never shook hands"),
        "the in-progress spawn of the python plugin this call waited on failed: it never shook hands"
    );

    start(&mut registry, "python", 9);
    assert_eq!(registry.active_supervisors().len(), 1);
}

#[test]
fn a_start_that_was_never_finished_leaves_the_language_free() {
    let mut registry = registry_over(&["python"]);
    registry.get_or_spawn("python");
    assert_eq!(
        registry.abandon("python"),
        "the thread spawning the python plugin panicked before it finished"
    );
    assert!(matches!(registry.get_or_spawn("python"), GetOrSpawn::Spawn { .. }));
}

#[test]
fn a_language_nothing_was_discovered_for_is_an_error_naming_what_was() {
    let mut registry = registry_over(&["python", "go"]);

    match registry.get_or_spawn("rust") {
        GetOrSpawn::Unknown { message } => assert_eq!(
            message,
            "no plugin was discovered for language \"rust\" (discovered: go, python)"
        ),
        other => panic!("a language nothing was discovered for must not spawn anything: {other:?}"),
    }
    assert!(registry.supervisors.is_empty(), "nothing may be memoized");
    match registry_over(&[]).get_or_spawn("rust") {
        GetOrSpawn::Unknown { message } => assert!(message.ends_with("(discovered: none)"), "{message}"),
        other => panic!("{other:?}"),
    }
}

#[test]
fn each_language_records_its_pid_in_a_file_of_its_own() {
    let registry = registry_over(&["python", "go"]);

    let python = registry.pid_file_for("python");
    let go = registry.pid_file_for("go");
    assert_ne!(python, go);
    assert_eq!(python, "/state/plugin-python.pid");
    assert_eq!(go, "/state/plugin-go.pid", "both live in the project's state directory");
}

#[test]
fn an_empty_discovery_result_routes_nothing_and_starts_nothing() {
    let mut registry = registry_over(&[]);

    assert_eq!(registry.language_for("app.py"), None);
    assert!(matches!(registry.file_changed("app.py"), Route::Unclaimed { .. }));
    assert!(registry.supervisors.is_empty());
}

#[test]
fn file_name_of_returns_the_final_path_segment() {
    assert_eq!(file_name_of("go.mod"), "go.mod");
    assert_eq!(file_name_of("a/b/go.mod"), "go.mod");
    assert_eq!(file_name_of(""), "");
    assert_eq!(file_name_of("a/"), "");
}

#[test]
fn workspace_language_matches_an_exact_watched_file_name_in_any_directory() {
    let registry = registry_over_workspace("alpha", ".alpha-src", &["go.mod"], &[]);

    assert_eq!(registry.workspace_language_matches("go.mod"), texts(&["alpha"]));
    assert_eq!(
        registry.workspace_language_matches("nested/dir/go.mod"),
        texts(&["alpha"]),
        "watch_files matches by file name alone, any directory"
    );
    assert!(registry.workspace_language_matches("go.sum").is_empty(), "a different file name must not match");
}

#[test]
fn workspace_language_matches_a_glob_pattern() {
    let registry = registry_over_workspace("csharp", ".cs-src", &["*.csproj"], &[]);

    assert_eq!(registry.workspace_language_matches("MyProject.csproj"), texts(&["csharp"]));
    assert_eq!(registry.workspace_language_matches("src/nested/Other.csproj"), texts(&["csharp"]));
    assert!(
        registry.workspace_language_matches("MyProject.sln").is_empty(),
        "a name the glob does not match must not match"
    );
    assert!(registry.patterns_compile());
}

#[test]
fn workspace_language_matches_excludes_a_path_under_the_manifests_own_exclude_dirs() {
    let registry = registry_over_workspace("alpha", ".alpha-src", &["go.mod"], &["vendor"]);

    assert_eq!(
        registry.workspace_language_matches("go.mod"),
        texts(&["alpha"]),
        "an ordinary path is still routed"
    );
    assert!(
        registry.workspace_language_matches("vendor/go.mod").is_empty(),
        "a go.mod-like file under an excluded directory must not be routed at all"
    );
}

#[test]
fn a_manifest_with_no_watch_files_never_matches_the_workspace_routing() {
    let registry = registry_over(&["python"]);

    assert!(registry.workspace_language_matches("go.mod").is_empty());
    assert!(registry.workspace_language_matches("anything").is_empty());
}

#[test]
fn every_language_that_watches_a_file_is_named_in_order() {
    let manifests = vec![manifest("zig", &[]), manifest("ada", &[]), manifest("nim", &[])];
    assert_eq!(
        workspace_languages(&manifests, &vec![true, true, false], "Makefile"),
        texts(&["ada", "zig"])
    );
}

#[test]
fn a_pattern_that_is_too_large_is_known_before_it_is_compiled() {
    let long = "a".repeat(16_385);
    assert!(!registry_over_workspace("alpha", ".a", &[&long], &[]).patterns_compile());
    let nested = "{".repeat(82);
    assert!(!registry_over_workspace("alpha", ".a", &["go.mod", &nested], &[]).patterns_compile());
    let deepest = format!("{}a{}", "{".repeat(81), "}".repeat(81));
    let registry = registry_over_workspace("alpha", ".a", &[&deepest], &[]);
    assert!(registry.patterns_compile());
    assert_eq!(registry.workspace_language_matches("x/a"), texts(&["alpha"]));
}

#[test]
fn alternations_beside_each_other_are_not_deep() {
    let beside = "{a,b}".repeat(61);
    let registry = registry_over_workspace("alpha", ".a", &[&beside], &[]);
    assert!(registry.patterns_compile());
    assert!(registry.workspace_language_matches(&"a".repeat(60)).is_empty());
    assert_eq!(registry.workspace_language_matches(&"a".repeat(61)), texts(&["alpha"]));
    let most = "{a,b}".repeat(3276);
    let registry = registry_over_workspace("alpha", ".a", &[&most], &[]);
    assert!(registry.patterns_compile());
    assert_eq!(registry.workspace_language_matches(&"b".repeat(3276)), texts(&["alpha"]));
}

#[test]
fn the_largest_patterns_that_are_compiled_do_compile() {
    for pattern in [
        "?".repeat(16_384),
        "*".repeat(16_384),
        "a/**/".repeat(3_276),
        "[!a]".repeat(4_096),
        format!("[{}]", "\u{10ffff}".repeat(16_382)),
        "[a-b-]".repeat(2_730),
        "\u{10ffff}".repeat(16_384),
        "{,}".repeat(5_461),
        "{*,?}".repeat(3_276),
        "{a,,**/}".repeat(2_048),
        "{\u{10ffff},*}".repeat(3_276),
    ] {
        let registry = registry_over_workspace("alpha", ".a", &[&pattern], &[]);
        assert!(registry.patterns_compile());
        registry.workspace_language_matches("name");
    }
    for inner in ["a", "[!ab]", "x/**/y", "**", "*?"] {
        let mut nested = inner.to_string();
        for _ in 0..81 {
            nested = format!("{{b*[!c],x?{nested}z}}");
        }
        let registry = registry_over_workspace("alpha", ".a", &[&nested, "[\u{e9}-\u{10ffff}]"], &[]);
        assert!(registry.patterns_compile());
        assert_eq!(registry.workspace_language_matches("dir/b-d"), texts(&["alpha"]));
    }
    let alternatives = format!("{}x", "{a,b,*c?,[!d-z]}".repeat(1_000));
    let registry = registry_over_workspace("alpha", ".a", &[&alternatives], &[]);
    assert!(registry.patterns_compile());
    assert!(registry.workspace_language_matches("name").is_empty());
}

#[test]
fn a_watched_name_is_matched_whole_wherever_it_lies() {
    let registry = registry_over_workspace("python", ".py", &["go.mod", "*.csproj"], &[]);
    assert_eq!(registry.workspace_language_matches("go.mod"), texts(&["python"]));
    assert!(registry.workspace_language_matches("other.mod").is_empty());
    assert_eq!(registry.workspace_language_matches("My.csproj"), texts(&["python"]));
    assert!(registry.workspace_language_matches("My.sln").is_empty());
}

#[test]
fn a_plain_pattern_counts_beside_one_with_a_backslash() {
    let registry = registry_over_workspace("alpha", ".a", &[r"\x", "go.mod"], &[]);
    assert_eq!(registry.workspace_language_matches("a/go.mod"), texts(&["alpha"]));
    assert!(registry.workspace_language_matches("a/go.sum").is_empty());
}

#[test]
fn a_crash_in_one_languages_plugin_leaves_another_languages_untouched() {
    let mut registry = registry_over(&["python", "go"]);
    assert!(matches!(registry.file_changed("app.python-src"), Route::Source { language } if language == "python"));
    start(&mut registry, "python", 41);
    assert!(matches!(registry.file_changed("main.go-src"), Route::Source { language } if language == "go"));
    start(&mut registry, "go", 42);

    let mut process = PluginProcess::spawn(
        41,
        registry.pid_file_for("python"),
        PathStyle::Unix,
        RoundTripTimeouts::default(),
    );
    let (mut delivery, _) = process.apply_file_change("app.python-src".to_string());
    process.deliver(&mut delivery, News::SendEnded { sent_to: 41, result: Sent::Failed });
    process.deliver(&mut delivery, News::ExitChecked { exited: true, current: 41 });
    let replay = process.deliver(&mut delivery, News::Relaunched { pid: Some(43) });
    assert!(matches!(replay, Some(Act::Send { file }) if file == "app.python-src"));
    let end = process.deliver(&mut delivery, News::SendEnded { sent_to: 43, result: Sent::Committed });
    assert!(matches!(end, Some(Act::Finish { outcome: Delivered::Committed })));
    let record = registry.supervisor_mut("python").unwrap().woken(process.pid(), 1);
    assert_eq!(record.path, "/state/plugin-python.pid");

    assert_eq!(registry.supervisor_mut("python").unwrap().pid(), Some(43), "a fresh process was spawned");
    assert_eq!(registry.supervisor_mut("go").unwrap().pid(), Some(42), "the very same process");
    assert!(matches!(registry.get_or_spawn("go"), GetOrSpawn::Running), "not spawned again");
    let go = registry.supervisor_mut("go").unwrap();
    assert!(matches!(go.file_changed("other.go-src".to_string(), 0), OnChange::Apply { .. }));
    assert_eq!(go.pid(), Some(42), "and still serving off that same process");
}

#[test]
fn route_settled_path_falls_back_to_ordinary_extension_routing_with_no_workspace_match() {
    let mut registry = registry_over(&["python"]);

    match registry.route_settled_path("src/app.python-src") {
        Route::Source { language } => assert_eq!(language, "python"),
        other => panic!("an ordinary source file must still reach the plugin: {other:?}"),
    }
}

#[test]
fn a_workspace_file_goes_to_the_workspace_and_nowhere_else() {
    let mut registry = registry_over_workspace("alpha", ".mod", &["go.mod"], &[]);
    match registry.route_settled_path("a/go.mod") {
        Route::Workspace { languages } => assert_eq!(languages, texts(&["alpha"])),
        other => panic!("{other:?}"),
    }
}

#[test]
fn file_changed_does_not_route_a_path_under_its_own_languages_exclude_dirs() {
    let mut registry = registry_over_workspace("alpha", ".alpha-src", &[], &["vendor"]);

    assert!(
        matches!(registry.file_changed("vendor/thirdparty.alpha-src"), Route::Excluded),
        "a file under the claiming language's own exclude_dirs must not be routed at all"
    );
    assert!(registry.unroutable.is_empty(), "its extension is claimed");

    assert!(
        matches!(registry.file_changed("src/app.alpha-src"), Route::Source { .. }),
        "an ordinary file of the same language, outside exclude_dirs, must still route"
    );
}

#[test]
fn what_waits_is_told_by_language() {
    let mut registry = registry_over(&["typescript", "rust", "go"]);
    assert_eq!(registry.pending_summary(), "none");
    for (language, pid, files) in [("typescript", 1, 2), ("rust", 2, 1), ("go", 3, 0)] {
        start(&mut registry, language, pid);
        let supervisor = registry.supervisor_mut(language).unwrap();
        supervisor.sleep_now();
        for n in 0..files {
            assert!(matches!(supervisor.file_changed(format!("f{n}"), 0), OnChange::Queued));
        }
    }
    assert!(registry.has_pending());
    assert_eq!(registry.pending_summary(), "typescript (2 files), rust (1 file)");
    assert!(matches!(registry.supervisor_mut("rust").unwrap().replay_pending(0), Replay::Wake));
    assert_eq!(PluginRegistry::replay_pending(&vec![Some(2), None, Some(1)]), 3);
}

#[test]
fn idle_plugins_sleep_and_busy_ones_do_not() {
    let mut registry = PluginRegistry::new(
        "/project",
        "/state".to_string(),
        PathStyle::Unix,
        discovery_over(&["python", "go"]),
        Some(from_millis(10)),
        Some(100),
    );
    start(&mut registry, "python", 41);
    start(&mut registry, "go", 42);
    assert_eq!(
        registry.check_memory_limits_all(),
        vec![("python".to_string(), 41), ("go".to_string(), 42)]
    );
    registry.supervisor_mut("go").unwrap().file_changed("x".to_string(), from_millis(5));

    assert_eq!(registry.sleep_if_idle_all(from_millis(12)), vec![("python".to_string(), 41)]);
    assert_eq!(registry.check_memory_limits_all(), vec![("go".to_string(), 42)]);
    assert_eq!(registry.sleep_all_now(), vec![("go".to_string(), 42)]);
    assert_eq!(registry.sleep_all_now(), Vec::new());
    assert_eq!(registry.active_supervisors().len(), 2, "a plugin that sleeps is still known");
    assert!(!registry.is_semantic_suspended("go"));
    assert!(!registry.is_semantic_suspended("never-started"));
}

#[test]
fn a_file_that_is_current_never_starts_a_plugin() {
    let mut registry = registry_over(&["python"]);
    assert!(matches!(registry.ensure_fresh("a.md", true), FreshRoute::Unclaimed));
    assert!(matches!(registry.ensure_fresh("a.python-src", false), FreshRoute::AlreadyFresh));
    assert!(registry.supervisors.is_empty());
    match registry.ensure_fresh("a.python-src", true) {
        FreshRoute::Ask { language, plugin } => {
            assert_eq!(language, "python");
            assert!(matches!(plugin, GetOrSpawn::Spawn { .. }));
        }
        other => panic!("{other:?}"),
    }
}

#[test]
fn a_state_directory_tells_its_plugins_and_suspensions() {
    let entry = |name: &str, contents: Option<&str>| StateEntry {
        name: name.to_string(),
        path: format!("/s/{name}"),
        contents: contents.map(|c| c.to_string()),
    };
    let entries = vec![
        entry("plugin-typescript.pid", None),
        entry("plugin-go.suspended", Some(" too large\n")),
        entry("daemon.pid", None),
        entry("plugin-ada.pid", None),
        entry("plugin-ada.suspended", None),
    ];
    assert_eq!(
        discovered_pid_files(&entries),
        vec![
            ("ada".to_string(), "/s/plugin-ada.pid".to_string()),
            ("typescript".to_string(), "/s/plugin-typescript.pid".to_string())
        ]
    );
    assert_eq!(
        discovered_suspended_markers(&entries),
        vec![
            ("ada".to_string(), "(unreadable)".to_string()),
            ("go".to_string(), "too large".to_string())
        ]
    );
    assert_eq!(discovered_suspended_marker_paths(&entries)[1].1, "/s/plugin-go.suspended");
    assert_eq!(
        clear_stale_suspension_markers(&entries),
        texts(&["/s/plugin-ada.suspended", "/s/plugin-go.suspended"])
    );
}
