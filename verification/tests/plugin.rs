use g_mesh::files::Files;
use g_mesh::path::PathStyle;
use g_mesh::plugin::{
    bundled_manifest, check_handshake, installed_plugin_executable, launch_command_for,
    missing_node_entry_hint, missing_plugin_binary_hint, missing_workspace_binary_hint,
    missing_workspace_binary_hint_with_suffix, parse_round_trip_timeout, plugin_entry_path,
    RoundTripTimeouts, DEFAULT_FILE_CHANGED_TIMEOUT, SEMANTIC_PASS_PER_FILE_BUDGET,
};
use g_mesh::time::from_millis;

fn files(present: &[&str]) -> Files {
    Files { present: present.iter().map(|p| p.to_string()).collect() }
}

fn floor_for_a_small_project() {
    let timeouts = RoundTripTimeouts::default();
    assert_eq!(timeouts.semantic_pass_project_timeout(49), timeouts.semantic_pass_project);
    assert_eq!(timeouts.semantic_pass_project_timeout(0), timeouts.semantic_pass_project);
}

#[test]
fn plugin_semantic_pass_project_timeout_uses_the_floor_for_a_small_project() {
    floor_for_a_small_project();
}

#[test]
fn tests_semantic_pass_project_timeout_uses_the_floor_for_a_small_project() {
    floor_for_a_small_project();
}

fn scales_for_a_large_project() {
    let timeouts = RoundTripTimeouts::default();
    let file_count: u32 = 658;
    let expected = SEMANTIC_PASS_PER_FILE_BUDGET * file_count as u128;
    assert!(
        expected > timeouts.semantic_pass_project,
        "the fixture must actually exercise the scaled branch, not the floor"
    );
    assert_eq!(timeouts.semantic_pass_project_timeout(file_count as usize), expected);
}

#[test]
fn plugin_semantic_pass_project_timeout_scales_past_the_floor_for_a_large_project() {
    scales_for_a_large_project();
}

#[test]
fn tests_semantic_pass_project_timeout_scales_past_the_floor_for_a_large_project() {
    scales_for_a_large_project();
}

fn absurd_file_count() {
    let timeouts = RoundTripTimeouts::default();
    let huge = timeouts.semantic_pass_project_timeout(usize::MAX);
    assert!(huge > timeouts.semantic_pass_project);
    assert_eq!(huge, SEMANTIC_PASS_PER_FILE_BUDGET.saturating_mul(u32::MAX as u128));
}

#[test]
fn plugin_semantic_pass_project_timeout_does_not_overflow_on_an_absurd_file_count() {
    absurd_file_count();
}

#[test]
fn tests_semantic_pass_project_timeout_does_not_overflow_on_an_absurd_file_count() {
    absurd_file_count();
}

#[test]
fn a_round_trip_is_never_given_no_time_at_all() {
    let default = DEFAULT_FILE_CHANGED_TIMEOUT;
    assert_eq!(parse_round_trip_timeout(None, default), default);
    assert_eq!(parse_round_trip_timeout(Some("0"), default), default);
    assert_eq!(parse_round_trip_timeout(Some("soon"), default), default);
    assert_eq!(parse_round_trip_timeout(Some(" 150\n"), default), from_millis(150));
    let timeouts = RoundTripTimeouts::from_env(Some("1"), Some("2"), Some("3"));
    assert_eq!(timeouts.file_changed, from_millis(1));
    assert_eq!(timeouts.semantic_pass_file, from_millis(2));
    assert_eq!(timeouts.semantic_pass_project, from_millis(3));
    assert_eq!(RoundTripTimeouts::from_env(None, None, None), RoundTripTimeouts::default());
}

fn names_the_binary_and_the_build_command() {
    let binary = "/ws/target/debug/g-mesh-plugin-python";
    let hint = missing_workspace_binary_hint(binary, "", &files(&["/ws/Cargo.toml"]), PathStyle::Unix)
        .expect("a missing target/debug binary must get a hint");
    assert!(hint.contains(binary), "{hint}");
    assert!(hint.contains("has not been built yet"), "{hint}");
    assert!(hint.contains("cargo build --workspace"), "{hint}");
    assert!(hint.contains("/ws"), "the hint should name the workspace root: {hint}");
    assert_eq!(
        hint,
        "the plugin binary /ws/target/debug/g-mesh-plugin-python does not exist - it has not been built yet. \
         Run `cargo build --workspace` in /ws"
    );
}

#[test]
fn plugin_missing_workspace_binary_hint_names_the_binary_and_the_build_command() {
    names_the_binary_and_the_build_command();
}

#[test]
fn tests_missing_workspace_binary_hint_names_the_binary_and_the_build_command() {
    names_the_binary_and_the_build_command();
}

#[test]
fn plugin_missing_workspace_binary_hint_also_matches_the_release_profile() {
    let hint = missing_workspace_binary_hint("/ws/target/release/g-mesh-plugin-rust", "", &files(&[]), PathStyle::Unix)
        .expect("a missing target/release binary must get a hint");
    assert!(hint.contains("cargo build --workspace"), "{hint}");
}

#[test]
fn tests_missing_workspace_binary_hint_also_matches_the_release_profile() {
    let hint = missing_workspace_binary_hint("/ws/target/release/g-mesh-plugin-rust", "", &files(&[]), PathStyle::Unix)
        .expect("a missing target/release binary must get a hint");
    assert!(hint.contains("cargo build --workspace --release"), "{hint}");
}

#[test]
fn missing_workspace_binary_hint_names_no_release_flag_for_the_debug_profile() {
    let hint = missing_workspace_binary_hint("/ws/target/debug/g-mesh-plugin-rust", "", &files(&[]), PathStyle::Unix)
        .expect("a missing target/debug binary must get a hint");
    assert!(hint.contains("`cargo build --workspace`"), "{hint}");
    assert!(!hint.contains("--release"), "{hint}");
}

fn none_once_the_binary_exists() {
    let binary = "/ws/target/debug/g-mesh-plugin-python";
    assert_eq!(missing_workspace_binary_hint(binary, "", &files(&[binary]), PathStyle::Unix), None);
}

#[test]
fn plugin_missing_workspace_binary_hint_is_none_once_the_binary_exists() {
    none_once_the_binary_exists();
}

#[test]
fn tests_missing_workspace_binary_hint_is_none_once_the_binary_exists() {
    none_once_the_binary_exists();
}

fn ignores_a_missing_path_outside_target() {
    assert_eq!(missing_workspace_binary_hint("/ws/bin/g-mesh-plugin-go", "", &files(&[]), PathStyle::Unix), None);
    assert_eq!(missing_workspace_binary_hint("/ws/debug/g-mesh-plugin-go", "", &files(&[]), PathStyle::Unix), None);
    assert_eq!(missing_workspace_binary_hint("node", "", &files(&[]), PathStyle::Unix), None);
}

#[test]
fn plugin_missing_workspace_binary_hint_ignores_a_missing_path_outside_target() {
    ignores_a_missing_path_outside_target();
}

#[test]
fn tests_missing_workspace_binary_hint_ignores_a_missing_path_outside_target() {
    ignores_a_missing_path_outside_target();
}

fn names_the_exe_suffixed_spelling() {
    let hint = missing_workspace_binary_hint_with_suffix(
        "/ws/target/debug/g-mesh-plugin-python",
        ".exe",
        &files(&["/ws/Cargo.toml"]),
        PathStyle::Unix,
    )
    .expect("a missing target/debug binary must get a hint");

    assert!(hint.contains("g-mesh-plugin-python.exe"), "{hint}");
    assert!(!hint.contains("g-mesh-plugin-python does not exist"), "{hint}");
}

#[test]
fn plugin_missing_workspace_binary_hint_names_the_exe_suffixed_spelling_on_windows() {
    names_the_exe_suffixed_spelling();
}

#[test]
fn tests_missing_workspace_binary_hint_names_the_exe_suffixed_spelling_on_windows() {
    names_the_exe_suffixed_spelling();
}

fn none_when_the_command_already_carries_the_suffix() {
    let binary = "/ws/target/debug/g-mesh-plugin-python.exe";
    assert_eq!(missing_workspace_binary_hint_with_suffix(binary, ".exe", &files(&[binary]), PathStyle::Unix), None);
}

#[test]
fn plugin_missing_workspace_binary_hint_is_none_when_the_command_already_carries_the_suffix() {
    none_when_the_command_already_carries_the_suffix();
}

#[test]
fn tests_missing_workspace_binary_hint_is_none_when_the_command_already_carries_the_suffix() {
    none_when_the_command_already_carries_the_suffix();
}

fn dispatches_to_the_workspace_check() {
    let hint =
        missing_plugin_binary_hint("/ws/target/debug/g-mesh-plugin-python", &Vec::new(), "", &files(&[]), PathStyle::Unix)
            .expect("a missing workspace binary must get a hint");
    assert!(hint.contains("cargo build --workspace"), "{hint}");
}

#[test]
fn plugin_missing_plugin_binary_hint_dispatches_to_the_workspace_check_for_a_non_node_command() {
    dispatches_to_the_workspace_check();
}

#[test]
fn tests_missing_plugin_binary_hint_dispatches_to_the_workspace_check_for_a_non_node_command() {
    dispatches_to_the_workspace_check();
}

#[test]
fn a_script_that_was_never_built_is_told_where_to_build_it() {
    let args = vec!["/p/ts/dist/src/index.js".to_string()];
    assert_eq!(
        missing_node_entry_hint("/usr/bin/node", &args, &files(&["/p/ts/package.json"]), PathStyle::Unix).unwrap(),
        "the plugin's entry point /p/ts/dist/src/index.js does not exist - it has not been built yet. Run \
         `npm ci && npm run build` in /p/ts"
    );
    assert_eq!(
        missing_node_entry_hint("node.exe", &args, &files(&[]), PathStyle::Unix).unwrap(),
        "the plugin's entry point /p/ts/dist/src/index.js does not exist - it has not been built yet (run \
         `npm ci && npm run build` in its package directory)"
    );
    assert_eq!(missing_node_entry_hint("node", &args, &files(&["/p/ts/dist/src/index.js"]), PathStyle::Unix), None);
    assert_eq!(missing_node_entry_hint("python", &args, &files(&[]), PathStyle::Unix), None);
    assert_eq!(missing_node_entry_hint("node", &Vec::new(), &files(&[]), PathStyle::Unix), None);
    assert!(missing_plugin_binary_hint("node", &args, "", &files(&[]), PathStyle::Unix).unwrap().contains("npm ci"));
}

fn javascript_through_node() {
    let entry = "/somewhere/plugins/typescript/dist/src/index.js";

    let (command, args) = launch_command_for(entry, PathStyle::Unix);

    assert_eq!(command, "node", "a script needs an interpreter");
    assert_eq!(args, vec![entry.to_string()]);
}

#[test]
fn plugin_a_javascript_entry_point_is_launched_through_node() {
    javascript_through_node();
}

#[test]
fn tests_a_javascript_entry_point_is_launched_through_node() {
    javascript_through_node();
}

fn executable_directly() {
    let entry = "/opt/g-mesh/plugins/typescript/g-mesh-plugin-typescript";

    let (command, args) = launch_command_for(entry, PathStyle::Unix);

    assert_eq!(command, entry, "the executable is its own command");
    assert!(args.is_empty(), "nothing is prepended to a native executable's argv");
}

#[test]
fn plugin_a_self_contained_plugin_executable_is_launched_directly() {
    executable_directly();
}

#[test]
fn tests_a_self_contained_plugin_executable_is_launched_directly() {
    executable_directly();
}

fn windows_executable_directly() {
    let (command, args) =
        launch_command_for(r"C:\g-mesh\plugins\typescript\g-mesh-plugin-typescript.exe", PathStyle::Unix);

    assert!(args.is_empty(), "{command:?} took interpreter arguments it should not have");
    assert_ne!(command, "node");
}

#[test]
fn plugin_a_windows_plugin_executable_is_launched_directly_too() {
    windows_executable_directly();
}

#[test]
fn tests_a_windows_plugin_executable_is_launched_directly_too() {
    windows_executable_directly();
}

#[test]
fn a_script_is_known_by_its_extension_in_any_case() {
    for entry in ["/a/x.JS", "/a/x.Mjs", "/a/x.cjs"] {
        assert_eq!(launch_command_for(entry, PathStyle::Unix).0, "node", "{entry}");
    }
    assert_eq!(launch_command_for("/a/x.ts", PathStyle::Unix).0, "/a/x.ts");
}

fn checkout_resolves_to_the_script() {
    let entry = plugin_entry_path(None, Some("/ws/target/debug/g-mesh"), "", "/ws/core", &files(&[]), PathStyle::Unix);
    let manifest = bundled_manifest(&entry, 3, PathStyle::Unix);

    assert_eq!(manifest.command, "node");
    assert_eq!(manifest.args.len(), 1);
    assert!(
        manifest.args[0].ends_with("index.js"),
        "expected a compiled JS entry point, got {}",
        manifest.args[0]
    );
    assert_eq!(manifest.language, "typescript");
    assert_eq!(manifest.manifest_dir, "/ws/core/../plugins/typescript/dist/src");
}

#[test]
fn plugin_a_checkout_still_resolves_to_the_compiled_javascript_entry_point() {
    checkout_resolves_to_the_script();
}

#[test]
fn tests_a_checkout_still_resolves_to_the_compiled_javascript_entry_point() {
    checkout_resolves_to_the_script();
}

#[test]
fn an_installed_plugin_is_found_beside_the_executable_and_an_override_comes_first() {
    let installed = "/opt/bin/plugins/typescript/g-mesh-plugin-typescript";
    let there = files(&[installed]);
    assert_eq!(
        installed_plugin_executable(Some("/opt/bin/g-mesh"), "", &there, PathStyle::Unix),
        Some(installed.to_string())
    );
    assert_eq!(installed_plugin_executable(Some("/opt/bin/g-mesh"), ".exe", &there, PathStyle::Unix), None);
    assert_eq!(plugin_entry_path(None, Some("/opt/bin/g-mesh"), "", "/ws/core", &there, PathStyle::Unix), installed);
    assert_eq!(plugin_entry_path(Some("/x.js"), Some("/opt/bin/g-mesh"), "", "/ws/core", &there, PathStyle::Unix), "/x.js");
}

#[test]
fn spawning_a_manifest_whose_language_disagrees_with_the_live_handshake_hard_fails_naming_both() {
    let mut manifest = bundled_manifest("/p/index.js", 3, PathStyle::Unix);
    assert_eq!(check_handshake(&manifest, "typescript"), Ok(()));
    manifest.language = "python".to_string();
    let message = check_handshake(&manifest, "typescript").unwrap_err();
    assert_eq!(
        message,
        "plugin at /p declares language \"python\" in its manifest but its handshake reports \"typescript\" - \
         refusing to load"
    );
}
