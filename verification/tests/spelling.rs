use g_mesh::files::Files;
use g_mesh::path::{file_name_in, parent_of, PathStyle};
use g_mesh::spelling::{
    bin_dir_of, command_probes, exe_suffixed, has_path_separator, plain_spelling, plain_win32_path,
    resolve_arg, resolve_command, resolve_exe_suffix, resolve_path_entry, CommandError,
};

fn files(present: &[&str]) -> Files {
    Files { present: present.iter().map(|p| p.to_string()).collect() }
}

#[test]
fn a_bare_command_with_no_path_separator_is_left_for_path_lookup() {
    assert_eq!(resolve_path_entry("node", "/plugins/python", "", &files(&[]), PathStyle::Unix), "node");
    assert!(!has_path_separator("node", PathStyle::Unix));
}

#[test]
fn a_command_with_a_path_separator_is_resolved_against_the_manifest_directory() {
    assert_eq!(
        resolve_path_entry("./g-mesh-plugin-python", "/plugins/python", "", &files(&[]), PathStyle::Unix),
        "/plugins/python/./g-mesh-plugin-python",
    );
}

#[test]
fn an_arg_with_no_path_separator_is_left_untouched() {
    assert_eq!(resolve_arg("--verbose", "/plugins/python", PathStyle::Unix), "--verbose");
}

#[test]
fn an_arg_that_is_a_path_is_looked_up_from_the_manifest_directory() {
    assert_eq!(resolve_arg("dist/src/index.js", "/plugins/ts", PathStyle::Unix), "/plugins/ts/dist/src/index.js");
    assert_eq!(resolve_arg("/abs/index.js", "/plugins/ts", PathStyle::Unix), "/abs/index.js");
}

#[test]
fn the_bin_dir_placeholder_expands_to_the_given_directory_not_the_manifest_directory() {
    let resolved = resolve_command(
        "${G_MESH_BIN_DIR}/g-mesh-plugin-rust",
        "/ws/plugins/rust",
        Some("/ws/target/release"),
        "",
        &files(&[]),
        PathStyle::Unix,
    );
    assert_eq!(resolved, Ok("/ws/target/release/g-mesh-plugin-rust".to_string()));
}

#[test]
fn the_bin_dir_placeholder_without_a_known_bin_dir_is_an_error() {
    let resolved = resolve_command("${G_MESH_BIN_DIR}/g-mesh-plugin-rust", "/p", None, "", &files(&[]), PathStyle::Unix);
    assert_eq!(resolved, Err(CommandError::UnknownBinDir));
    assert!(g_mesh::manifest::command_error_message(CommandError::UnknownBinDir, "x")
        .contains("running executable's directory is unknown"));
}

#[test]
fn the_bin_dir_placeholder_anywhere_but_the_start_is_an_error() {
    let bin_dir = Some("/ws/target/debug");
    for (value, error) in [
        ("./x/${G_MESH_BIN_DIR}/p", CommandError::PlaceholderNotAtStart),
        ("${G_MESH_BIN_DIR}", CommandError::NoBinary),
        ("${G_MESH_BIN_DIR}/", CommandError::NoBinary),
        ("${G_MESH_BIN_DIR}/${G_MESH_BIN_DIR}", CommandError::NoBinary),
    ] {
        let resolved = resolve_command(value, "/p", bin_dir, "", &files(&[]), PathStyle::Unix);
        assert_eq!(resolved, Err(error), "{value} must be rejected");
    }
}

#[test]
fn bin_dir_of_steps_over_a_cargo_test_deps_directory() {
    let debug = "/ws/target/debug".to_string();
    assert_eq!(bin_dir_of("/ws/target/debug/deps/g_mesh-abc123", PathStyle::Unix), Some(debug.clone()));
    assert_eq!(bin_dir_of("/ws/target/debug/g-mesh", PathStyle::Unix), Some(debug));
}

#[test]
fn exe_suffixed_appends_the_suffix_to_an_extensionless_path() {
    assert_eq!(
        exe_suffixed("/plugins/python/g-mesh-plugin-python", ".exe", PathStyle::Unix),
        Some("/plugins/python/g-mesh-plugin-python.exe".to_string()),
    );
}

#[test]
fn exe_suffixed_is_none_for_an_empty_suffix() {
    assert_eq!(exe_suffixed("/plugins/python/g-mesh-plugin-python", "", PathStyle::Unix), None);
}

#[test]
fn exe_suffixed_is_none_for_a_path_that_already_has_an_extension() {
    assert_eq!(exe_suffixed("/plugins/typescript/dist/src/index.js", ".exe", PathStyle::Unix), None);
}

#[test]
fn resolve_exe_suffix_falls_back_to_the_suffixed_spelling_when_only_it_exists() {
    let there = files(&["/d/g-mesh-plugin-python.exe"]);
    assert_eq!(
        resolve_exe_suffix("/d/g-mesh-plugin-python".to_string(), ".exe", &there, PathStyle::Unix),
        "/d/g-mesh-plugin-python.exe"
    );
}

#[test]
fn resolve_exe_suffix_prefers_the_unsuffixed_spelling_when_it_exists() {
    let there = files(&["/d/g-mesh-plugin-go", "/d/g-mesh-plugin-go.exe"]);
    assert_eq!(
        resolve_exe_suffix("/d/g-mesh-plugin-go".to_string(), ".exe", &there, PathStyle::Unix),
        "/d/g-mesh-plugin-go"
    );
}

#[test]
fn resolve_exe_suffix_leaves_a_genuinely_missing_path_unchanged() {
    assert_eq!(
        resolve_exe_suffix("/d/g-mesh-plugin-python".to_string(), ".exe", &files(&[]), PathStyle::Unix),
        "/d/g-mesh-plugin-python"
    );
}

#[test]
fn resolve_exe_suffix_is_a_no_op_on_a_platform_with_no_exe_suffix() {
    let there = files(&["/d/g-mesh-plugin-python.exe"]);
    assert_eq!(
        resolve_exe_suffix("/d/g-mesh-plugin-python".to_string(), "", &there, PathStyle::Unix),
        "/d/g-mesh-plugin-python"
    );
}

#[test]
fn a_command_is_decided_by_the_paths_it_names_as_probes() {
    let probes = command_probes("../target/debug/p", "/plugins/python", None, ".exe", PathStyle::Unix);
    assert!(probes.contains(&"/plugins/python/../target/debug/p".to_string()));
    assert!(probes.contains(&"/plugins/python/../target/debug/p.exe".to_string()));
    assert_eq!(command_probes("${G_MESH_BIN_DIR}", "/p", Some("/b"), "", PathStyle::Unix), Vec::<String>::new());
}

#[test]
fn plain_win32_path_rewrites_a_canonicalized_disk_path() {
    assert_eq!(
        plain_win32_path(r"\\?\D:\a\g-mesh\g-mesh\plugins\typescript").as_deref(),
        Some(r"D:\a\g-mesh\g-mesh\plugins\typescript"),
    );
    assert_eq!(
        plain_win32_path(r"\\?\C:\Users\runneradmin\AppData\Local\Temp\.tmpPBFGol\fake").as_deref(),
        Some(r"C:\Users\runneradmin\AppData\Local\Temp\.tmpPBFGol\fake"),
    );
}

#[test]
fn plain_win32_path_rewrites_a_canonicalized_unc_path() {
    assert_eq!(
        plain_win32_path(r"\\?\UNC\build\share\plugins\go").as_deref(),
        Some(r"\\build\share\plugins\go")
    );
}

#[test]
fn plain_win32_path_leaves_a_path_with_no_ordinary_spelling_alone() {
    assert_eq!(plain_win32_path(r"\\?\pipe\g-mesh"), None);
    assert_eq!(plain_win32_path(r"\\?\Volume{9f3a}\plugins\go"), None);
}

#[test]
fn plain_win32_path_leaves_an_ordinary_path_alone() {
    assert_eq!(plain_win32_path(r"D:\a\g-mesh\plugins\go"), None);
    assert_eq!(plain_win32_path("/private/var/folders/t7/plugins/go"), None);
}

#[test]
fn plain_win32_path_keeps_the_prefix_on_a_path_too_long_to_spell_without_it() {
    let long = format!(r"\\?\C:\{}", "d".repeat(300));
    assert_eq!(plain_win32_path(&long), None);

    let at_limit = format!(r"\\?\C:\{}", "d".repeat(259 - 3));
    assert_eq!(plain_win32_path(&at_limit).map(|p| p.chars().count()), Some(259));
    let over_limit = format!(r"\\?\C:\{}", "d".repeat(259 - 2));
    assert_eq!(plain_win32_path(&over_limit), None);
}

#[test]
fn a_character_outside_the_first_plane_takes_two_units() {
    let fits = format!(r"\\?\C:\{}", "\u{1f600}".repeat(128));
    assert!(plain_win32_path(&fits).is_some(), "3 + 2 * 128 is 259");
    let over = format!(r"\\?\C:\d{}", "\u{1f600}".repeat(128));
    assert_eq!(plain_win32_path(&over), None);
}

#[test]
fn plain_spelling_is_what_a_manifest_directory_is_joined_onto() {
    assert_eq!(
        plain_spelling(r"\\?\C:\Users\runneradmin\AppData\Local\Temp\.tmpPBFGol\fake".to_string()),
        r"C:\Users\runneradmin\AppData\Local\Temp\.tmpPBFGol\fake",
    );
}

#[test]
fn plain_spelling_leaves_a_path_it_cannot_rewrite_exactly_as_it_was() {
    let unix = "/private/var/folders/t7/plugin_check/fake".to_string();
    assert_eq!(plain_spelling(unix.clone()), unix);
}

#[test]
fn what_separates_depends_on_the_platform() {
    assert!(has_path_separator("a/b", PathStyle::Unix) && has_path_separator("a/b", PathStyle::Windows));
    assert!(has_path_separator(r"a\b", PathStyle::Windows));
    assert!(!has_path_separator(r"a\b", PathStyle::Unix));
    assert_eq!(
        bin_dir_of(r"C:\ws\target\debug\deps\test.exe", PathStyle::Windows).as_deref(),
        Some(r"C:\ws\target\debug")
    );
}

#[test]
fn a_suffixed_path_keeps_its_directory_and_its_name() {
    for (path, suffixed, style) in [
        ("/opt/bin/p", "/opt/bin/p.exe", PathStyle::Unix),
        ("p", "p.exe", PathStyle::Unix),
        (r"C:\bin\p", r"C:\bin\p.exe", PathStyle::Windows),
        ("C:p", "C:p.exe", PathStyle::Windows),
        (r"\\?\C:\bin\p", r"\\?\C:\bin\p.exe", PathStyle::Windows),
    ] {
        let found = exe_suffixed(path, ".exe", style).unwrap();
        assert_eq!(found, suffixed);
        assert_eq!(file_name_in(&found, style).as_deref(), Some("p.exe"));
        assert_eq!(parent_of(&found, style), parent_of(path, style));
    }
}
