use g_mesh::files::Files;
use g_mesh::manifest::{
    bundled_roots, checked_manifest, default_roots, discover, extension_of, read_manifest,
    semantic_pass_capable_languages, under_excluded_dir, Capabilities, DiscoveredPlugins, ManifestError,
    PluginManifest, RawPlugin, ReceiverCallResolution, WorkspaceConfig,
};
use g_mesh::path::PathStyle;
use g_mesh::registry::PluginRegistry;
use g_mesh::spelling::CommandError;

const PROTOCOL: u32 = 3;

fn texts(items: &[&str]) -> Vec<String> {
    items.iter().map(|s| s.to_string()).collect()
}

fn no_files() -> Files {
    Files { present: Vec::new() }
}

fn raw(language: &str, plugin_version: &str, extensions: &[&str]) -> RawPlugin {
    RawPlugin {
        language: language.to_string(),
        protocol_version: PROTOCOL,
        plugin_version: plugin_version.to_string(),
        command: "node".to_string(),
        args: texts(&["dist/src/index.js"]),
        extensions: texts(extensions),
        fingerprint_ignore: Vec::new(),
        capabilities: Capabilities::default(),
        watch_files: Vec::new(),
        exclude_dirs: Vec::new(),
        entry_points: Vec::new(),
    }
}

fn read(raw: RawPlugin, dir: &str) -> Result<PluginManifest, ManifestError> {
    read_manifest(raw, dir, PROTOCOL, Some("/ws/target/debug"), "", &no_files(), PathStyle::Unix)
}

fn found(root: &str, language: &str, plugin_version: &str, extensions: &[&str]) -> PluginManifest {
    read(raw(language, plugin_version, extensions), &format!("{root}/{language}")).unwrap()
}

fn routed<'a>(discovered: &'a DiscoveredPlugins, extension: &str) -> Option<&'a str> {
    discovered.routing.iter().find(|(e, _)| e == extension).map(|(_, l)| l.as_str())
}

#[test]
fn default_roots_bundled_entry_resolves_to_the_sibling_plugins_directory() {
    let roots = default_roots(None, Some("/home/u"), Some("/opt/bin/g-mesh"), "/src/core", PathStyle::Unix);
    assert_eq!(
        roots,
        texts(&["/home/u/.g-mesh/plugins", "/opt/bin/plugins", "/src/core/../plugins"]),
        "what users install comes first, the checkout last"
    );
    assert_eq!(default_roots(None, None, None, "/src/core", PathStyle::Unix), texts(&["/src/core/../plugins"]));
}

#[test]
fn the_installed_root_sits_beside_the_executable_and_outranks_the_checkout_root() {
    let roots = bundled_roots(Some("/opt/g-mesh/bin/g-mesh"), "/src/core", PathStyle::Unix);
    assert_eq!(
        roots.first(),
        Some(&"/opt/g-mesh/bin/plugins".to_string()),
        "the installed root must be `plugins/` next to the running executable"
    );
    assert_eq!(roots.len(), 2, "installed and checkout roots, in that order");
}

#[test]
fn the_override_env_var_replaces_the_entire_default_roots_list() {
    let roots = default_roots(Some("/only/this"), Some("/home/u"), Some("/opt/bin/g-mesh"), "/src/core", PathStyle::Unix);
    assert_eq!(roots, texts(&["/only/this"]));
}

#[test]
fn a_language_in_an_earlier_root_shadows_the_same_language_in_a_later_root() {
    let discovered =
        discover(vec![found("/r1", "python", "1.0.0", &[".py"]), found("/r2", "python", "2.0.0", &[".py"])], PathStyle::Unix)
            .unwrap();

    assert_eq!(discovered.manifests.len(), 1);
    assert_eq!(discovered.manifests[0].plugin_version, "1.0.0");
    assert_eq!(routed(&discovered, ".py"), Some("python"));
}

#[test]
fn two_different_languages_claiming_the_same_extension_is_a_hard_error() {
    let conflict =
        discover(vec![found("/r", "python", "1.0.0", &[".foo"]), found("/r", "go", "1.0.0", &[".foo"])], PathStyle::Unix)
            .unwrap_err();
    let message = conflict.message();
    assert!(message.contains("python"), "{message}");
    assert!(message.contains("go"), "{message}");
    assert!(message.contains("/r/python/plugin.toml"), "{message}");
    assert!(message.contains("/r/go/plugin.toml"), "{message}");
    assert_eq!(
        message,
        "extension \".foo\" is claimed by both plugin \"python\" (/r/python/plugin.toml) and plugin \"go\" \
         (/r/go/plugin.toml) - two different languages cannot claim the same file extension"
    );
}

#[test]
fn a_root_that_does_not_exist_contributes_nothing() {
    let discovered = discover(Vec::new(), PathStyle::Unix).unwrap();
    assert!(discovered.manifests.is_empty());
    assert!(discovered.routing.is_empty());
}

#[test]
fn an_empty_root_directory_contributes_nothing() {
    let discovered = discover(Vec::new(), PathStyle::Unix).unwrap();
    assert_eq!(discovered, DiscoveredPlugins::default());
}

#[test]
fn one_plugin_may_claim_an_extension_twice() {
    let discovered = discover(vec![found("/r", "go", "1.0.0", &[".go", ".go"])], PathStyle::Unix).unwrap();
    assert_eq!(discovered.routing.len(), 1);
}

#[test]
fn discovery_with_two_languages_and_no_conflicts_populates_manifests_and_routing() {
    let discovered = discover(vec![
        found("/r", "python", "1.0.0", &[".py", ".pyi"]),
        found("/r", "go", "1.0.0", &[".go"]),
    ], PathStyle::Unix)
    .unwrap();

    assert_eq!(discovered.manifests.len(), 2);
    assert!(discovered.manifests.iter().any(|m| m.language == "python"));
    assert!(discovered.manifests.iter().any(|m| m.language == "go"));
    assert_eq!(routed(&discovered, ".py"), Some("python"));
    assert_eq!(routed(&discovered, ".pyi"), Some("python"));
    assert_eq!(routed(&discovered, ".go"), Some("go"));
}

#[test]
fn parses_a_well_formed_manifest_into_the_expected_struct() {
    let dir = "/plugins/python";
    let mut plugin = raw("python", "0.1.0", &[".py", ".pyi"]);
    plugin.fingerprint_ignore = texts(&["node_modules"]);

    let manifest = read(plugin, dir).unwrap();

    assert_eq!(manifest.language, "python");
    assert_eq!(manifest.protocol_version, PROTOCOL);
    assert_eq!(manifest.plugin_version, "0.1.0");
    assert_eq!(manifest.command, "node");
    assert_eq!(manifest.args, texts(&["/plugins/python/dist/src/index.js"]));
    assert_eq!(manifest.extensions, texts(&[".py", ".pyi"]));
    assert_eq!(manifest.fingerprint_ignore, texts(&["node_modules"]));
    assert_eq!(manifest.manifest_dir, dir);
    assert_eq!(manifest.path(PathStyle::Unix), "/plugins/python/plugin.toml");
}

#[test]
fn rejects_language_not_matching_the_directory_name() {
    let error = read(raw("python", "0.1.0", &[".py"]), "/plugins/not-python").unwrap_err();
    let message = error.message("/plugins/not-python", "node", PathStyle::Unix);
    assert!(message.contains("python"), "{message}");
    assert!(message.contains("not-python"), "{message}");
    assert_eq!(
        message,
        "plugin manifest at /plugins/not-python/plugin.toml declares language \"python\", but its containing \
         directory is named \"not-python\" - the manifest's language must match the directory it lives in"
    );
}

#[test]
fn rejects_an_unrecognized_protocol_version() {
    let mut plugin = raw("python", "0.1.0", &[".py"]);
    plugin.protocol_version = PROTOCOL + 1;

    let message = read(plugin, "/plugins/python").unwrap_err().message("/plugins/python", "node", PathStyle::Unix);
    assert_eq!(
        message,
        "plugin manifest at /plugins/python/plugin.toml declares protocol_version 4, but core expects protocol \
         version 3 - refusing to load; update the plugin to match"
    );
}

#[test]
fn rejects_a_directory_without_a_name() {
    let error = read(raw("python", "0.1.0", &[".py"]), "/plugins/..").unwrap_err();
    assert!(matches!(error, ManifestError::NoDirectoryName));
    assert_eq!(
        error.message("/plugins/..", "node", PathStyle::Unix),
        "plugin manifest at /plugins/../plugin.toml: its directory /plugins/.. has no valid (UTF-8) directory name"
    );
    assert!(error.message("/", "node", PathStyle::Unix).contains("/plugin.toml"));
}

#[test]
fn rejects_a_command_that_cannot_be_resolved() {
    let mut plugin = raw("rust", "0.1.0", &[".rs"]);
    plugin.command = "x/${G_MESH_BIN_DIR}/p".to_string();
    let error = read(plugin, "/plugins/rust").unwrap_err();
    assert!(matches!(error, ManifestError::Command(CommandError::PlaceholderNotAtStart)));
    assert_eq!(
        error.message("/plugins/rust", "x/${G_MESH_BIN_DIR}/p", PathStyle::Unix),
        "invalid [plugin.spawn] command in plugin manifest at /plugins/rust/plugin.toml: `${G_MESH_BIN_DIR}` is \
         only expanded at the start of `command`, got \"x/${G_MESH_BIN_DIR}/p\""
    );
}

#[test]
fn a_manifest_with_no_fingerprint_table_defaults_to_an_empty_ignore_list() {
    let manifest = read(raw("python", "0.1.0", &[".py"]), "/plugins/python").unwrap();
    assert_eq!(manifest.fingerprint_ignore, Vec::<String>::new());
}

#[test]
fn a_manifest_with_no_capabilities_or_workspace_table_defaults_conservatively() {
    let manifest = read(raw("python", "0.1.0", &[".py"]), "/plugins/python").unwrap();

    assert_eq!(manifest.capabilities, Capabilities::default());
    assert!(!manifest.capabilities.semantic_pass);
    assert_eq!(manifest.capabilities.receiver_calls, ReceiverCallResolution::Unresolved);
    assert_eq!(manifest.capabilities.receiver_calls_structural, ReceiverCallResolution::Unresolved);
    assert_eq!(manifest.workspace, WorkspaceConfig::default());
    assert!(manifest.workspace.watch_files.is_empty());
    assert!(manifest.workspace.exclude_dirs.is_empty());
    assert!(manifest.workspace.entry_points.is_empty());
    assert_eq!(ReceiverCallResolution::default().as_text(), "unresolved");
    assert_eq!(ReceiverCallResolution::Resolved.as_text(), "resolved");
}

#[test]
fn parses_capabilities_and_workspace_from_a_well_formed_manifest() {
    let mut plugin = raw("go", "0.1.0", &[".go"]);
    plugin.capabilities = Capabilities {
        semantic_pass: true,
        receiver_calls: ReceiverCallResolution::Resolved,
        receiver_calls_structural: ReceiverCallResolution::Unresolved,
    };
    plugin.watch_files = texts(&["go.mod", "go.work", "*.csproj"]);
    plugin.exclude_dirs = texts(&["vendor", "testdata"]);
    plugin.entry_points = texts(&["lib.rs", "main.rs", "mod.rs"]);

    let manifest = read(plugin, "/plugins/go").unwrap();

    assert!(manifest.capabilities.semantic_pass);
    assert_eq!(manifest.capabilities.receiver_calls, ReceiverCallResolution::Resolved);
    assert_eq!(manifest.capabilities.receiver_calls_structural, ReceiverCallResolution::Unresolved);
    assert_eq!(manifest.workspace.watch_files, texts(&["go.mod", "go.work", "*.csproj"]));
    let watching = |patterns: &[String]| {
        let mut only = manifest.clone();
        only.workspace.watch_files = patterns.to_vec();
        let discovered = discover(vec![only], PathStyle::Unix).unwrap();
        PluginRegistry::new("/project", "/state".to_string(), PathStyle::Unix, discovered, None, None)
    };
    let go_mod = watching(&manifest.workspace.watch_files[..1]);
    assert_eq!(go_mod.workspace_language_matches("go.mod"), texts(&["go"]));
    assert!(go_mod.workspace_language_matches("other.mod").is_empty());
    let csproj = watching(&manifest.workspace.watch_files[2..]);
    assert_eq!(csproj.workspace_language_matches("MyProject.csproj"), texts(&["go"]));
    assert!(csproj.workspace_language_matches("MyProject.sln").is_empty());
    assert_eq!(manifest.workspace.exclude_dirs, texts(&["vendor", "testdata"]));
    assert_eq!(manifest.workspace.entry_points, texts(&["lib.rs", "main.rs", "mod.rs"]));
}

#[test]
fn rejects_an_invalid_glob_in_watch_files_naming_the_manifest_path() {
    let mut plugin = raw("python", "0.1.0", &[".py"]);
    plugin.watch_files = texts(&["pyproject.toml", "[unclosed"]);

    let error = read(plugin, "/plugins/python").unwrap_err();
    let message = error.message("/plugins/python", "node", PathStyle::Unix);
    assert!(message.contains("/plugins/python/plugin.toml"), "{message}");
    assert!(message.contains("[unclosed"), "{message}");
    assert!(message.contains("error parsing glob '[unclosed'"), "the reason is the glob crate's: {message}");
}

#[test]
fn the_first_refused_pattern_is_the_one_that_is_reported() {
    let mut plugin = raw("python", "0.1.0", &[".py"]);
    plugin.watch_files = texts(&["a", "b", "c"]);
    let refusals = vec![None, Some("second".to_string()), Some("third".to_string())];
    let dir = "/plugins/python";
    let error =
        checked_manifest(plugin, dir, PROTOCOL, None, "", &no_files(), &refusals, PathStyle::Unix).unwrap_err();
    assert_eq!(
        error.message("/plugins/python", "node", PathStyle::Unix),
        "plugin manifest at /plugins/python/plugin.toml declares an invalid glob \"b\" in [plugin.workspace] \
         watch_files: second"
    );
}

#[test]
fn a_manifest_command_resolves_to_the_exe_suffixed_binary_when_only_it_exists() {
    let mut plugin = raw("python", "0.1.0", &[".py"]);
    plugin.command = "../target/debug/g-mesh-plugin-python".to_string();
    let built = Files { present: texts(&["/r/python/../target/debug/g-mesh-plugin-python.exe"]) };
    let manifest = read_manifest(plugin, "/r/python", PROTOCOL, None, ".exe", &built, PathStyle::Unix).unwrap();
    assert_eq!(manifest.command, "/r/python/../target/debug/g-mesh-plugin-python.exe");
}

#[test]
fn semantic_pass_capable_languages_returns_only_capable_manifests_sorted() {
    let mut manifests = Vec::new();
    for (language, capable) in [("typescript", true), ("go", false), ("rust", true)] {
        let mut manifest = found("/r", language, "0.0.0", &[]);
        manifest.capabilities.semantic_pass = capable;
        manifests.push(manifest);
    }

    assert_eq!(
        semantic_pass_capable_languages(&manifests),
        texts(&["rust", "typescript"]),
        "go declared no semantic_pass capability and must be excluded; the rest sorted"
    );
}

#[test]
fn an_extension_is_told_in_lower_case_with_its_dot() {
    assert_eq!(extension_of("src/App.TSX", PathStyle::Unix), Some(".tsx".to_string()));
    assert_eq!(extension_of("a.tar.GZ", PathStyle::Unix), Some(".gz".to_string()));
    assert_eq!(extension_of("a.\u{c4}", PathStyle::Unix), Some(".\u{e4}".to_string()), "not only ASCII letters have a lower case");
    assert_eq!(extension_of("Makefile", PathStyle::Unix), None);
    assert_eq!(extension_of(".gitignore", PathStyle::Unix), None);
    assert_eq!(extension_of(r"a.b\c", PathStyle::Unix), Some(r".b\c".to_string()));
    assert_eq!(extension_of(r"a.b\c", PathStyle::Windows), None);
}

#[test]
fn under_excluded_dir_matches_a_whole_segment_at_any_depth_never_a_prefix() {
    let excluded = vec!["vendor".to_string()];

    assert!(under_excluded_dir("vendor/build.alpha", &excluded), "a leading segment must match");
    assert!(
        under_excluded_dir("pkg/vendor/deep/build.alpha", &excluded),
        "a segment at any depth must match, not only a leading one"
    );
    assert!(
        !under_excluded_dir("vendored-tools/build.alpha", &excluded),
        "a segment that merely starts with the excluded name is not a match - no prefix matching"
    );
    assert!(
        !under_excluded_dir("build.alpha", &excluded),
        "the file name itself is never checked as a directory segment"
    );
    assert!(
        !under_excluded_dir("src/vendor.go", &excluded),
        "the excluded name appearing only in the file name, not as a directory, is not a match"
    );
    assert!(!under_excluded_dir("vendor", &excluded));
}

#[test]
fn under_excluded_dir_is_false_with_no_exclude_dirs_configured() {
    assert!(!under_excluded_dir("vendor/build.alpha", &Vec::new()));
}

#[test]
fn the_deepest_patterns_that_are_parsed_do_parse() {
    let mut plugin = raw("python", "0.1.0", &[".py"]);
    plugin.watch_files = vec![
        format!("{}a{}", "{".repeat(1000), "}".repeat(1000)),
        format!("{}a{}", "{b,c".repeat(1000), "}".repeat(1000)),
        "{a,b}".repeat(5000),
        "[{]".repeat(5000),
    ];
    assert!(plugin.patterns_parse());
    assert!(read(plugin.clone(), "/plugins/python").is_ok());

    plugin.watch_files = vec!["{".repeat(1000)];
    assert!(matches!(read(plugin.clone(), "/plugins/python"), Err(ManifestError::Glob { .. })));

    for deep in ["{".repeat(1001), "{[}]".repeat(1001), "{[!]}]".repeat(1001), r"{\}".repeat(1001)] {
        plugin.watch_files = vec![deep];
        assert!(!plugin.patterns_parse(), "no closing brace closes anything here");
    }
}

#[test]
fn a_windows_manifest_is_read_by_its_directorys_name() {
    let mut plugin = raw("python", "0.1.0", &[".py"]);
    plugin.command = r"bin\p.exe".to_string();
    plugin.args = texts(&[r"dist\index.js", "--flag"]);
    let dir = r"C:\plugins\python";
    let manifest =
        read_manifest(plugin.clone(), dir, PROTOCOL, None, ".exe", &no_files(), PathStyle::Windows).unwrap();
    assert_eq!(manifest.command, r"C:\plugins\python\bin\p.exe");
    assert_eq!(manifest.args, texts(&[r"C:\plugins\python\dist\index.js", "--flag"]));
    assert_eq!(manifest.path(PathStyle::Windows), r"C:\plugins\python\plugin.toml");

    let elsewhere = read_manifest(plugin, dir, PROTOCOL, None, "", &no_files(), PathStyle::Unix);
    assert!(matches!(elsewhere, Err(ManifestError::Language { .. })), "there the whole text is a name");
}
