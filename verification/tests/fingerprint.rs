use g_mesh::digest::FINGERPRINT_HEX_CHARS;
use g_mesh::fingerprint::{
    bundled_fingerprint, digest_of_plugin_build, fingerprint, is_fingerprint_ignored, BuildEntry,
};
use g_mesh::path::PathStyle;
use g_mesh::plugin::FINGERPRINT_UNAVAILABLE;
use sha2::Digest;

fn file(name: &str, contents: &str) -> BuildEntry {
    BuildEntry::File { name: name.to_string(), bytes: contents.as_bytes().to_vec() }
}

fn dir(name: &str, entries: Vec<BuildEntry>) -> BuildEntry {
    BuildEntry::Dir { name: name.to_string(), entries }
}

fn digest(entries: Vec<BuildEntry>) -> String {
    digest_of_plugin_build(&entries, &Vec::new(), PathStyle::Unix).unwrap()
}

fn same_build_twice() {
    let build = || vec![file("index.js", "run();"), file("extract.js", "parse();")];
    let first = digest(build());
    assert_eq!(digest(build()), first);
    assert_eq!(first.len(), FINGERPRINT_HEX_CHARS);
    assert!(first.chars().all(|c| c.is_ascii_hexdigit()), "{first} must be hex");
}

#[test]
fn plugin_the_same_build_fingerprints_the_same_way_twice() {
    same_build_twice();
}

#[test]
fn tests_the_same_build_fingerprints_the_same_way_twice() {
    same_build_twice();
}

fn one_file_changed() {
    let before = digest(vec![file("index.js", "run();"), file("extract.js", "parse();")]);
    let after =
        digest(vec![file("index.js", "run();"), file("extract.js", "parse(); resolveLexically();")]);
    assert_ne!(after, before);
}

#[test]
fn plugin_changing_one_emitted_file_changes_the_fingerprint() {
    one_file_changed();
}

#[test]
fn tests_changing_one_emitted_file_changes_the_fingerprint() {
    one_file_changed();
}

fn identical_bytes() {
    let before = digest(vec![file("index.js", "run();"), file("extract.js", "parse();")]);
    assert_eq!(digest(vec![file("extract.js", "parse();"), file("index.js", "run();")]), before);
}

#[test]
fn plugin_re_emitting_identical_bytes_leaves_the_fingerprint_alone() {
    identical_bytes();
}

#[test]
fn tests_re_emitting_identical_bytes_leaves_the_fingerprint_alone() {
    identical_bytes();
}

fn moved_code() {
    let before = digest(vec![file("index.js", "ab"), file("extract.js", "c")]);
    let after = digest(vec![file("index.js", "a"), file("extract.js", "bc")]);
    assert_ne!(after, before);
}

#[test]
fn plugin_moving_code_between_two_files_still_changes_the_fingerprint() {
    moved_code();
}

#[test]
fn tests_moving_code_between_two_files_still_changes_the_fingerprint() {
    moved_code();
}

fn in_a_subdirectory() {
    let before =
        digest(vec![file("index.js", "run();"), dir("lang", vec![file("ts.js", "grammar();")])]);
    let after =
        digest(vec![file("index.js", "run();"), dir("lang", vec![file("ts.js", "grammar(2);")])]);
    assert_ne!(after, before);
}

#[test]
fn plugin_a_file_in_a_subdirectory_is_part_of_the_build_too() {
    in_a_subdirectory();
}

#[test]
fn tests_a_file_in_a_subdirectory_is_part_of_the_build_too() {
    in_a_subdirectory();
}

fn unbuilt() {
    assert!(digest_of_plugin_build(&Vec::new(), &Vec::new(), PathStyle::Unix).is_none());
    assert!(digest_of_plugin_build(&vec![BuildEntry::Other, dir("empty", vec![])], &Vec::new(), PathStyle::Unix).is_none());
    assert_eq!(fingerprint(Some(&Vec::new()), &Vec::new(), PathStyle::Unix), FINGERPRINT_UNAVAILABLE);
    assert_eq!(fingerprint(None, &Vec::new(), PathStyle::Unix), FINGERPRINT_UNAVAILABLE);
    assert_eq!(bundled_fingerprint(None, PathStyle::Unix), "unavailable");
}

#[test]
fn plugin_an_unbuilt_plugin_has_no_fingerprint_at_all() {
    unbuilt();
}

#[test]
fn tests_an_unbuilt_plugin_has_no_fingerprint_at_all() {
    unbuilt();
}

fn baseline_ignored() {
    let before = digest(vec![file("index.js", "run();")]);
    for contents in ["module.exports = {};", "module.exports = { changed: true };"] {
        let junk = dir("node_modules", vec![dir("pkg", vec![file("index.js", contents)])]);
        assert_eq!(digest(vec![file("index.js", "run();"), junk]), before);
    }
}

#[test]
fn plugin_a_change_inside_a_baseline_ignored_directory_does_not_change_the_fingerprint() {
    baseline_ignored();
}

#[test]
fn tests_a_change_inside_a_baseline_ignored_directory_does_not_change_the_fingerprint() {
    baseline_ignored();
}

fn manifest_ignored() {
    let ignore = vec!["vendor".to_string()];
    let before = fingerprint(Some(&vec![file("index.js", "run();")]), &ignore, PathStyle::Unix);
    assert_ne!(before, FINGERPRINT_UNAVAILABLE);
    for contents in ["var x = 1;", "var x = 2;"] {
        let build = vec![file("index.js", "run();"), dir("vendor", vec![file("lib.js", contents)])];
        assert_eq!(fingerprint(Some(&build), &ignore, PathStyle::Unix), before);
    }
}

#[test]
fn plugin_a_change_inside_a_manifest_declared_ignore_directory_does_not_change_the_fingerprint() {
    manifest_ignored();
}

#[test]
fn tests_a_change_inside_a_manifest_declared_ignore_directory_does_not_change_the_fingerprint() {
    manifest_ignored();
}

fn not_ignored() {
    let ignore = vec!["vendor".to_string()];
    let build =
        |code: &str| vec![file("index.js", code), dir("vendor", vec![file("lib.js", "var x = 1;")])];
    let known = |code: &str| fingerprint(Some(&build(code)), &ignore, PathStyle::Unix);
    assert_ne!(known("run(2);"), known("run();"));
}

#[test]
fn plugin_a_change_to_a_non_ignored_file_still_changes_the_fingerprint() {
    not_ignored();
}

#[test]
fn tests_a_change_to_a_non_ignored_file_still_changes_the_fingerprint() {
    not_ignored();
}

#[test]
fn a_fingerprint_is_of_the_paths_the_lengths_and_the_bytes_in_order() {
    let mut message: Vec<u8> = Vec::new();
    for (path, bytes) in [("a/z.js", "zz"), ("b.js", "")] {
        message.extend_from_slice(path.as_bytes());
        message.push(0);
        message.extend_from_slice(&(bytes.len() as u64).to_le_bytes());
        message.extend_from_slice(bytes.as_bytes());
    }
    let expected: String =
        sha2::Sha256::digest(&message).iter().take(8).map(|b| format!("{b:02x}")).collect();
    assert_eq!(digest(vec![file("b.js", ""), dir("a", vec![file("z.js", "zz")])]), expected);
    let build = vec![file("b.js", ""), dir("a", vec![file("z.js", "zz")])];
    assert_eq!(bundled_fingerprint(Some(&build), PathStyle::Unix), expected);
    assert_ne!(bundled_fingerprint(Some(&build), PathStyle::Windows), expected, "paths are spelt otherwise there");
}

#[test]
fn a_file_named_like_an_ignored_directory_counts() {
    assert_ne!(digest(vec![file("node_modules", "x")]), digest(vec![file("node_modules", "y")]));
    assert!(is_fingerprint_ignored(".pytest_cache", &Vec::new()));
    assert!(!is_fingerprint_ignored("vendor", &Vec::new()));
    assert!(is_fingerprint_ignored("vendor", &vec!["vendor".to_string()]));
}
