use g_mesh::identity::{project_hash, read_project_root, record_project_root};
use g_mesh::path::PathStyle;

#[test]
fn same_path_always_hashes_identically() {
    let root = "/tmp/some/project";

    assert_eq!(project_hash(root), project_hash(root));
}

#[test]
fn a_hash_is_the_first_half_of_a_quarter_of_the_digest_in_hexadecimal() {
    // The digest of "abc" is ba7816bf 8f01cfea ...
    assert_eq!(project_hash("abc"), "ba7816bf8f01cfea");
    assert_eq!(project_hash(""), "e3b0c44298fc1c14");
}

#[test]
fn a_recorded_root_reads_back_as_the_canonical_path() {
    let (path, contents) = record_project_root("/state/0123", "/home/u/project", PathStyle::Unix);

    assert_eq!(path, "/state/0123/project.root");
    assert_eq!(read_project_root(Some(&contents)), Some("/home/u/project".to_string()));
}

#[test]
fn a_directory_with_no_recorded_root_reads_as_none_rather_than_failing() {
    assert_eq!(read_project_root(None), None);
}

#[test]
fn a_blank_recorded_root_reads_as_none() {
    assert_eq!(read_project_root(Some("  \n")), None);
}

#[test]
fn distinct_paths_do_not_collide() {
    let mut hashes = std::collections::HashSet::new();
    for i in 0..200 {
        let hash = project_hash(&format!("/tmp/project-{i}"));
        assert_eq!(hash.len(), 16);
        assert!(hashes.insert(hash), "hash collision at project-{i}");
    }
}
