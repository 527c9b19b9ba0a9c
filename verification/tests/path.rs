use std::path::{Path, PathBuf};

use g_mesh::path::{
    ancestors_of, components_of, extension_in, file_name_in, file_stem_in, join_path, parent_of,
    relative_wire_path, replace_extension, settled_file, PathStyle,
};

const UNIX: PathStyle = PathStyle::Unix;
const WINDOWS: PathStyle = PathStyle::Windows;

const PATHS: [&str; 30] = [
    "", ".", "..", "/", "//", "/.", "/..", "./", "a", "a/", "a/.", "a/..", "/a", "//a", "/a/", "a/b", "a//b",
    "a/./b", "./a", "./a/b.c", "a/b.tar.gz", ".hidden", "a/.hidden", "a/b.", "a/...", "/a/./", "../a", "a/../b",
    "/usr/local/bin/g-mesh", "x.y/z",
];

fn text(p: Option<&Path>) -> Option<String> {
    p.map(|p| p.to_str().unwrap().to_string())
}

#[test]
fn paths_are_taken_apart_as_the_standard_library_takes_them_apart() {
    for p in PATHS {
        let path = Path::new(p);
        assert_eq!(parent_of(p, UNIX), text(path.parent()), "parent of {p:?}");
        assert_eq!(file_name_in(p, UNIX), path.file_name().map(|s| s.to_str().unwrap().to_string()), "file name of {p:?}");
        assert_eq!(extension_in(p, UNIX), path.extension().map(|s| s.to_str().unwrap().to_string()), "extension of {p:?}");
        assert_eq!(file_stem_in(p, UNIX), path.file_stem().map(|s| s.to_str().unwrap().to_string()), "stem of {p:?}");
        let parts: Vec<String> =
            path.components().map(|c| c.as_os_str().to_str().unwrap().to_string()).collect();
        assert_eq!(components_of(p, UNIX), parts, "components of {p:?}");
        let above: Vec<String> = path.ancestors().map(|a| a.to_str().unwrap().to_string()).collect();
        assert_eq!(ancestors_of(p, UNIX), above, "ancestors of {p:?}");
        assert_eq!(
            replace_extension(p, "7.tmp", UNIX),
            path.with_extension("7.tmp").to_str().unwrap(),
            "extension replaced in {p:?}"
        );
    }
}

#[test]
fn paths_are_put_together_as_the_standard_library_puts_them_together() {
    for base in PATHS {
        for rest in PATHS {
            let joined: PathBuf = Path::new(base).join(rest);
            assert_eq!(join_path(base, rest, UNIX), joined.to_str().unwrap(), "{base:?} and {rest:?}");
        }
    }
}

#[test]
fn a_path_below_the_root_is_told_relative_to_it() {
    assert_eq!(relative_wire_path("/p", "/p/src/a.ts", UNIX), Some("src/a.ts".to_string()));
    assert_eq!(relative_wire_path("/p/", "/p//src/./a.ts", UNIX), Some("src/a.ts".to_string()));
    assert_eq!(relative_wire_path("/p", "/pq/a.ts", UNIX), None);
    assert_eq!(relative_wire_path("/p", "/p", UNIX), Some(String::new()));
}

#[test]
fn a_change_of_the_root_itself_or_outside_it_is_not_routed() {
    assert_eq!(settled_file("/p", "/p/a.ts", UNIX), Some("a.ts".to_string()));
    assert_eq!(settled_file("/p", "/p", UNIX), None);
    assert_eq!(settled_file("/p", "/elsewhere/a.ts", UNIX), None);
}

#[test]
fn windows_paths_are_taken_apart_at_both_separators() {
    for (path, parent, name) in [
        (r"C:\plugins\python", Some(r"C:\plugins"), Some("python")),
        (r"C:\plugins/python\", Some(r"C:\plugins"), Some("python")),
        (r"C:\plugins", Some(r"C:\"), Some("plugins")),
        (r"C:\", None, None),
        ("C:", None, None),
        ("C:a", Some("C:"), Some("a")),
        (r"\windows\system32", Some(r"\windows"), Some("system32")),
        (r"\", None, None),
        (r"\\server\share", None, None),
        (r"\\server\share\dir", Some(r"\\server\share\"), Some("dir")),
        (r"\\?\C:\dir\file.rs", Some(r"\\?\C:\dir"), Some("file.rs")),
        (r"\\?\UNC\server\share\dir", Some(r"\\?\UNC\server\share\"), Some("dir")),
        (r"a\..", Some("a"), None),
        (r"a\.", Some(""), Some("a")),
        ("", None, None),
    ] {
        assert_eq!(parent_of(path, WINDOWS).as_deref(), parent, "parent of {path:?}");
        assert_eq!(file_name_in(path, WINDOWS).as_deref(), name, "file name of {path:?}");
    }
    assert_eq!(extension_in(r"a.b\c", WINDOWS), None);
    assert_eq!(extension_in(r"a.b\c", UNIX).as_deref(), Some(r"b\c"));
    assert_eq!(file_stem_in(r"C:\bin\node.exe", WINDOWS).as_deref(), Some("node"));
    assert_eq!(replace_extension(r"C:\s\daemon.pid", "7.tmp", WINDOWS), r"C:\s\daemon.7.tmp");
    assert_eq!(ancestors_of(r"C:\a\b", WINDOWS), [r"C:\a\b", r"C:\a", r"C:\"]);
}

#[test]
fn windows_paths_are_put_together_with_backslashes() {
    for (base, rest, joined) in [
        (r"C:\a", "b", r"C:\a\b"),
        (r"C:\a\", "b", r"C:\a\b"),
        ("C:/a/", "b", "C:/a/b"),
        (r"C:\a", r"D:\b", r"D:\b"),
        (r"C:\a", "D:b", "D:b"),
        (r"C:\a", r"\b", r"C:\b"),
        (r"\\server\share\a", r"\b", r"\\server\share\b"),
        (r"C:\a", r"\\server\share", r"\\server\share"),
        ("C:", "b", "C:b"),
        ("", "b", "b"),
        ("a", "", r"a\"),
    ] {
        assert_eq!(join_path(base, rest, WINDOWS), joined, "{base:?} and {rest:?}");
    }
    assert_eq!(join_path(r"C:\a", r"D:\b", UNIX), r"C:\a/D:\b");
}

#[test]
fn a_windows_path_below_the_root_is_told_with_slashes() {
    let below = |absolute: &str| relative_wire_path(r"C:\p", absolute, WINDOWS);
    assert_eq!(below(r"C:\p\src\a.ts").as_deref(), Some("src/a.ts"));
    assert_eq!(below(r"c:\p\src/.\a.ts").as_deref(), Some("src/a.ts"), "a drive counts in either case");
    assert_eq!(below(r"D:\p\src\a.ts"), None);
    assert_eq!(below(r"C:\pq\a.ts"), None);
    assert_eq!(below(r"C:\p").as_deref(), Some(""));
    assert_eq!(components_of(r"C:a\b", WINDOWS), ["C:", "a", "b"]);
    assert_eq!(components_of(r"\\server\share\a", WINDOWS), ["//server/share", "/", "a"]);
    assert_eq!(settled_file(r"C:\p", r"C:\p\a\b", WINDOWS).as_deref(), Some("a/b"));
}

#[test]
fn an_extended_length_path_is_spelt_anew_when_something_is_looked_up_from_it() {
    for (base, rest, joined) in [
        (r"\\?\C:\bar", "../foo", r"\\?\C:\foo"),
        (r"\\?\C:\bar", "../../foo", r"\\?\C:\foo"),
        (r"\\?\C:\", "../foo", r"\\?\C:\foo"),
        (r"\\?\C:\bar", r".\foo\.", r"\\?\C:\bar\foo"),
        (r"\\?\C:\bar", "a/./b//c", r"\\?\C:\bar\a\b\c"),
        (r"\\?\C:\bar", r"\foo", r"\\?\C:\foo"),
        (r"\\?\C:", r"\foo", r"\\?\C:\foo"),
        (r"\\?\C:", r"..\foo\.", r"\\?\C:\foo"),
        (r"\\?\C:\bar", "", r"\\?\C:\bar\"),
        (r"\\?\C:\bar", r"D:\foo", r"D:\foo"),
        (r"\\?\C:\bar\\baz\", "foo", r"\\?\C:\bar\baz\foo"),
        (r"\\?\UNC\server\share", "foo", r"\\?\UNC\server\share\foo"),
        (r"\\?\UNC\server\share\a", "..", r"\\?\UNC\server\share\"),
        (r"\\?\pictures\kittens", "..", r"\\?\pictures\"),
        (r"\\?\C:\a/b", "c", r"\\?\C:\a/b\c"),
    ] {
        assert_eq!(join_path(base, rest, WINDOWS), joined, "{base:?} and {rest:?}");
    }
    assert_eq!(file_name_in(r"\\?\C:\a/b", WINDOWS).as_deref(), Some("a/b"), "only a backslash separates there");
    assert_eq!(file_name_in(r"\\?\C:\a\.", WINDOWS), None);
    assert_eq!(parent_of(r"\\?\C:\a\.", WINDOWS).as_deref(), Some(r"\\?\C:\a"));
    assert_eq!(components_of(r"\\?\c:\a\.\b", WINDOWS), [r"\\?\C:", "/", "a", ".", "b"]);
    assert_eq!(components_of(r"\\?\C:", WINDOWS), [r"\\?\C:"]);
    assert_eq!(parent_of(r"\\.\COM42\x", WINDOWS).as_deref(), Some(r"\\.\COM42\"));
    assert_eq!(parent_of("C:.", WINDOWS), None);
    assert_eq!(parent_of(r"C:.\a", WINDOWS).as_deref(), Some("C:."));
}

#[test]
fn a_path_is_found_again_from_its_root() {
    for (root, absolute, style) in [
        ("/p", "/p/src/a.ts", UNIX),
        ("/p/", "/p//src/../a.ts", UNIX),
        ("p", "p/./a", UNIX),
        (r"C:\p", r"c:\p\src\a.ts", WINDOWS),
        (r"\\?\C:\p", r"\\?\C:\p\src\a.ts", WINDOWS),
        (r"\\server\share\p", r"\\server\share\p\a", WINDOWS),
    ] {
        let wire = relative_wire_path(root, absolute, style).unwrap();
        assert_eq!(
            components_of(&join_path(root, &wire, style), style),
            components_of(absolute, style),
            "{absolute:?} below {root:?}"
        );
    }
}

#[test]
fn a_path_is_its_directory_and_its_name() {
    for p in PATHS {
        if let Some(name) = file_name_in(p, UNIX) {
            let mut parts = components_of(&parent_of(p, UNIX).unwrap(), UNIX);
            parts.push(name);
            assert_eq!(components_of(p, UNIX), parts, "{p:?}");
        }
    }
}
