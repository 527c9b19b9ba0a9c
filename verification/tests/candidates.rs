use g_mesh::candidates::{
    completed_index_in, detect, detect_in, has_completed_index, is_skipped, walk, Candidate, Detection,
    Directory, Entry, Limits, Marker, Mode, Probe, SingleReason, Tree, Walker,
};
use g_mesh::path::{join_path, PathStyle};

const NOTHING: Probe =
    Probe { git: None, cargo: false, package: false, go_mod: false, pyproject: false };

/// A tree of directories and files below `/root`, listed as a file system
/// would list it.
struct Disk {
    dirs: Vec<String>,
    files: Vec<String>,
    links: Vec<String>,
}

impl Disk {
    fn new() -> Disk {
        Disk { dirs: vec!["/root".to_string()], files: Vec::new(), links: Vec::new() }
    }

    fn mkdir(&mut self, rel: &str) {
        let mut path = "/root".to_string();
        for part in rel.split('/') {
            path = format!("{path}/{part}");
            if !self.dirs.contains(&path) {
                self.dirs.push(path.clone());
            }
        }
    }

    fn touch(&mut self, rel: &str) {
        if let Some((dir, _)) = rel.rsplit_once('/') {
            self.mkdir(dir);
        }
        self.files.push(format!("/root/{rel}"));
    }

    fn link(&mut self, rel: &str) {
        self.links.push(format!("/root/{rel}"));
    }

    fn has(&self, path: &str) -> bool {
        self.dirs.iter().any(|d| d == path) || self.files.iter().any(|f| f == path)
    }

    fn probe(&self, dir: &str) -> Probe {
        let git = format!("{dir}/.git");
        Probe {
            git: if self.has(&git) { Some(self.files.contains(&git)) } else { None },
            cargo: self.has(&format!("{dir}/Cargo.toml")),
            package: self.has(&format!("{dir}/package.json")),
            go_mod: self.has(&format!("{dir}/go.mod")),
            pyproject: self.has(&format!("{dir}/pyproject.toml")),
        }
    }

    fn inside<'a>(&self, dir: &str, path: &'a str) -> Option<&'a str> {
        let name = path.strip_prefix(dir)?.strip_prefix('/')?;
        if name.contains('/') {
            None
        } else {
            Some(name)
        }
    }

    fn tree(&self) -> Tree {
        let mut dirs = Vec::new();
        for dir in &self.dirs {
            let mut entries = Vec::new();
            for child in &self.dirs {
                if let Some(name) = self.inside(dir, child) {
                    entries.push(Entry::Dir { name: name.to_string(), probe: self.probe(child) });
                }
            }
            for other in self.files.iter().chain(self.links.iter()) {
                if self.inside(dir, other).is_some() {
                    entries.push(Entry::Other);
                }
            }
            dirs.push(Directory { path: dir.clone(), entries });
        }
        Tree { style: PathStyle::Unix, root: "/root".to_string(), root_probe: self.probe("/root"), dirs }
    }
}

fn rels(candidates: &[Candidate]) -> Vec<&str> {
    candidates.iter().map(|c| c.rel_path.as_str()).collect()
}

fn detect_fresh(disk: &Disk, limits: Limits) -> Detection {
    detect_in(&disk.tree(), false, limits, 5)
}

#[test]
fn three_repos_and_a_worktree_at_depth_two_are_the_four_candidates() {
    let mut disk = Disk::new();
    disk.mkdir("a/.git");
    disk.mkdir("b/.git");
    disk.mkdir("group/c/.git");
    disk.touch("worktrees/wt/.git");
    disk.mkdir("plain/dir");

    let detection = detect_fresh(&disk, Limits::default());
    assert_eq!(detection.mode, Mode::Multi);
    assert_eq!(rels(&detection.candidates), ["a", "b", "group/c", "worktrees/wt"]);
    let worktrees: Vec<&str> =
        detection.candidates.iter().filter(|c| c.is_worktree).map(|c| c.rel_path.as_str()).collect();
    assert_eq!(worktrees, ["worktrees/wt"]);
    assert_eq!(detection.candidates[0].abs_path, "/root/a");
    assert_eq!(detection.candidates[2].abs_path, "/root/group/c");
    assert_eq!(detection.candidates[0].markers, [Marker::Git]);
    assert_eq!(detection.candidates[0].markers[0].name(), ".git");
    assert_eq!(detection.elapsed, 5);
}

#[test]
fn a_repo_with_nested_packages_is_listed_once() {
    let mut disk = Disk::new();
    disk.mkdir("mono/.git");
    disk.touch("mono/package.json");
    disk.touch("mono/plugins/x/package.json");
    disk.touch("mono/y/package.json");
    disk.mkdir("other/.git");

    let detection = detect_fresh(&disk, Limits::default());
    assert_eq!(rels(&detection.candidates), ["mono", "other"]);
    assert_eq!(detection.candidates[0].markers, [Marker::Git, Marker::Package]);
}

#[test]
fn node_modules_packages_are_not_candidates() {
    let mut disk = Disk::new();
    disk.touch("node_modules/x/package.json");
    disk.mkdir("a/.git");
    disk.mkdir("b/.git");

    let detection = detect_fresh(&disk, Limits::default());
    assert_eq!(rels(&detection.candidates), ["a", "b"]);
}

#[test]
fn a_marker_at_depth_three_is_not_listed() {
    let mut disk = Disk::new();
    disk.touch("x/y/z/go.mod");
    disk.mkdir("a/.git");
    disk.mkdir("b/.git");

    let detection = detect_fresh(&disk, Limits::default());
    assert_eq!(rels(&detection.candidates), ["a", "b"]);
}

#[test]
fn a_root_with_its_own_marker_is_single_whatever_lies_below() {
    let mut disk = Disk::new();
    disk.touch("package.json");
    disk.touch("plugins/a/package.json");
    disk.touch("plugins/b/package.json");
    disk.mkdir("c/.git");
    disk.mkdir("d/.git");

    let detection = detect_fresh(&disk, Limits::default());
    assert_eq!(detection.mode, Mode::Single(SingleReason::RootMarker));
    assert!(!detection.walked, "rule 1 must settle it without a walk");
}

#[test]
fn one_candidate_leaves_the_root_single() {
    let mut disk = Disk::new();
    disk.mkdir("only/.git");
    disk.touch("notes.txt");

    let detection = detect_fresh(&disk, Limits::default());
    assert_eq!(detection.mode, Mode::Single(SingleReason::FewCandidates));
    assert_eq!(rels(&detection.candidates), ["only"]);
}

#[test]
fn a_completed_index_makes_a_folder_single_and_an_unfinished_one_does_not() {
    let mut disk = Disk::new();
    disk.mkdir("a/.git");
    disk.mkdir("b/.git");

    let completed = completed_index_in(true, Some(true));
    let detection = detect_in(&disk.tree(), completed, Limits::default(), 0);
    assert_eq!(detection.mode, Mode::Single(SingleReason::CompletedIndex));

    let unfinished = completed_index_in(true, Some(false));
    let detection = detect_in(&disk.tree(), unfinished, Limits::default(), 0);
    assert_eq!(detection.mode, Mode::Multi);
}

#[test]
fn an_index_that_cannot_be_read_is_not_complete() {
    assert!(!completed_index_in(false, Some(true)));
    assert!(!completed_index_in(true, None));
    assert!(!has_completed_index(None));
    assert!(has_completed_index(Some(true)));

    let mut disk = Disk::new();
    disk.mkdir("a/.git");
    disk.mkdir("b/.git");
    assert_eq!(detect(&disk.tree(), None, Limits::default(), 0).mode, Mode::Multi);
    assert_eq!(
        detect(&disk.tree(), Some(true), Limits::default(), 0).mode,
        Mode::Single(SingleReason::CompletedIndex)
    );
}

#[test]
fn the_entry_limit_truncates_a_wide_folder() {
    let mut disk = Disk::new();
    for n in 0..40 {
        disk.mkdir(&format!("d{n:02}"));
    }
    disk.mkdir("a/.git");
    disk.mkdir("b/.git");

    let limits = Limits { max_entries: 10, ..Limits::default() };
    let detection = detect_fresh(&disk, limits);
    assert!(detection.truncated, "hitting max_entries must set truncated");
    assert!(detection.entries_read <= 10, "read {} entries past a limit of 10", detection.entries_read);
}

#[test]
fn the_candidate_limit_truncates_too() {
    let mut disk = Disk::new();
    for n in 0..5 {
        disk.mkdir(&format!("r{n}/.git"));
    }

    let limits = Limits { max_candidates: 3, ..Limits::default() };
    let detection = detect_fresh(&disk, limits);
    assert!(detection.truncated);
    assert_eq!(detection.candidates.len(), 3);
}

#[test]
fn a_symlink_to_a_repo_is_not_listed() {
    let mut disk = Disk::new();
    disk.mkdir("a/.git");
    disk.mkdir("b/.git");
    disk.link("linked");

    let detection = detect_fresh(&disk, Limits::default());
    assert_eq!(rels(&detection.candidates), ["a", "b"]);
}

#[test]
fn candidates_come_in_the_order_of_their_paths() {
    let mut disk = Disk::new();
    disk.mkdir("zeta/.git");
    disk.touch("mid/inner/go.mod");
    disk.touch("alpha/pyproject.toml");

    let found = walk(&disk.tree(), Limits::default(), 0);
    assert_eq!(rels(&found.candidates), ["alpha", "mid/inner", "zeta"]);
    assert_eq!(found.entries_read, 4);
    assert!(!found.truncated);
}

#[test]
fn a_walker_names_one_directory_after_the_other() {
    let limits = Limits { max_depth: 2, max_entries: 3, max_candidates: 64 };
    let mut walker = Walker::start("/root", limits, PathStyle::Unix);
    assert_eq!(walker.next_dir(), Some("/root"));
    assert_eq!(walker.appetite(), 3);
    walker.listed(Some(&vec![
        Entry::Dir { name: "plain".to_string(), probe: NOTHING },
        Entry::Dir { name: ".hidden".to_string(), probe: Probe { cargo: true, ..NOTHING } },
    ]));
    assert_eq!(walker.next_dir(), Some("/root/plain"));
    assert_eq!(walker.appetite(), 1);
    walker.listed(None);
    assert_eq!(walker.next_dir(), None);
    assert!(walker.finish(1).candidates.is_empty());
}

#[test]
fn dotted_and_listed_names_are_skipped_and_others_are_not() {
    for name in [".git", ".cache", "node_modules", "target", "dist", "build", "out", "vendor", "venv", "__pycache__"] {
        assert!(is_skipped(name), "{name}");
    }
    assert!(!is_skipped("src"));
    assert!(!is_skipped("vendored"));
}

#[test]
fn candidates_are_found_from_the_root_by_different_paths() {
    let mut disk = Disk::new();
    for path in ["a/.git", "b/a/.git", "b/b/.git", "c/a/.git"] {
        disk.mkdir(path);
    }
    let detection = detect_fresh(&disk, Limits::default());
    assert_eq!(rels(&detection.candidates), ["a", "b/a", "b/b", "c/a"]);
    for candidate in &detection.candidates {
        assert_eq!(candidate.abs_path, join_path("/root", &candidate.rel_path, PathStyle::Unix));
    }
}
