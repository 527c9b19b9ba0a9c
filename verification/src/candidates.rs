//! Whether a root is one project or a folder of several.
//!
//! The rules, in order: a root that carries a marker is one project; so is a
//! root whose own index is complete; so is a root below which a bounded walk
//! finds fewer than two marked directories. Anything else is a folder of
//! projects.
//!
//! The walk goes breadth first. It lists no more than a bounded number of
//! directory entries, never enters a directory whose name is on the skip list
//! or starts with a dot, and never looks inside a marked directory.

use vstd::prelude::*;
use vstd::string::*;

use crate::order::{is_order, order_of, picked};
use crate::path::{join, join_path, PathStyle};
use crate::text::{chars_of, opt_view, same, views};
use crate::time::Duration;

verus! {

/// How few candidates still leave the root a single project.
pub const MULTI_THRESHOLD: usize = 2;

/// What marks a directory as a project.
#[derive(Clone, Copy, Debug, PartialEq, Eq, Structural)]
pub enum Marker {
    Git,
    Cargo,
    Package,
    GoMod,
    PyProject,
}

impl Marker {
    /// The name of the file or directory that is the marker.
    pub open spec fn file(self) -> Seq<char> {
        match self {
            Marker::Git => ".git"@,
            Marker::Cargo => "Cargo.toml"@,
            Marker::Package => "package.json"@,
            Marker::GoMod => "go.mod"@,
            Marker::PyProject => "pyproject.toml"@,
        }
    }

    /// The name of the file or directory that is the marker.
    pub fn name(self) -> (r: &'static str)
        ensures
            r@ == self.file(),
    {
        match self {
            Marker::Git => ".git",
            Marker::Cargo => "Cargo.toml",
            Marker::Package => "package.json",
            Marker::GoMod => "go.mod",
            Marker::PyProject => "pyproject.toml",
        }
    }
}

/// What looking for each marker in a directory gave: whether it is there, and
/// of `.git` whether it is a file.
#[derive(Clone, Copy, Debug, PartialEq, Eq, Structural)]
pub struct Probe {
    pub git: Option<bool>,
    pub cargo: bool,
    pub package: bool,
    pub go_mod: bool,
    pub pyproject: bool,
}

/// The marker alone, if it is there.
pub open spec fn only_if(there: bool, marker: Marker) -> Seq<Marker> {
    if there {
        seq![marker]
    } else {
        seq![]
    }
}

impl Probe {
    /// The markers that are there, in their fixed order.
    pub open spec fn markers(self) -> Seq<Marker> {
        only_if(self.git is Some, Marker::Git) + only_if(self.cargo, Marker::Cargo) + only_if(
            self.package,
            Marker::Package,
        ) + only_if(self.go_mod, Marker::GoMod) + only_if(self.pyproject, Marker::PyProject)
    }

    /// Whether `.git` is a file, as in a worktree or a submodule.
    pub open spec fn worktree(self) -> bool {
        self.git == Some(true)
    }
}

/// The markers a directory carries, and whether it is a worktree.
pub fn probe(found: &Probe) -> (r: (Vec<Marker>, bool))
    ensures
        r.0@ == found.markers(),
        r.1 == found.worktree(),
{
    let mut markers: Vec<Marker> = Vec::new();
    let mut is_worktree: bool = false;
    match found.git {
        Some(is_file) => {
            is_worktree = is_file;
            markers.push(Marker::Git);
        },
        None => {},
    }
    proof {
        assert(markers@ =~= only_if(found.git is Some, Marker::Git));
    }
    if found.cargo {
        markers.push(Marker::Cargo);
    }
    if found.package {
        markers.push(Marker::Package);
    }
    if found.go_mod {
        markers.push(Marker::GoMod);
    }
    if found.pyproject {
        markers.push(Marker::PyProject);
    }
    proof {
        assert(markers@ =~= found.markers());
    }
    (markers, is_worktree)
}

/// The markers a directory carries.
pub fn markers_of(found: &Probe) -> (r: Vec<Marker>)
    ensures
        r@ == found.markers(),
{
    probe(found).0
}

/// Whether the walk never enters a directory of this name.
pub open spec fn skips(name: Seq<char>) -> bool {
    ||| name.len() > 0 && name[0] == '.'
    ||| name == "node_modules"@
    ||| name == "target"@
    ||| name == "dist"@
    ||| name == "build"@
    ||| name == "out"@
    ||| name == "vendor"@
    ||| name == "venv"@
    ||| name == "__pycache__"@
}

/// Whether the walk never enters a directory of this name.
pub fn is_skipped(name: &str) -> (r: bool)
    ensures
        r == skips(name@),
{
    let v = chars_of(name);
    (v.len() > 0 && v[0] == '.') || same(name, "node_modules") || same(name, "target") || same(name, "dist")
        || same(name, "build") || same(name, "out") || same(name, "vendor") || same(name, "venv") || same(
        name,
        "__pycache__",
    )
}

/// The walk's bounds.
#[derive(Clone, Copy, Debug, PartialEq, Eq, Structural)]
pub struct Limits {
    /// How many levels below the root are looked at.
    pub max_depth: usize,
    /// Directory entries read in total.
    pub max_entries: usize,
    /// Candidates kept before the walk stops.
    pub max_candidates: usize,
}

impl Default for Limits {
    /// The bounds the daemon walks with.
    fn default() -> (r: Self)
        ensures
            r.max_depth == 2,
            r.max_entries == 5_000,
            r.max_candidates == 64,
    {
        Limits { max_depth: 2, max_entries: 5_000, max_candidates: 64 }
    }
}

/// One marked directory below the root.
#[derive(Clone, Debug, PartialEq, Eq)]
pub struct Candidate {
    /// Relative to the root, with `/` between its parts.
    pub rel_path: String,
    pub abs_path: String,
    /// The markers that were found, in their fixed order.
    pub markers: Vec<Marker>,
    /// `.git` is a file, not a directory.
    pub is_worktree: bool,
}

/// What a candidate says.
pub struct Found {
    pub rel: Seq<char>,
    pub abs: Seq<char>,
    pub markers: Seq<Marker>,
    pub is_worktree: bool,
}

impl View for Candidate {
    type V = Found;

    open spec fn view(&self) -> Found {
        Found {
            rel: self.rel_path@,
            abs: self.abs_path@,
            markers: self.markers@,
            is_worktree: self.is_worktree,
        }
    }
}

/// What a list of candidates says, in order.
pub open spec fn found_views(v: Seq<Candidate>) -> Seq<Found> {
    Seq::new(v.len(), |i: int| v[i]@)
}

/// Why a root is a single project.
#[derive(Clone, Copy, Debug, PartialEq, Eq, Structural)]
pub enum SingleReason {
    RootMarker,
    CompletedIndex,
    FewCandidates,
}

#[derive(Clone, Copy, Debug, PartialEq, Eq, Structural)]
pub enum Mode {
    Single(SingleReason),
    Multi,
}

/// What the bounded walk found.
#[derive(Clone, Debug, PartialEq, Eq)]
pub struct Walk {
    /// Sorted by `rel_path`.
    pub candidates: Vec<Candidate>,
    pub entries_read: usize,
    pub elapsed: Duration,
    /// A limit was hit; `candidates` holds what was found before it.
    pub truncated: bool,
}

/// The mode decision and whatever it had to look at to make it.
#[derive(Clone, Debug, PartialEq, Eq)]
pub struct Detection {
    pub mode: Mode,
    pub candidates: Vec<Candidate>,
    pub entries_read: usize,
    pub elapsed: Duration,
    pub truncated: bool,
    /// Whether the walk ran at all.
    pub walked: bool,
}

/// One entry of a directory's listing.
#[derive(Clone, Debug)]
pub enum Entry {
    /// A directory that can be looked into, with the markers in it.
    Dir { name: String, probe: Probe },
    /// Anything else: a file, a symbolic link, an entry that cannot be read.
    Other,
}

/// A directory the walk has still to list.
#[derive(Clone, Debug)]
pub struct Place {
    pub abs_path: String,
    pub rel_path: String,
    /// How far below the root; the root is at 0.
    pub depth: usize,
    pub style: PathStyle,
}

/// What a `Place` says.
pub struct Spot {
    pub abs: Seq<char>,
    pub rel: Seq<char>,
    pub depth: nat,
    pub style: PathStyle,
}

impl View for Place {
    type V = Spot;

    open spec fn view(&self) -> Spot {
        Spot {
            abs: self.abs_path@,
            rel: self.rel_path@,
            depth: self.depth as nat,
            style: self.style,
        }
    }
}

/// What a list of places says, in order.
pub open spec fn spots(v: Seq<Place>) -> Seq<Spot> {
    Seq::new(v.len(), |i: int| v[i]@)
}

/// The path of `name` below `rel`, relative to the root.
pub open spec fn child_rel(rel: Seq<char>, name: Seq<char>) -> Seq<char> {
    if rel.len() == 0 {
        name
    } else {
        rel + "/"@ + name
    }
}

/// How far a walk has come: what is still to be listed, what was found, how
/// many entries were read, and whether a limit has stopped it.
pub struct Progress {
    pub queue: Seq<Spot>,
    pub found: Seq<Found>,
    pub read: nat,
    pub truncated: bool,
}

/// The walk before it has read anything.
pub open spec fn at_start(root: Seq<char>, limits: Limits, style: PathStyle) -> Progress {
    Progress {
        queue: if limits.max_depth > 0 {
            seq![Spot { abs: root, rel: seq![], depth: 0, style }]
        } else {
            seq![]
        },
        found: seq![],
        read: 0,
        truncated: false,
    }
}

/// What reading one entry of the directory `at` does to a walk.
pub open spec fn reads(s: Progress, limits: Limits, at: Spot, entry: Entry) -> Progress {
    if s.truncated {
        s
    } else if s.read >= limits.max_entries {
        Progress { truncated: true, ..s }
    } else {
        let s = Progress { read: s.read + 1, ..s };
        match entry {
            Entry::Dir { name, probe } => if skips(name@) {
                s
            } else if probe.markers().len() > 0 {
                if s.found.len() >= limits.max_candidates {
                    Progress { truncated: true, ..s }
                } else {
                    Progress {
                        found: s.found.push(
                            Found {
                                rel: child_rel(at.rel, name@),
                                abs: join(at.abs, name@, at.style),
                                markers: probe.markers(),
                                is_worktree: probe.worktree(),
                            },
                        ),
                        ..s
                    }
                }
            } else if at.depth + 1 < limits.max_depth {
                Progress {
                    queue: s.queue.push(
                        Spot {
                            abs: join(at.abs, name@, at.style),
                            rel: child_rel(at.rel, name@),
                            depth: at.depth + 1,
                            style: at.style,
                        },
                    ),
                    ..s
                }
            } else {
                s
            },
            Entry::Other => s,
        }
    }
}

/// What reading a whole listing of the directory `at` does to a walk.
pub open spec fn reads_all(s: Progress, limits: Limits, at: Spot, entries: Seq<Entry>) -> Progress
    decreases entries.len(),
{
    if entries.len() == 0 {
        s
    } else {
        reads(reads_all(s, limits, at, entries.drop_last()), limits, at, entries.last())
    }
}

/// What listing the next directory does to a walk; one that cannot be listed
/// contributes nothing.
pub open spec fn lists(s: Progress, limits: Limits, entries: Option<Seq<Entry>>) -> Progress
    recommends
        s.queue.len() > 0,
{
    let rest = Progress { queue: s.queue.drop_first(), ..s };
    match entries {
        Some(e) => reads_all(rest, limits, s.queue[0], e),
        None => rest,
    }
}

/// A walk under way: it names the directory to list next, and takes its
/// listing.
#[derive(Clone, Debug)]
pub struct Walker {
    pub limits: Limits,
    pub queue: Vec<Place>,
    pub candidates: Vec<Candidate>,
    pub entries_read: usize,
    pub truncated: bool,
}

impl View for Walker {
    type V = Progress;

    open spec fn view(&self) -> Progress {
        Progress {
            queue: spots(self.queue@),
            found: found_views(self.candidates@),
            read: self.entries_read as nat,
            truncated: self.truncated,
        }
    }
}

impl Walker {
    /// Whether the walk keeps to its limits.
    pub open spec fn wf(self) -> bool {
        &&& self.entries_read <= self.limits.max_entries
        &&& self.candidates@.len() <= self.limits.max_candidates
        &&& forall|i: int|
            0 <= i < self.queue@.len() ==> (#[trigger] self.queue@[i]).depth < self.limits.max_depth
    }

    /// Starts a walk at `root`.
    pub fn start(root: &str, limits: Limits, style: PathStyle) -> (r: Walker)
        ensures
            r.wf(),
            r.limits == limits,
            r@ == at_start(root@, limits, style),
    {
        let mut queue: Vec<Place> = Vec::new();
        if limits.max_depth > 0 {
            queue.push(Place { abs_path: root.to_owned(), rel_path: String::new(), depth: 0, style });
        }
        let r = Walker { limits, queue, candidates: Vec::new(), entries_read: 0, truncated: false };
        proof {
            assert(r@.queue =~= at_start(root@, limits, style).queue);
            assert(r@.found =~= seq![]);
        }
        r
    }

    /// The directory to list next; none once the walk is over.
    pub fn next_dir(&self) -> (r: Option<&str>)
        ensures
            opt_view(r) == (if self@.truncated || self@.queue.len() == 0 {
                None
            } else {
                Some(self@.queue[0].abs)
            }),
    {
        if self.truncated || self.queue.len() == 0 {
            None
        } else {
            Some(self.queue[0].abs_path.as_str())
        }
    }

    /// How many entries of the next listing the walk can make use of; one
    /// more tells it that there is more than it may read.
    pub fn appetite(&self) -> (r: usize)
        requires
            self.wf(),
        ensures
            r == self.limits.max_entries - self.entries_read,
    {
        self.limits.max_entries - self.entries_read
    }

    /// Takes in one entry of the directory `at`.
    fn read_entry(&mut self, at: &Place, entry: &Entry)
        requires
            old(self).wf(),
            at.depth < old(self).limits.max_depth,
        ensures
            final(self).wf(),
            final(self).limits == old(self).limits,
            final(self)@ == reads(old(self)@, old(self).limits, at@, *entry),
    {
        if self.truncated {
            return;
        }
        if self.entries_read >= self.limits.max_entries {
            self.truncated = true;
            proof {
                assert(self@ == reads(old(self)@, old(self).limits, at@, *entry));
            }
            return;
        }
        self.entries_read = self.entries_read + 1;
        match entry {
            Entry::Dir { name, probe: marks } => {
                if is_skipped(name.as_str()) {
                    return;
                }
                let child = join_path(at.abs_path.as_str(), name.as_str(), at.style);
                let rel = child_path(at.rel_path.as_str(), name.as_str());
                let (markers, is_worktree) = probe(marks);
                if markers.len() == 0 {
                    if at.depth + 1 < self.limits.max_depth {
                        self.queue.push(
                            Place {
                                abs_path: child,
                                rel_path: rel,
                                depth: at.depth + 1,
                                style: at.style,
                            },
                        );
                    }
                    proof {
                        assert(self@.queue =~= reads(old(self)@, old(self).limits, at@, *entry).queue);
                    }
                    return;
                }
                if self.candidates.len() >= self.limits.max_candidates {
                    self.truncated = true;
                    return;
                }
                self.candidates.push(
                    Candidate { rel_path: rel, abs_path: child, markers, is_worktree },
                );
                proof {
                    assert(self@.found =~= reads(old(self)@, old(self).limits, at@, *entry).found);
                }
            },
            Entry::Other => {},
        }
    }

    /// Takes in the listing of the directory that `next_dir` named; nothing if
    /// it could not be listed.
    pub fn listed(&mut self, entries: Option<&Vec<Entry>>)
        requires
            old(self).wf(),
            old(self).queue@.len() > 0,
        ensures
            final(self).wf(),
            final(self).limits == old(self).limits,
            final(self)@ == lists(
                old(self)@,
                old(self).limits,
                match entries {
                    Some(e) => Some(e@),
                    None => None,
                },
            ),
    {
        let ghost start = self@;
        let limits = self.limits;
        let at = self.queue.remove(0);
        let ghost rest = Progress { queue: start.queue.drop_first(), ..start };
        proof {
            assert(self@.queue =~= rest.queue);
            assert(self@ == rest);
            assert(at@ == start.queue[0]);
        }
        match entries {
            Some(list) => {
                let mut i: usize = 0;
                proof {
                    assert(list@.take(0) =~= seq![]);
                }
                while i < list.len()
                    invariant
                        i <= list.len(),
                        self.wf(),
                        self.limits == limits,
                        at.depth < limits.max_depth,
                        self@ == reads_all(rest, limits, at@, list@.take(i as int)),
                    decreases list.len() - i,
                {
                    self.read_entry(&at, &list[i]);
                    proof {
                        assert(list@.take(i + 1).drop_last() =~= list@.take(i as int));
                        assert(list@.take(i + 1).last() == list@[i as int]);
                    }
                    i += 1;
                }
                proof {
                    assert(list@.take(i as int) =~= list@);
                }
            },
            None => {},
        }
    }

    /// What the walk found, its candidates in the order of their paths.
    pub fn finish(self, elapsed: Duration) -> (r: Walk)
        ensures
            r.is_result_of(self@),
            r.elapsed == elapsed,
    {
        let mut keys: Vec<String> = Vec::new();
        let mut i: usize = 0;
        while i < self.candidates.len()
            invariant
                i <= self.candidates.len(),
                keys@.len() == i,
                forall|j: int| 0 <= j < i ==> (#[trigger] keys@[j])@ == self.candidates@[j].rel_path@,
            decreases self.candidates.len() - i,
        {
            keys.push(self.candidates[i].rel_path.clone());
            i += 1;
        }
        let order = order_of(&keys);
        let mut candidates: Vec<Candidate> = Vec::new();
        let mut k: usize = 0;
        proof {
            assert(views(keys@) =~= rel_paths(found_views(self.candidates@)));
        }
        while k < order.len()
            invariant
                k <= order.len(),
                is_order(rel_paths(found_views(self.candidates@)), order@),
                found_views(candidates@) == Seq::new(
                    k as nat,
                    |j: int| found_views(self.candidates@)[order@[j] as int],
                ),
            decreases order.len() - k,
        {
            let ghost before = found_views(candidates@);
            let c = &self.candidates[order[k]];
            candidates.push(copy_candidate(c));
            proof {
                assert(found_views(candidates@) =~= before.push(c@));
                assert(found_views(candidates@) =~= Seq::new(
                    (k + 1) as nat,
                    |j: int| found_views(self.candidates@)[order@[j] as int],
                ));
            }
            k += 1;
        }
        proof {
            assert(found_views(candidates@) == picked(self@.found, order@));
        }
        Walk { candidates, entries_read: self.entries_read, elapsed, truncated: self.truncated }
    }
}

/// The paths of what was found, relative to the root.
pub open spec fn rel_paths(found: Seq<Found>) -> Seq<Seq<char>> {
    Seq::new(found.len(), |i: int| found[i].rel)
}

impl Walk {
    /// Whether this reports a walk that came as far as `s`: all that was found,
    /// in the order of the relative paths.
    pub open spec fn is_result_of(self, s: Progress) -> bool {
        &&& exists|p: Seq<usize>| #[trigger]
            is_order(rel_paths(s.found), p) && found_views(self.candidates@) == picked(s.found, p)
        &&& self.entries_read == s.read
        &&& self.truncated == s.truncated
    }
}

fn child_path(rel: &str, name: &str) -> (r: String)
    ensures
        r@ == child_rel(rel@, name@),
{
    if rel.is_empty() {
        name.to_owned()
    } else {
        let mut r: String = rel.to_owned();
        r.append("/");
        r.append(name);
        r
    }
}

fn copy_candidate(c: &Candidate) -> (r: Candidate)
    ensures
        r@ == c@,
{
    let mut markers: Vec<Marker> = Vec::new();
    let mut i: usize = 0;
    while i < c.markers.len()
        invariant
            i <= c.markers.len(),
            markers@ == c.markers@.take(i as int),
        decreases c.markers.len() - i,
    {
        markers.push(c.markers[i]);
        proof {
            assert(c.markers@.take(i + 1) =~= c.markers@.take(i as int).push(c.markers@[i as int]));
        }
        i += 1;
    }
    proof {
        assert(c.markers@.take(i as int) =~= c.markers@);
    }
    Candidate {
        rel_path: c.rel_path.clone(),
        abs_path: c.abs_path.clone(),
        markers,
        is_worktree: c.is_worktree,
    }
}

// ---------------------------------------------------------------------------
// A whole walk
// ---------------------------------------------------------------------------
/// A directory with its listing.
#[derive(Clone, Debug)]
pub struct Directory {
    pub path: String,
    pub entries: Vec<Entry>,
}

/// The directories that can be listed, and the markers of the root.
#[derive(Clone, Debug)]
pub struct Tree {
    pub root: String,
    /// How the paths are spelt.
    pub style: PathStyle,
    pub root_probe: Probe,
    pub dirs: Vec<Directory>,
}

/// The listing of the first of `dirs` with this path.
pub open spec fn listing_in(dirs: Seq<Directory>, path: Seq<char>) -> Option<Seq<Entry>>
    decreases dirs.len(),
{
    if dirs.len() == 0 {
        None
    } else if dirs[0].path@ == path {
        Some(dirs[0].entries@)
    } else {
        listing_in(dirs.drop_first(), path)
    }
}

impl Tree {
    /// The listing of a directory; none if it cannot be listed.
    pub open spec fn listing(self, path: Seq<char>) -> Option<Seq<Entry>> {
        listing_in(self.dirs@, path)
    }

    fn list(&self, path: &str) -> (r: Option<&Vec<Entry>>)
        ensures
            self.listing(path@) == (match r {
                Some(e) => Some(e@),
                None => None,
            }),
    {
        let mut i: usize = 0;
        proof {
            assert(self.dirs@.skip(0) =~= self.dirs@);
        }
        while i < self.dirs.len()
            invariant
                i <= self.dirs.len(),
                self.listing(path@) == listing_in(self.dirs@.skip(i as int), path@),
            decreases self.dirs.len() - i,
        {
            proof {
                assert(self.dirs@.skip(i as int)[0] == self.dirs@[i as int]);
                assert(self.dirs@.skip(i as int).drop_first() =~= self.dirs@.skip(i + 1));
            }
            if same(self.dirs[i].path.as_str(), path) {
                return Some(&self.dirs[i].entries);
            }
            i += 1;
        }
        None
    }
}

/// How much a walk can still do.
pub open spec fn effort(s: Progress, limits: Limits) -> nat {
    if s.read <= limits.max_entries {
        (2 * (limits.max_entries - s.read) + s.queue.len()) as nat
    } else {
        0
    }
}

/// How far a walk comes that lists one directory of `tree` after the other.
pub open spec fn run(tree: Tree, limits: Limits, s: Progress) -> Progress
    decreases effort(s, limits),
    via run_decreases
{
    if s.truncated || s.queue.len() == 0 || s.read > limits.max_entries {
        s
    } else {
        run(tree, limits, lists(s, limits, tree.listing(s.queue[0].abs)))
    }
}

#[via_fn]
proof fn run_decreases(tree: Tree, limits: Limits, s: Progress) {
    if s.queue.len() > 0 && s.read <= limits.max_entries {
        lemma_effort(limits, s, tree.listing(s.queue[0].abs));
    }
}

proof fn lemma_reads_effort(s: Progress, limits: Limits, at: Spot, entries: Seq<Entry>)
    requires
        s.read <= limits.max_entries,
    ensures
        reads_all(s, limits, at, entries).read <= limits.max_entries,
        effort(reads_all(s, limits, at, entries), limits) <= effort(s, limits),
    decreases entries.len(),
{
    if entries.len() > 0 {
        lemma_reads_effort(s, limits, at, entries.drop_last());
    }
}

/// Listing a directory leaves a walk with less to do.
pub proof fn lemma_effort(limits: Limits, s: Progress, entries: Option<Seq<Entry>>)
    requires
        s.queue.len() > 0,
        s.read <= limits.max_entries,
    ensures
        lists(s, limits, entries).read <= limits.max_entries,
        effort(lists(s, limits, entries), limits) < effort(s, limits),
{
    let rest = Progress { queue: s.queue.drop_first(), ..s };
    match entries {
        Some(e) => {
            lemma_reads_effort(rest, limits, s.queue[0], e);
        },
        None => {},
    }
}

/// The bounded walk over a tree that has been read.
pub fn walk(tree: &Tree, limits: Limits, elapsed: Duration) -> (r: Walk)
    ensures
        r.is_result_of(run(*tree, limits, at_start(tree.root@, limits, tree.style))),
        r.elapsed == elapsed,
{
    let mut walker = Walker::start(tree.root.as_str(), limits, tree.style);
    let ghost goal = run(*tree, limits, at_start(tree.root@, limits, tree.style));
    while !walker.truncated && walker.queue.len() > 0
        invariant
            walker.wf(),
            walker.limits == limits,
            run(*tree, limits, walker@) == goal,
        decreases effort(walker@, limits),
    {
        let path: String = walker.queue[0].abs_path.clone();
        let entries = tree.list(path.as_str());
        proof {
            assert(walker@.queue[0].abs == path@);
            lemma_effort(limits, walker@, tree.listing(path@));
        }
        walker.listed(entries);
    }
    walker.finish(elapsed)
}

/// The directory `name` of the directory `at`, as a place to list.
pub open spec fn child_spot(at: Spot, name: Seq<char>) -> Spot {
    Spot { abs: join(at.abs, name, at.style), rel: child_rel(at.rel, name), depth: at.depth + 1, style: at.style }
}

/// Whether an entry is a directory that is looked into: its name is not
/// skipped, it carries no marker, and it lies above the deepest level.
pub open spec fn is_entered(limits: Limits, at: Spot, entry: Entry) -> bool {
    match entry {
        Entry::Dir { name, probe } => !skips(name@) && probe.markers().len() == 0 && at.depth + 1
            < limits.max_depth,
        Entry::Other => false,
    }
}

/// Whether an entry is a candidate: a directory with a marker whose name is
/// not skipped.
pub open spec fn is_marked(entry: Entry) -> bool {
    match entry {
        Entry::Dir { name, probe } => !skips(name@) && probe.markers().len() > 0,
        Entry::Other => false,
    }
}

/// What a marked directory of the directory `at` is reported as.
pub open spec fn reported(at: Spot, entry: Entry) -> Found {
    Found {
        rel: child_rel(at.rel, entry->name@),
        abs: join(at.abs, entry->name@, at.style),
        markers: entry->probe.markers(),
        is_worktree: entry->probe.worktree(),
    }
}

/// Whether `at` is listed when nothing stops the walk: the root, or a
/// directory that is entered from one that is listed, `steps` down.
pub open spec fn is_listed(tree: Tree, limits: Limits, at: Spot, steps: nat) -> bool
    decreases steps,
{
    if steps == 0 {
        limits.max_depth > 0 && at == Spot { abs: tree.root@, rel: seq![], depth: 0, style: tree.style }
    } else {
        exists|from: Spot, i: int|
            is_listed(tree, limits, from, (steps - 1) as nat) && has_entry(tree, from, i)
                && #[trigger] is_entered(limits, from, tree.listing(from.abs)->0[i]) && at
                == child_spot(from, tree.listing(from.abs)->0[i]->name@)
    }
}

/// Whether the directory `at` can be listed and has an entry `i`.
pub open spec fn has_entry(tree: Tree, at: Spot, i: int) -> bool {
    tree.listing(at.abs) is Some && 0 <= i < tree.listing(at.abs)->0.len()
}

/// Whether `f` reports a marked directory within the limits of depth: one in a
/// directory that is listed when nothing stops the walk.
pub open spec fn is_candidate(tree: Tree, limits: Limits, f: Found) -> bool {
    exists|at: Spot, steps: nat, i: int|
        #[trigger] is_listed(tree, limits, at, steps) && has_entry(tree, at, i) && #[trigger] is_marked(
            tree.listing(at.abs)->0[i],
        ) && f == reported(at, tree.listing(at.abs)->0[i])
}

/// Whether `at` is listed when nothing stops the walk.
pub open spec fn is_reached(tree: Tree, limits: Limits, at: Spot) -> bool {
    exists|steps: nat| #[trigger] is_listed(tree, limits, at, steps)
}

/// Whether all that `s` holds belongs there.
spec fn is_sound(tree: Tree, limits: Limits, s: Progress) -> bool {
    &&& s.read <= limits.max_entries
    &&& s.found.len() <= limits.max_candidates
    &&& s.truncated ==> s.read == limits.max_entries || s.found.len() == limits.max_candidates
    &&& forall|k: int|
        0 <= k < s.queue.len() ==> is_reached(tree, limits, #[trigger] s.queue[k])
    &&& forall|k: int| 0 <= k < s.found.len() ==> is_candidate(tree, limits, #[trigger] s.found[k])
}

proof fn lemma_reads_sound(tree: Tree, limits: Limits, s: Progress, at: Spot, steps: nat, n: int)
    requires
        is_sound(tree, limits, s),
        is_listed(tree, limits, at, steps),
        tree.listing(at.abs) is Some,
        0 <= n <= tree.listing(at.abs)->0.len(),
    ensures
        is_sound(tree, limits, reads_all(s, limits, at, tree.listing(at.abs)->0.take(n))),
    decreases n,
{
    let all = tree.listing(at.abs)->0;
    if n > 0 {
        lemma_reads_sound(tree, limits, s, at, steps, n - 1);
        assert(all.take(n).drop_last() =~= all.take(n - 1));
        let before = reads_all(s, limits, at, all.take(n - 1));
        let entry = all.take(n).last();
        assert(entry == all[n - 1]);
        let after = reads(before, limits, at, entry);
        assert(has_entry(tree, at, n - 1));
        assert forall|k: int| 0 <= k < after.queue.len() implies is_reached(
            tree,
            limits,
            #[trigger] after.queue[k],
        ) by {
            if k < before.queue.len() {
                assert(after.queue[k] == before.queue[k]);
            } else {
                assert(is_entered(limits, at, all[n - 1]));
                assert(after.queue[k] == child_spot(at, all[n - 1]->name@));
                assert(is_listed(tree, limits, at, (steps + 1 - 1) as nat));
                assert(is_listed(tree, limits, after.queue[k], steps + 1));
            }
        }
        assert forall|k: int| 0 <= k < after.found.len() implies is_candidate(
            tree,
            limits,
            #[trigger] after.found[k],
        ) by {
            if k < before.found.len() {
                assert(after.found[k] == before.found[k]);
            } else {
                assert(is_marked(all[n - 1]));
                assert(after.found[k] == reported(at, all[n - 1]));
            }
        }
    } else {
        assert(all.take(0) =~= seq![]);
    }
}

proof fn lemma_run_sound(tree: Tree, limits: Limits, s: Progress)
    requires
        is_sound(tree, limits, s),
    ensures
        is_sound(tree, limits, run(tree, limits, s)),
    decreases effort(s, limits),
{
    if !s.truncated && s.queue.len() > 0 {
        let at = s.queue[0];
        let entries = tree.listing(at.abs);
        let rest = Progress { queue: s.queue.drop_first(), ..s };
        assert forall|k: int| 0 <= k < rest.queue.len() implies is_reached(
            tree,
            limits,
            #[trigger] rest.queue[k],
        ) by {
            assert(rest.queue[k] == s.queue[k + 1]);
        }
        assert(is_sound(tree, limits, rest));
        assert(is_reached(tree, limits, s.queue[0]));
        let steps = choose|m: nat| is_listed(tree, limits, s.queue[0], m);
        if entries is Some {
            lemma_reads_sound(tree, limits, rest, at, steps, entries->0.len() as int);
            assert(entries->0.take(entries->0.len() as int) =~= entries->0);
        }
        lemma_effort(limits, s, entries);
        lemma_run_sound(tree, limits, lists(s, limits, entries));
    }
}

/// Whether what lies directly in the directory `at` has been taken care of:
/// each marked directory is reported, each one to enter is waiting or done.
spec fn is_covered(tree: Tree, limits: Limits, s: Progress, done: Seq<Spot>, at: Spot) -> bool {
    forall|i: int|
        #[trigger] has_entry(tree, at, i) ==> {
            let entry = tree.listing(at.abs)->0[i];
            &&& is_marked(entry) ==> s.found.contains(reported(at, entry))
            &&& is_entered(limits, at, entry) ==> s.queue.contains(child_spot(at, entry->name@))
                || done.contains(child_spot(at, entry->name@))
        }
}

proof fn lemma_reads_complete(limits: Limits, s: Progress, at: Spot, entries: Seq<Entry>)
    requires
        !reads_all(s, limits, at, entries).truncated,
    ensures
        ({
            let r = reads_all(s, limits, at, entries);
            &&& !s.truncated
            &&& forall|f: Found| s.found.contains(f) ==> #[trigger] r.found.contains(f)
            &&& forall|q: Spot| s.queue.contains(q) ==> #[trigger] r.queue.contains(q)
            &&& forall|i: int|
                #![trigger entries[i]]
                0 <= i < entries.len() ==> {
                    &&& is_marked(entries[i]) ==> r.found.contains(reported(at, entries[i]))
                    &&& is_entered(limits, at, entries[i]) ==> r.queue.contains(
                        child_spot(at, entries[i]->name@),
                    )
                }
        }),
    decreases entries.len(),
{
    let r = reads_all(s, limits, at, entries);
    if entries.len() > 0 {
        let front = entries.drop_last();
        let b = reads_all(s, limits, at, front);
        lemma_reads_complete(limits, s, at, front);
        assert forall|f: Found| b.found.contains(f) implies #[trigger] r.found.contains(f) by {
            let k = choose|k: int| 0 <= k < b.found.len() && b.found[k] == f;
            assert(r.found[k] == f);
        }
        assert forall|q: Spot| b.queue.contains(q) implies #[trigger] r.queue.contains(q) by {
            let k = choose|k: int| 0 <= k < b.queue.len() && b.queue[k] == q;
            assert(r.queue[k] == q);
        }
        assert forall|i: int|
            #![trigger entries[i]]
            0 <= i < entries.len() implies {
            &&& is_marked(entries[i]) ==> r.found.contains(reported(at, entries[i]))
            &&& is_entered(limits, at, entries[i]) ==> r.queue.contains(
                child_spot(at, entries[i]->name@),
            )
        } by {
            if i < front.len() {
                assert(front[i] == entries[i]);
                if is_marked(entries[i]) {
                    assert(b.found.contains(reported(at, entries[i])));
                    assert(r.found.contains(reported(at, entries[i])));
                }
                if is_entered(limits, at, entries[i]) {
                    assert(b.queue.contains(child_spot(at, entries[i]->name@)));
                    assert(r.queue.contains(child_spot(at, entries[i]->name@)));
                }
            } else {
                if is_marked(entries[i]) {
                    assert(r.found[r.found.len() - 1] == reported(at, entries[i]));
                }
                if is_entered(limits, at, entries[i]) {
                    assert(r.queue[r.queue.len() - 1] == child_spot(at, entries[i]->name@));
                }
            }
        }
    }
}

proof fn lemma_all_listed_done(tree: Tree, limits: Limits, s: Progress, done: Seq<Spot>, at: Spot, steps: nat)
    requires
        s.queue.len() == 0,
        limits.max_depth > 0 ==> done.contains(Spot { abs: tree.root@, rel: seq![], depth: 0, style: tree.style }),
        forall|d: Spot| #[trigger] done.contains(d) ==> is_covered(tree, limits, s, done, d),
        is_listed(tree, limits, at, steps),
    ensures
        done.contains(at),
    decreases steps,
{
    if steps > 0 {
        let (from, i) = choose|from: Spot, i: int|
            is_listed(tree, limits, from, (steps - 1) as nat) && has_entry(tree, from, i)
                && #[trigger] is_entered(limits, from, tree.listing(from.abs)->0[i]) && at
                == child_spot(from, tree.listing(from.abs)->0[i]->name@);
        lemma_all_listed_done(tree, limits, s, done, from, (steps - 1) as nat);
        assert(is_covered(tree, limits, s, done, from));
        assert(has_entry(tree, from, i));
    }
}

proof fn lemma_run_complete(tree: Tree, limits: Limits, s: Progress, done: Seq<Spot>, f: Found)
    requires
        s.read <= limits.max_entries,
        limits.max_depth > 0 ==> done.contains(Spot { abs: tree.root@, rel: seq![], depth: 0, style: tree.style })
            || s.queue.contains(Spot { abs: tree.root@, rel: seq![], depth: 0, style: tree.style }),
        forall|d: Spot| #[trigger] done.contains(d) ==> is_covered(tree, limits, s, done, d),
        !run(tree, limits, s).truncated,
        is_candidate(tree, limits, f),
    ensures
        run(tree, limits, s).found.contains(f),
    decreases effort(s, limits),
{
    if s.queue.len() == 0 || s.truncated {
        let (at, steps, i) = choose|at: Spot, steps: nat, i: int|
            #[trigger] is_listed(tree, limits, at, steps) && has_entry(tree, at, i)
                && #[trigger] is_marked(tree.listing(at.abs)->0[i]) && f == reported(
                at,
                tree.listing(at.abs)->0[i],
            );
        lemma_all_listed_done(tree, limits, s, done, at, steps);
        assert(is_covered(tree, limits, s, done, at));
        assert(has_entry(tree, at, i));
    } else {
        let at = s.queue[0];
        let entries = tree.listing(at.abs);
        let rest = Progress { queue: s.queue.drop_first(), ..s };
        let next = lists(s, limits, entries);
        let done2 = done.push(at);
        lemma_effort(limits, s, entries);
        if next.truncated {
            assert(run(tree, limits, next) == next);
        }
        assert(!next.truncated);
        if entries is Some {
            lemma_reads_complete(limits, rest, at, entries->0);
        }
        assert forall|q: Spot| s.queue.contains(q) implies next.queue.contains(q) || done2.contains(q) by {
            let k = choose|k: int| 0 <= k < s.queue.len() && s.queue[k] == q;
            if k == 0 {
                assert(done2[done.len() as int] == q);
            } else {
                assert(rest.queue[k - 1] == q);
                assert(rest.queue.contains(q));
            }
        }
        assert forall|q: Spot| done.contains(q) implies done2.contains(q) by {
            let k = choose|k: int| 0 <= k < done.len() && done[k] == q;
            assert(done2[k] == q);
        }
        assert forall|d: Spot| #[trigger] done2.contains(d) implies is_covered(
            tree,
            limits,
            next,
            done2,
            d,
        ) by {
            assert forall|i: int| #[trigger] has_entry(tree, d, i) implies ({
                let entry = tree.listing(d.abs)->0[i];
                &&& is_marked(entry) ==> next.found.contains(reported(d, entry))
                &&& is_entered(limits, d, entry) ==> next.queue.contains(child_spot(d, entry->name@))
                    || done2.contains(child_spot(d, entry->name@))
            }) by {
                let entry = tree.listing(d.abs)->0[i];
                if d == at {
                    assert(entries->0[i] == entry);
                } else {
                    let k = choose|k: int| 0 <= k < done2.len() && done2[k] == d;
                    assert(done[k] == d);
                    assert(done.contains(d));
                    assert(is_covered(tree, limits, s, done, d));
                    assert(has_entry(tree, d, i));
                    if is_marked(entry) {
                        assert(rest.found.contains(reported(d, entry)));
                    }
                }
            }
        }
        lemma_run_complete(tree, limits, next, done2, f);
    }
}

/// A walk keeps to its limits and reports nothing but candidates; unless a
/// limit stopped it, it reports every one.
pub proof fn a_walk_finds_the_candidates(tree: Tree, limits: Limits)
    ensures
        ({
            let end = run(tree, limits, at_start(tree.root@, limits, tree.style));
            &&& end.read <= limits.max_entries
            &&& end.found.len() <= limits.max_candidates
            &&& end.truncated ==> end.read == limits.max_entries || end.found.len() == limits.max_candidates
            &&& forall|f: Found| #[trigger] end.found.contains(f) ==> is_candidate(tree, limits, f)
            &&& !end.truncated ==> forall|f: Found| #[trigger]
                is_candidate(tree, limits, f) ==> end.found.contains(f)
        }),
{
    let start = at_start(tree.root@, limits, tree.style);
    let end = run(tree, limits, start);
    let root = Spot { abs: tree.root@, rel: seq![], depth: 0, style: tree.style };
    assert forall|k: int| 0 <= k < start.queue.len() implies is_reached(
            tree,
            limits,
            #[trigger] start.queue[k],
        ) by {
        assert(is_listed(tree, limits, start.queue[k], 0));
    }
    lemma_run_sound(tree, limits, start);
    assert forall|f: Found| #[trigger] end.found.contains(f) implies is_candidate(tree, limits, f) by {
        let k = choose|k: int| 0 <= k < end.found.len() && end.found[k] == f;
        assert(is_candidate(tree, limits, end.found[k]));
    }
    if !end.truncated {
        assert forall|f: Found| #[trigger] is_candidate(tree, limits, f) implies end.found.contains(f) by {
            if limits.max_depth > 0 {
                assert(start.queue[0] == root);
            }
            lemma_run_complete(tree, limits, start, seq![], f);
        }
    }
}

// ---------------------------------------------------------------------------
// The decision
// ---------------------------------------------------------------------------
/// Whether an index says it is complete: its file is there, and the record of
/// a finished walk can be read out of it and is set.
pub fn completed_index_in(file_present: bool, recorded: Option<bool>) -> (r: bool)
    ensures
        r == (file_present && recorded == Some(true)),
{
    match recorded {
        Some(set) => file_present && set,
        None => false,
    }
}

/// Whether a project has a complete index; one whose state directory is not
/// known has none.
pub fn has_completed_index(index: Option<bool>) -> (r: bool)
    ensures
        r == (index == Some(true)),
{
    match index {
        Some(completed) => completed,
        None => false,
    }
}

/// What settles the mode without a walk: a marker at the root, or else a
/// complete index.
pub open spec fn settled(root: Probe, index: Option<bool>) -> Option<SingleReason> {
    if root.markers().len() > 0 {
        Some(SingleReason::RootMarker)
    } else if index == Some(true) {
        Some(SingleReason::CompletedIndex)
    } else {
        None
    }
}

/// What settles the mode without a walk.
pub fn settle(root: &Probe, index: Option<bool>) -> (r: Option<SingleReason>)
    ensures
        r == settled(*root, index),
{
    if markers_of(root).len() > 0 {
        Some(SingleReason::RootMarker)
    } else if has_completed_index(index) {
        Some(SingleReason::CompletedIndex)
    } else {
        None
    }
}

/// The mode of a root below which a walk found this many candidates.
pub open spec fn mode_for(candidates: nat) -> Mode {
    if candidates < MULTI_THRESHOLD {
        Mode::Single(SingleReason::FewCandidates)
    } else {
        Mode::Multi
    }
}

/// The decision where no walk was needed.
pub fn without_walk(reason: SingleReason, elapsed: Duration) -> (r: Detection)
    ensures
        r.mode == Mode::Single(reason),
        r.candidates@.len() == 0,
        r.entries_read == 0,
        r.elapsed == elapsed,
        !r.truncated,
        !r.walked,
{
    Detection {
        mode: Mode::Single(reason),
        candidates: Vec::new(),
        entries_read: 0,
        elapsed,
        truncated: false,
        walked: false,
    }
}

/// The decision after a walk.
pub fn after_walk(found: Walk, elapsed: Duration) -> (r: Detection)
    ensures
        r.mode == mode_for(found.candidates@.len()),
        r.candidates == found.candidates,
        r.entries_read == found.entries_read,
        r.elapsed == elapsed,
        r.truncated == found.truncated,
        r.walked,
{
    let mode = if found.candidates.len() < MULTI_THRESHOLD {
        Mode::Single(SingleReason::FewCandidates)
    } else {
        Mode::Multi
    };
    Detection {
        mode,
        candidates: found.candidates,
        entries_read: found.entries_read,
        elapsed,
        truncated: found.truncated,
        walked: true,
    }
}

impl Detection {
    /// Whether this is the decision on `tree`, given what its index says.
    pub open spec fn decides(self, tree: Tree, index: Option<bool>, limits: Limits) -> bool {
        match settled(tree.root_probe, index) {
            Some(reason) => {
                &&& self.mode == Mode::Single(reason)
                &&& self.candidates@.len() == 0
                &&& self.entries_read == 0
                &&& !self.truncated
                &&& !self.walked
            },
            None => {
                let end = run(tree, limits, at_start(tree.root@, limits, tree.style));
                &&& self.mode == mode_for(end.found.len())
                &&& exists|p: Seq<usize>| #[trigger]
                    is_order(rel_paths(end.found), p) && found_views(self.candidates@) == picked(
                        end.found,
                        p,
                    )
                &&& self.entries_read == end.read
                &&& self.truncated == end.truncated
                &&& self.walked
            },
        }
    }
}

/// Decides the mode of `tree`'s root. `index` says whether its index is
/// complete, where its state directory is known.
pub fn decide(tree: &Tree, index: Option<bool>, limits: Limits, elapsed: Duration) -> (r: Detection)
    ensures
        r.decides(*tree, index, limits),
        r.elapsed == elapsed,
{
    match settle(&tree.root_probe, index) {
        Some(reason) => without_walk(reason, elapsed),
        None => {
            let found = walk(tree, limits, elapsed);
            proof {
                let end = run(*tree, limits, at_start(tree.root@, limits, tree.style));
                assert(found_views(found.candidates@).len() == end.found.len());
            }
            after_walk(found, elapsed)
        },
    }
}

/// Decides the mode of `tree`'s root; `index` is unknown where its state
/// directory cannot be resolved.
pub fn detect(tree: &Tree, index: Option<bool>, limits: Limits, elapsed: Duration) -> (r: Detection)
    ensures
        r.decides(*tree, index, limits),
        r.elapsed == elapsed,
{
    match index {
        Some(completed) => detect_in(tree, completed, limits, elapsed),
        None => decide(tree, None, limits, elapsed),
    }
}

/// Decides the mode of `tree`'s root, whose state directory is known.
pub fn detect_in(tree: &Tree, completed_index: bool, limits: Limits, elapsed: Duration) -> (r: Detection)
    ensures
        r.decides(*tree, Some(completed_index), limits),
        r.elapsed == elapsed,
{
    decide(tree, Some(completed_index), limits, elapsed)
}

} // verus!
