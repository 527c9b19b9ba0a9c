//! What holds of detecting the projects below a root: what marks a directory,
//! which directories are reported, and how that decides the mode.

use vstd::prelude::*;
use vstd::string::*;

use crate::candidates::{
    Candidate, Detection, Directory, Entry, Found, Limits, Marker, Mode, Probe, Progress, SingleReason, Spot,
    Tree, Walk, a_walk_finds_the_candidates, at_start, child_rel, child_spot, effort, found_views, has_entry,
    is_candidate, is_entered, is_listed, is_marked, lemma_effort, listing_in, lists, only_if, reads,
    reads_all, rel_paths, reported, run, skips,
};
use crate::order::{is_order, picked, precedes};
use crate::path::{PathStyle, join};
use crate::path_laws::is_plain;
use crate::record_laws::what_is_put_in_order_ascends;
use crate::text::{joined_with, lemma_split_around, lemma_split_whole, split};
use crate::walk_laws::{is_listing, is_tree, lemma_listing};

verus! {

/// Whether a directory has a file or directory that marks it as a project.
pub open spec fn has_marker(p: Probe) -> bool {
    p.git is Some || p.cargo || p.package || p.go_mod || p.pyproject
}

/// Where a marker stands among the markers.
pub open spec fn rank(m: Marker) -> int {
    match m {
        Marker::Git => 0,
        Marker::Cargo => 1,
        Marker::Package => 2,
        Marker::GoMod => 3,
        Marker::PyProject => 4,
    }
}

/// Whether markers stand in their fixed order, all of them before `end`.
spec fn are_ranked(ms: Seq<Marker>, end: int) -> bool {
    &&& forall|i: int| 0 <= i < ms.len() ==> rank(#[trigger] ms[i]) < end
    &&& forall|i: int, j: int|
        0 <= i < j < ms.len() ==> rank(#[trigger] ms[i]) < rank(#[trigger] ms[j])
}

proof fn lemma_one_more(ms: Seq<Marker>, there: bool, marker: Marker)
    requires
        are_ranked(ms, rank(marker)),
    ensures
        are_ranked(ms + only_if(there, marker), rank(marker) + 1),
        forall|m: Marker| #[trigger]
            (ms + only_if(there, marker)).contains(m) <==> ms.contains(m) || (there && m == marker),
{
    let all = ms + only_if(there, marker);
    if there {
        assert(all =~= ms.push(marker));
        assert forall|m: Marker| #[trigger] all.contains(m) <==> ms.contains(m) || m == marker by {
            vstd::seq_lib::lemma_seq_contains_after_push(ms, marker, m);
        }
        assert forall|i: int, j: int| 0 <= i < j < all.len() implies rank(#[trigger] all[i]) < rank(
            #[trigger] all[j],
        ) by {
            assert(all[i] == ms[i]);
            if j < ms.len() {
                assert(all[j] == ms[j]);
            }
        }
        assert forall|i: int| 0 <= i < all.len() implies rank(#[trigger] all[i]) < rank(marker) + 1 by {
            if i < ms.len() {
                assert(all[i] == ms[i]);
            }
        }
    } else {
        assert(all =~= ms);
    }
}

/// A directory carries exactly the markers that are there, each once and in one
/// fixed order, and it is a worktree exactly where its `.git` is a file.
pub proof fn a_directory_carries_the_markers_that_are_there(p: Probe)
    ensures
        p.markers().contains(Marker::Git) <==> p.git is Some,
        p.markers().contains(Marker::Cargo) <==> p.cargo,
        p.markers().contains(Marker::Package) <==> p.package,
        p.markers().contains(Marker::GoMod) <==> p.go_mod,
        p.markers().contains(Marker::PyProject) <==> p.pyproject,
        forall|i: int, j: int|
            0 <= i < j < p.markers().len() ==> rank(#[trigger] p.markers()[i]) < rank(
                #[trigger] p.markers()[j],
            ),
        p.markers().len() > 0 <==> has_marker(p),
        p.worktree() <==> p.git is Some && p.git->0,
        p.worktree() ==> p.markers().contains(Marker::Git),
{
    let none = Seq::<Marker>::empty();
    let git = only_if(p.git is Some, Marker::Git);
    let cargo = git + only_if(p.cargo, Marker::Cargo);
    let package = cargo + only_if(p.package, Marker::Package);
    let go_mod = package + only_if(p.go_mod, Marker::GoMod);
    let all = go_mod + only_if(p.pyproject, Marker::PyProject);
    lemma_one_more(none, p.git is Some, Marker::Git);
    assert(none + git =~= git);
    lemma_one_more(git, p.cargo, Marker::Cargo);
    lemma_one_more(cargo, p.package, Marker::Package);
    lemma_one_more(package, p.go_mod, Marker::GoMod);
    lemma_one_more(go_mod, p.pyproject, Marker::PyProject);
    assert(all == p.markers());
    if all.len() > 0 {
        assert(all.contains(all[0]));
    }
}

/// The names of directories that are never looked into: those of other
/// people's code and of what is built.
pub open spec fn passed_by() -> Seq<Seq<char>> {
    seq![
        "node_modules"@,
        "target"@,
        "dist"@,
        "build"@,
        "out"@,
        "vendor"@,
        "venv"@,
        "__pycache__"@,
    ]
}

/// Whether a directory of this name is looked into.
pub open spec fn is_looked_into(name: Seq<char>) -> bool {
    &&& name.len() > 0 ==> name[0] != '.'
    &&& !passed_by().contains(name)
}

proof fn lemma_looked_into(name: Seq<char>)
    ensures
        skips(name) <==> !is_looked_into(name),
{
    let by = passed_by();
    assert(by[0] == "node_modules"@ && by[1] == "target"@ && by[2] == "dist"@ && by[3] == "build"@);
    assert(by[4] == "out"@ && by[5] == "vendor"@ && by[6] == "venv"@ && by[7] == "__pycache__"@);
    if by.contains(name) {
        let i = choose|i: int| 0 <= i < by.len() && by[i] == name;
    }
}

/// The directory that a way through these entries leads to, from the root.
pub open spec fn dir_at(tree: Tree, way: Seq<Entry>) -> Seq<char>
    decreases way.len(),
{
    if way.len() == 0 {
        tree.root@
    } else {
        join(dir_at(tree, way.drop_last()), way.last()->name@, tree.style)
    }
}

/// The names of the entries on a way.
pub open spec fn names_on(way: Seq<Entry>) -> Seq<Seq<char>> {
    Seq::new(way.len(), |i: int| way[i]->name@)
}

/// Whether each entry is a directory that the one before it lists, and that is
/// looked into.
pub open spec fn leads_on(tree: Tree, way: Seq<Entry>) -> bool
    decreases way.len(),
{
    way.len() == 0 || {
        &&& leads_on(tree, way.drop_last())
        &&& tree.listing(dir_at(tree, way.drop_last())) is Some
        &&& tree.listing(dir_at(tree, way.drop_last()))->0.contains(way.last())
        &&& way.last() is Dir
        &&& is_looked_into(way.last()->name@)
    }
}

/// Whether a way leads to a project: nothing on it is one before its end, and
/// it is no deeper than the limit.
pub open spec fn leads_to_project(tree: Tree, limits: Limits, way: Seq<Entry>) -> bool {
    &&& 0 < way.len() <= limits.max_depth
    &&& leads_on(tree, way)
    &&& forall|i: int| 0 <= i < way.len() - 1 ==> !has_marker((#[trigger] way[i])->probe)
    &&& has_marker(way.last()->probe)
}

/// Whether this is what is reported of the project that a way leads to.
pub open spec fn is_report_of(f: Found, tree: Tree, way: Seq<Entry>) -> bool {
    let p = way.last()->probe;
    &&& f.rel == joined_with(names_on(way), "/"@)
    &&& f.abs == dir_at(tree, way)
    &&& f.markers == p.markers()
    &&& f.is_worktree <==> p.git is Some && p.git->0
}

proof fn lemma_rel(way: Seq<Entry>, name: Seq<char>, entry: Entry)
    requires
        entry is Dir,
        entry->name@ == name,
        way.len() > 0 ==> way.last()->name@.len() > 0,
    ensures
        child_rel(joined_with(names_on(way), "/"@), name) == joined_with(names_on(way.push(entry)), "/"@),
{
    let ns = names_on(way);
    let all = names_on(way.push(entry));
    assert(all =~= ns.push(name));
    assert(all.drop_last() =~= ns);
    if way.len() > 0 {
        assert(ns.last() == way.last()->name@);
        if ns.len() == 1 {
            assert(ns[0] == ns.last());
        } else {
            assert(joined_with(ns, "/"@).len() >= ns.last().len());
        }
    }
}

/// Where a way that was walked has come to.
spec fn has_come(tree: Tree, limits: Limits, at: Spot, way: Seq<Entry>) -> bool {
    &&& leads_on(tree, way)
    &&& forall|i: int| 0 <= i < way.len() ==> !has_marker((#[trigger] way[i])->probe)
    &&& way.len() == at.depth
    &&& at.depth < limits.max_depth
    &&& at.rel == joined_with(names_on(way), "/"@)
    &&& at.abs == dir_at(tree, way)
    &&& at.style == tree.style
    &&& way.len() > 0 ==> way.last()->name@.len() > 0
}

proof fn lemma_step(tree: Tree, limits: Limits, at: Spot, way: Seq<Entry>, i: int)
    requires
        is_tree(tree),
        has_come(tree, limits, at, way),
        has_entry(tree, at, i),
        tree.listing(at.abs)->0[i] is Dir,
        !skips(tree.listing(at.abs)->0[i]->name@),
    ensures
        ({
            let entry = tree.listing(at.abs)->0[i];
            let on = way.push(entry);
            &&& leads_on(tree, on)
            &&& child_rel(at.rel, entry->name@) == joined_with(names_on(on), "/"@)
            &&& join(at.abs, entry->name@, at.style) == dir_at(tree, on)
            &&& entry->name@.len() > 0
        }),
{
    let entries = tree.listing(at.abs)->0;
    let entry = entries[i];
    let on = way.push(entry);
    lemma_listing(tree.dirs@, at.abs, tree.style);
    assert(on.drop_last() =~= way);
    assert(on.last() == entry);
    assert(entries.contains(entry));
    lemma_looked_into(entry->name@);
    lemma_rel(way, entry->name@, entry);
}

proof fn lemma_come(tree: Tree, limits: Limits, at: Spot, steps: nat) -> (way: Seq<Entry>)
    requires
        is_tree(tree),
        is_listed(tree, limits, at, steps),
    ensures
        has_come(tree, limits, at, way),
    decreases steps,
{
    if steps == 0 {
        let way = Seq::<Entry>::empty();
        assert(names_on(way) =~= seq![]);
        assert(at.rel =~= joined_with(names_on(way), "/"@));
        way
    } else {
        let (from, i) = choose|from: Spot, i: int|
            is_listed(tree, limits, from, (steps - 1) as nat) && has_entry(tree, from, i)
                && #[trigger] is_entered(limits, from, tree.listing(from.abs)->0[i]) && at
                == child_spot(from, tree.listing(from.abs)->0[i]->name@);
        let before = lemma_come(tree, limits, from, (steps - 1) as nat);
        let entry = tree.listing(from.abs)->0[i];
        lemma_step(tree, limits, from, before, i);
        a_directory_carries_the_markers_that_are_there(entry->probe);
        let way = before.push(entry);
        assert forall|k: int| 0 <= k < way.len() implies !has_marker((#[trigger] way[k])->probe) by {
            if k < before.len() {
                assert(way[k] == before[k]);
            }
        }
        way
    }
}

/// Everything that is reported is a project: a way of at most so many
/// directories leads to it from the root, through none that is hidden, is other
/// people's code or is built, and through no other project.
pub proof fn every_report_is_of_a_project(tree: Tree, limits: Limits, f: Found)
    requires
        is_tree(tree),
        run(tree, limits, at_start(tree.root@, limits, tree.style)).found.contains(f),
    ensures
        exists|way: Seq<Entry>| #[trigger]
            leads_to_project(tree, limits, way) && is_report_of(f, tree, way),
{
    a_walk_finds_the_candidates(tree, limits);
    assert(is_candidate(tree, limits, f));
    let (at, steps, i) = choose|at: Spot, steps: nat, i: int|
        #[trigger] is_listed(tree, limits, at, steps) && has_entry(tree, at, i) && #[trigger] is_marked(
            tree.listing(at.abs)->0[i],
        ) && f == reported(at, tree.listing(at.abs)->0[i]);
    let before = lemma_come(tree, limits, at, steps);
    let entry = tree.listing(at.abs)->0[i];
    lemma_step(tree, limits, at, before, i);
    a_directory_carries_the_markers_that_are_there(entry->probe);
    let way = before.push(entry);
    assert(way.last() == entry);
    assert forall|k: int| 0 <= k < way.len() - 1 implies !has_marker((#[trigger] way[k])->probe) by {
        assert(way[k] == before[k]);
    }
    assert(leads_to_project(tree, limits, way) && is_report_of(f, tree, way));
}

proof fn lemma_reached(tree: Tree, limits: Limits, way: Seq<Entry>) -> (at: Spot)
    requires
        is_tree(tree),
        way.len() < limits.max_depth,
        leads_on(tree, way),
        forall|i: int| 0 <= i < way.len() ==> !has_marker((#[trigger] way[i])->probe),
    ensures
        is_listed(tree, limits, at, way.len()),
        has_come(tree, limits, at, way),
    decreases way.len(),
{
    if way.len() == 0 {
        let at = Spot { abs: tree.root@, rel: seq![], depth: 0, style: tree.style };
        assert(names_on(way) =~= seq![]);
        assert(at.rel =~= joined_with(names_on(way), "/"@));
        at
    } else {
        let before = way.drop_last();
        let entry = way.last();
        assert(way[way.len() - 1] == entry);
        assert forall|i: int| 0 <= i < before.len() implies !has_marker((#[trigger] before[i])->probe) by {
            assert(before[i] == way[i]);
        }
        let from = lemma_reached(tree, limits, before);
        let entries = tree.listing(from.abs)->0;
        let i = choose|i: int| 0 <= i < entries.len() && entries[i] == entry;
        lemma_looked_into(entry->name@);
        a_directory_carries_the_markers_that_are_there(entry->probe);
        lemma_step(tree, limits, from, before, i);
        assert(before.push(entry) =~= way);
        assert(is_entered(limits, from, entries[i]));
        let at = child_spot(from, entry->name@);
        assert(is_listed(tree, limits, at, way.len()));
        at
    }
}

/// Every project that such a way leads to is reported, unless a limit on what
/// is read or reported ended the walk.
pub proof fn every_project_within_reach_is_reported(tree: Tree, limits: Limits, way: Seq<Entry>)
    requires
        is_tree(tree),
        leads_to_project(tree, limits, way),
        !run(tree, limits, at_start(tree.root@, limits, tree.style)).truncated,
    ensures
        exists|f: Found| #[trigger]
            run(tree, limits, at_start(tree.root@, limits, tree.style)).found.contains(f)
                && is_report_of(f, tree, way),
{
    let before = way.drop_last();
    let entry = way.last();
    assert forall|i: int| 0 <= i < before.len() implies !has_marker((#[trigger] before[i])->probe) by {
        assert(before[i] == way[i]);
    }
    let at = lemma_reached(tree, limits, before);
    let entries = tree.listing(at.abs)->0;
    let i = choose|i: int| 0 <= i < entries.len() && entries[i] == entry;
    lemma_looked_into(entry->name@);
    a_directory_carries_the_markers_that_are_there(entry->probe);
    lemma_step(tree, limits, at, before, i);
    assert(before.push(entry) =~= way);
    a_walk_finds_the_candidates(tree, limits);
    let f = reported(at, entries[i]);
    assert(is_listed(tree, limits, at, before.len()) && has_entry(tree, at, i) && is_marked(entries[i]));
    assert(is_candidate(tree, limits, f));
    assert(is_report_of(f, tree, way));
}

/// Every entry of a directory counts once, unless a limit ended the walk.
pub proof fn every_entry_counts(s: Progress, limits: Limits, at: Spot, entries: Seq<Entry>)
    requires
        !s.truncated,
    ensures
        !reads_all(s, limits, at, entries).truncated ==> reads_all(s, limits, at, entries).read == s.read
            + entries.len(),
        reads_all(s, limits, at, entries).read <= s.read + entries.len(),
        s.read + entries.len() <= limits.max_entries && s.found.len() + entries.len()
            <= limits.max_candidates ==> !reads_all(s, limits, at, entries).truncated,
        s.read <= limits.max_entries < s.read + entries.len() ==> reads_all(s, limits, at, entries).truncated,
        reads_all(s, limits, at, entries).found.len() <= s.found.len() + entries.len(),
    decreases entries.len(),
{
    if entries.len() > 0 {
        every_entry_counts(s, limits, at, entries.drop_last());
    }
}

// ---------------------------------------------------------------------------
// Nearest first
// ---------------------------------------------------------------------------
/// How many directories below the root a relative path leads.
pub open spec fn steps_of(rel: Seq<char>) -> nat {
    split(rel, '/').len()
}

/// Whether a directory that waits is as deep as its relative path says.
spec fn is_as_deep(at: Spot) -> bool {
    if at.depth == 0 {
        at.rel.len() == 0
    } else {
        at.rel.len() > 0 && steps_of(at.rel) == at.depth
    }
}

/// Whether everything that waits is on this level or the next, nearer ones
/// first, and everything reported is at most one below it, nearer ones first.
spec fn is_level(s: Progress, level: nat) -> bool {
    &&& forall|k: int| 0 <= k < s.queue.len() ==> is_as_deep(#[trigger] s.queue[k])
    &&& forall|k: int| 0 <= k < s.queue.len() ==> level <= (#[trigger] s.queue[k]).depth <= level + 1
    &&& forall|j: int, k: int|
        0 <= j < k < s.queue.len() ==> (#[trigger] s.queue[j]).depth <= (#[trigger] s.queue[k]).depth
    &&& forall|k: int| 0 <= k < s.found.len() ==> steps_of((#[trigger] s.found[k]).rel) <= level + 1
    &&& forall|j: int, k: int|
        0 <= j < k < s.found.len() ==> steps_of((#[trigger] s.found[j]).rel) <= steps_of(
            (#[trigger] s.found[k]).rel,
        )
}

proof fn lemma_child_steps(at: Spot, name: Seq<char>)
    requires
        is_as_deep(at),
        name.len() > 0,
        !name.contains('/'),
    ensures
        steps_of(child_rel(at.rel, name)) == at.depth + 1,
        child_rel(at.rel, name).len() > 0,
{
    lemma_split_whole(name, '/');
    if at.depth > 0 {
        reveal_strlit("/");
        lemma_split_around(at.rel, '/', name);
        assert(child_rel(at.rel, name) =~= at.rel.push('/') + name);
    }
}

proof fn lemma_reads_level(s: Progress, limits: Limits, at: Spot, entry: Entry)
    requires
        is_level(s, at.depth),
        is_as_deep(at),
        entry is Dir ==> entry->name@.len() > 0 && !entry->name@.contains('/'),
    ensures
        is_level(reads(s, limits, at, entry), at.depth),
{
    if entry is Dir {
        lemma_child_steps(at, entry->name@);
    }
    let t = reads(s, limits, at, entry);
    assert forall|k: int| 0 <= k < t.queue.len() implies is_as_deep(#[trigger] t.queue[k]) && at.depth
        <= t.queue[k].depth <= at.depth + 1 by {
        if k < s.queue.len() {
            assert(t.queue[k] == s.queue[k]);
        }
    }
    assert forall|j: int, k: int| 0 <= j < k < t.queue.len() implies (#[trigger] t.queue[j]).depth <= (
    #[trigger] t.queue[k]).depth by {
        if k < s.queue.len() {
            assert(t.queue[k] == s.queue[k] && t.queue[j] == s.queue[j]);
        }
    }
    assert forall|k: int| 0 <= k < t.found.len() implies steps_of((#[trigger] t.found[k]).rel) <= at.depth
        + 1 by {
        if k < s.found.len() {
            assert(t.found[k] == s.found[k]);
        }
    }
    assert forall|j: int, k: int| 0 <= j < k < t.found.len() implies steps_of((#[trigger] t.found[j]).rel)
        <= steps_of((#[trigger] t.found[k]).rel) by {
        if k < s.found.len() {
            assert(t.found[k] == s.found[k] && t.found[j] == s.found[j]);
        }
    }
}

proof fn lemma_reads_all_level(s: Progress, limits: Limits, at: Spot, entries: Seq<Entry>, style: PathStyle)
    requires
        is_level(s, at.depth),
        is_as_deep(at),
        is_listing(entries, style),
    ensures
        is_level(reads_all(s, limits, at, entries), at.depth),
    decreases entries.len(),
{
    if entries.len() > 0 {
        let front = entries.drop_last();
        let last = entries.last();
        assert(entries[entries.len() - 1] == last);
        assert(is_listing(front, style)) by {
            assert forall|i: int| 0 <= i < front.len() && (#[trigger] front[i]) is Dir implies is_plain(
                front[i]->name@,
                style,
            ) by {
                assert(front[i] == entries[i]);
            }
            assert forall|i: int, j: int|
                0 <= i < j < front.len() && (#[trigger] front[i]) is Dir && (#[trigger] front[j]) is Dir implies front[i]->name@
                != front[j]->name@ by {
                assert(front[i] == entries[i] && front[j] == entries[j]);
            }
        }
        lemma_reads_all_level(s, limits, at, front, style);
        if last is Dir {
            assert(is_plain(last->name@, style));
            if last->name@.contains('/') {
                let k = choose|k: int| 0 <= k < last->name@.len() && last->name@[k] == '/';
                assert(!style.separates(last->name@[k]));
            }
        }
        lemma_reads_level(reads_all(s, limits, at, front), limits, at, last);
    }
}

proof fn lemma_run_level(tree: Tree, limits: Limits, s: Progress, level: nat)
    requires
        is_tree(tree),
        is_level(s, level),
        s.read <= limits.max_entries,
    ensures
        exists|l: nat| is_level(run(tree, limits, s), l),
    decreases effort(s, limits),
{
    if !s.truncated && s.queue.len() > 0 {
        let at = s.queue[0];
        let entries = tree.listing(at.abs);
        let rest = Progress { queue: s.queue.drop_first(), ..s };
        assert(is_level(rest, at.depth)) by {
            assert forall|k: int| 0 <= k < rest.queue.len() implies is_as_deep(#[trigger] rest.queue[k])
                && at.depth <= rest.queue[k].depth <= at.depth + 1 by {
                assert(rest.queue[k] == s.queue[k + 1]);
                assert(s.queue[0].depth <= s.queue[k + 1].depth);
            }
            assert forall|j: int, k: int| 0 <= j < k < rest.queue.len() implies (
            #[trigger] rest.queue[j]).depth <= (#[trigger] rest.queue[k]).depth by {
                assert(rest.queue[j] == s.queue[j + 1] && rest.queue[k] == s.queue[k + 1]);
            }
            assert forall|k: int| 0 <= k < rest.found.len() implies steps_of((#[trigger] rest.found[k]).rel)
                <= at.depth + 1 by {
                assert(rest.found[k] == s.found[k]);
            }
        }
        if entries is Some {
            lemma_listing(tree.dirs@, at.abs, tree.style);
            lemma_reads_all_level(rest, limits, at, entries->0, tree.style);
        }
        lemma_effort(limits, s, entries);
        lemma_run_level(tree, limits, lists(s, limits, entries), at.depth);
        assert(run(tree, limits, s) == run(tree, limits, lists(s, limits, entries)));
    } else {
        assert(is_level(run(tree, limits, s), level));
    }
}

/// A walk reports the nearest projects first: where a limit ends it, none that
/// is left out is nearer to the root than one that is reported.
pub proof fn the_nearest_projects_are_found_first(tree: Tree, limits: Limits, i: int, j: int)
    requires
        is_tree(tree),
        0 <= i < j < run(tree, limits, at_start(tree.root@, limits, tree.style)).found.len(),
    ensures
        ({
            let found = run(tree, limits, at_start(tree.root@, limits, tree.style)).found;
            steps_of(found[i].rel) <= steps_of(found[j].rel)
        }),
{
    let start = at_start(tree.root@, limits, tree.style);
    assert(is_level(start, 0));
    lemma_run_level(tree, limits, start, 0);
}

// ---------------------------------------------------------------------------
// The decision
// ---------------------------------------------------------------------------
/// A root is the front of several projects exactly where it carries no marker,
/// has no complete index, and at least two projects were reported below it. It
/// is walked exactly where neither of the first two settles it.
pub proof fn a_root_is_a_front_of_two_projects_or_more(
    d: Detection,
    tree: Tree,
    index: Option<bool>,
    limits: Limits,
)
    requires
        d.decides(tree, index, limits),
    ensures
        ({
            let found = run(tree, limits, at_start(tree.root@, limits, tree.style)).found.len();
            let p = tree.root_probe;
            let complete = index is Some && index->0;
            &&& d.mode == Mode::Multi <==> !has_marker(p) && !complete && found >= 2
            &&& d.mode == Mode::Single(SingleReason::RootMarker) <==> has_marker(p)
            &&& d.mode == Mode::Single(SingleReason::CompletedIndex) <==> !has_marker(p) && complete
            &&& d.mode == Mode::Single(SingleReason::FewCandidates) <==> !has_marker(p) && !complete && found
                < 2
            &&& d.walked <==> !has_marker(p) && !complete
            &&& d.candidates@.len() == if d.walked {
                found
            } else {
                0
            }
        }),
{
    a_directory_carries_the_markers_that_are_there(tree.root_probe);
    let end = run(tree, limits, at_start(tree.root@, limits, tree.style));
    if d.walked {
        let p = choose|p: Seq<usize>| #[trigger]
            crate::order::is_order(crate::candidates::rel_paths(end.found), p)
                && crate::candidates::found_views(d.candidates@) == crate::order::picked(end.found, p);
        assert(crate::candidates::found_views(d.candidates@).len() == d.candidates@.len());
    }
}

/// What a decision lists are the projects that the walk reported, by their
/// relative paths in order.
pub proof fn the_projects_are_listed_by_their_paths(
    d: Detection,
    tree: Tree,
    index: Option<bool>,
    limits: Limits,
    i: int,
    j: int,
)
    requires
        d.decides(tree, index, limits),
        0 <= i < j < d.candidates@.len(),
    ensures
        !precedes(d.candidates@[j]@.rel, d.candidates@[i]@.rel),
        run(tree, limits, at_start(tree.root@, limits, tree.style)).found.contains(d.candidates@[i]@),
        run(tree, limits, at_start(tree.root@, limits, tree.style)).found.contains(d.candidates@[j]@),
{
    let end = run(tree, limits, at_start(tree.root@, limits, tree.style));
    lemma_listed(d.candidates@, end, i, j);
}

/// So is what a walk lists, with how many entries it read and whether a limit
/// ended it.
pub proof fn a_walk_lists_what_it_found(w: Walk, s: Progress, i: int, j: int)
    requires
        w.is_result_of(s),
        0 <= i < j < w.candidates@.len(),
    ensures
        w.candidates@.len() == s.found.len(),
        !precedes(w.candidates@[j]@.rel, w.candidates@[i]@.rel),
        s.found.contains(w.candidates@[i]@),
        s.found.contains(w.candidates@[j]@),
        w.entries_read == s.read,
        w.truncated == s.truncated,
{
    lemma_listed(w.candidates@, s, i, j);
}

proof fn lemma_listed(cs: Seq<Candidate>, s: Progress, i: int, j: int)
    requires
        exists|p: Seq<usize>| #[trigger]
            is_order(rel_paths(s.found), p) && found_views(cs) == picked(s.found, p),
        0 <= i < j < cs.len(),
    ensures
        cs.len() == s.found.len(),
        !precedes(cs[j]@.rel, cs[i]@.rel),
        s.found.contains(cs[i]@),
        s.found.contains(cs[j]@),
{
    let p = choose|p: Seq<usize>| #[trigger]
        is_order(rel_paths(s.found), p) && found_views(cs) == picked(s.found, p);
    assert(found_views(cs).len() == cs.len());
    what_is_put_in_order_ascends(s.found, rel_paths(s.found), p, i, j);
    assert(found_views(cs)[i] == picked(s.found, p)[i]);
    assert(found_views(cs)[j] == picked(s.found, p)[j]);
    assert(s.found[p[i] as int] == cs[i]@);
    assert(s.found[p[j] as int] == cs[j]@);
}

/// A directory's entries are those of the first directory with its path.
pub proof fn a_directory_lists_its_own_entries(dirs: Seq<Directory>, path: Seq<char>)
    ensures
        listing_in(dirs, path) is None <==> forall|i: int|
            0 <= i < dirs.len() ==> (#[trigger] dirs[i]).path@ != path,
        listing_in(dirs, path) matches Some(entries) ==> exists|i: int|
            0 <= i < dirs.len() && (#[trigger] dirs[i]).path@ == path && dirs[i].entries@ == entries,
    decreases dirs.len(),
{
    if dirs.len() > 0 && dirs[0].path@ != path {
        let rest = dirs.drop_first();
        a_directory_lists_its_own_entries(rest, path);
        if listing_in(rest, path) is Some {
            let i = choose|i: int|
                0 <= i < rest.len() && (#[trigger] rest[i]).path@ == path && rest[i].entries@ == listing_in(
                    rest,
                    path,
                )->0;
            assert(dirs[i + 1] == rest[i]);
        } else {
            assert forall|i: int| 0 <= i < dirs.len() implies (#[trigger] dirs[i]).path@ != path by {
                if i > 0 {
                    assert(rest[i - 1] == dirs[i]);
                }
            }
        }
    }
}

} // verus!
